//! Rewrites embedded `<template>` tags of JavaScript / TypeScript sources into
//! plain calls of a template helper, and reports where each tag stands.
//!
//! The parser that recognises the tags, and the source-map builder, stand
//! outside: the library works on what the parser reports of a file
//! (`ParsedModule`), and hands back the rewritten text together with the
//! position pairs a source map is made from.
use vstd::prelude::*;

pub mod text;
pub mod escape;
pub mod indent;
pub mod position;
pub mod source;
pub mod locate;
pub mod importer;
pub mod snippets;
pub mod transform;

use base64::Engine;
use crate::importer::{Importer, binding_ok, first_free, fresh_ident, import_text, reusable};
use crate::locate::{Occurrence, locate, occurrences_of};
use crate::source::ParsedModule;
use crate::transform::{
    Mapping, Piece, TransformVisitor, assemble, mappings_of, mappings_view, rewritten_pieces, text_of,
};
use vstd::string::{StringExecFns, StringSliceAdditionalSpecFns};
use vstd::utf8::encode_utf8;

verus! {

/// How a file is to be processed.
pub struct Options {
    /// The file's name, for the source map; none for an anonymous source.
    pub filename: Option<String>,
    /// Whether to append the source map to the code as a data URL comment.
    pub inline_source_map: bool,
}

impl Default for Options {
    fn default() -> (r: Self)
        ensures
            r.filename is None,
            !r.inline_source_map,
    {
        Options { filename: None, inline_source_map: false }
    }
}

/// Output code and its source map.
pub struct CodeMapPair {
    pub code: String,
    pub map: String,
}

/// A module with its tags rewritten.
pub struct Rewritten {
    /// The rewritten source text.
    pub code: String,
    /// Positions of `code` paired with the source positions they come from.
    pub mappings: Vec<Mapping>,
    /// The name the rewritten calls use for the helper.
    pub helper: String,
    /// Whether an import of the helper was added at the top.
    pub imported: bool,
    /// The name given to the bindings of nested scopes that had the
    /// helper's name.
    pub renamed: String,
}

/// The pieces of the output for module `m` with the helper named `id`: the
/// import, where `need` says one is added, then the source with its tags
/// rewritten and the nested bindings named `id` renamed to `shadow`.
pub open spec fn process_pieces(
    m: ParsedModule,
    tm: Seq<char>,
    ts: Seq<char>,
    id: Seq<char>,
    shadow: Seq<char>,
    need: bool,
) -> Seq<(Seq<char>, int)> {
    (if need {
        seq![(import_text(tm, ts, id), 0int)]
    } else {
        Seq::empty()
    }) + rewritten_pieces(m, id, shadow)
}

/// The comment that carries an inline source map, before its payload.
pub open spec fn inline_map_prefix() -> Seq<char> {
    "//# sourceMappingURL=data:application/json;base64,"@
}

/// The URL-safe base64 encoding of `bytes`, without padding.
pub uninterp spec fn base64_url_no_pad(bytes: Seq<u8>) -> Seq<char>;

/// Relies on base64's `URL_SAFE_NO_PAD` engine `encode`: the URL-safe
/// encoding of the bytes without `=` padding, four characters for each three
/// bytes and two or three for a final one or two. It panics only where that
/// length overflows `usize`.
#[verifier::external_body]
fn encode_base64_url(input: &str) -> (r: String)
    requires
        input.spec_bytes().len() <= 3 * (usize::MAX / 4),
    ensures
        r@ == base64_url_no_pad(input.spec_bytes()),
        r@.len() == 4 * (input.spec_bytes().len() / 3) + if input.spec_bytes().len() % 3 == 0 {
            0int
        } else if input.spec_bytes().len() % 3 == 1 {
            2int
        } else {
            3int
        },
{
    base64::engine::general_purpose::URL_SAFE_NO_PAD.encode(input)
}

/// Rewrites and reports the `<template>` tags of modules.
pub struct Preprocessor {
    /// The module the helper is imported from.
    pub target_module: String,
    /// The name the helper is exported under.
    pub target_specifier: String,
}

impl Preprocessor {
    pub fn new() -> (r: Self)
        ensures
            r.target_module@ == "@ember/template-compiler"@,
            r.target_specifier@ == "template"@,
    {
        Preprocessor {
            target_module: String::from_str("@ember/template-compiler"),
            target_specifier: String::from_str("template"),
        }
    }

    /// The records of the tags of `module`, in document order.
    pub fn parse(&self, module: &ParsedModule) -> (r: Vec<Occurrence>)
        requires
            module.wf(),
        ensures
            occurrences_of(module.src@, module.tags@, r@),
    {
        locate(module)
    }

    /// Rewrites every tag of `module` into a call of the helper, and puts an
    /// import of the helper at the top where the module has none to reuse
    /// and some tag was rewritten. The bindings of nested scopes that have
    /// the helper's name are renamed to the first name after it that no
    /// identifier of the file has, so that the calls reach the helper; and
    /// import specifiers `a as a` are written `a`.
    pub fn process(&self, module: &ParsedModule) -> (r: Rewritten)
        requires
            module.wf(),
        ensures
            binding_ok(*module, self.target_module@, self.target_specifier@, r.helper@),
            r.imported == (!reusable(*module, self.target_module@, self.target_specifier@)
                && module.tags@.len() > 0),
            first_free(module.identifiers@, r.helper@, r.renamed@),
            r.code@ == text_of(
                process_pieces(
                    *module,
                    self.target_module@,
                    self.target_specifier@,
                    r.helper@,
                    r.renamed@,
                    r.imported,
                ),
            ),
            mappings_view(r.mappings@) == mappings_of(
                process_pieces(
                    *module,
                    self.target_module@,
                    self.target_specifier@,
                    r.helper@,
                    r.renamed@,
                    r.imported,
                ),
            ),
    {
        let importer = Importer::prepare(module, self.target_module.as_str(), self.target_specifier.as_str());
        let renamed = fresh_ident(importer.id.as_str(), &module.identifiers);
        let mut visitor = TransformVisitor::new(importer.id());
        let mut pieces = visitor.visit_module(module, &renamed);
        let import = importer.insert(visitor.found_it);
        let imported = importer.need_insert && visitor.found_it;
        if imported {
            let ghost body = pieces@;
            pieces.insert(0, Piece { text: crate::text::chars_of(import.as_str()), origin: 0 });
            proof {
                assert(transform::pieces_view(pieces@) =~= seq![(import@, 0int)] + transform::pieces_view(body));
            }
        } else {
            proof {
                assert(transform::pieces_view(pieces@) =~= Seq::empty() + transform::pieces_view(pieces@));
            }
        }
        let (code, mappings) = assemble(&pieces);
        Rewritten { code, mappings, helper: importer.id.clone(), imported, renamed }
    }

    /// The code and source map of a rewritten module; where the options ask
    /// for it, the map is appended to the code as a base64 data URL comment.
    pub fn print(&self, rewritten: &Rewritten, map: String, options: &Options) -> (r: CodeMapPair)
        requires
            encode_utf8(map@).len() <= isize::MAX,
        ensures
            r.map@ == map@,
            r.code@ == rewritten.code@ + if options.inline_source_map {
                inline_map_prefix() + base64_url_no_pad(encode_utf8(map@))
            } else {
                Seq::empty()
            },
    {
        let mut code = String::from_str(rewritten.code.as_str());
        if options.inline_source_map {
            let encoded = encode_base64_url(map.as_str());
            code.append("//# sourceMappingURL=data:application/json;base64,");
            code.append(encoded.as_str());
        }
        CodeMapPair { code, map }
    }
}

/// A module without tags comes out as it went in, with no import added.
pub proof fn lemma_no_tags_unchanged(
    m: ParsedModule,
    tm: Seq<char>,
    ts: Seq<char>,
    id: Seq<char>,
    shadow: Seq<char>,
    imported: bool,
)
    requires
        m.wf(),
        m.tags@.len() == 0,
        imported == (!reusable(m, tm, ts) && m.tags@.len() > 0),
    ensures
        !imported,
        text_of(process_pieces(m, tm, ts, id, shadow, imported)) == m.src@,
{
    let src = m.src@;
    assert(src.take(0) =~= Seq::<char>::empty());
    transform::lemma_cut(src, 0, 0);
    assert(source::edits(m) =~= Seq::<source::Edit>::empty());
    let ps = process_pieces(m, tm, ts, id, shadow, imported);
    assert(ps =~= seq![(src.subrange(0, src.len() as int), 0int)]);
    assert(ps.drop_last() =~= Seq::<(Seq<char>, int)>::empty());
    assert(src.subrange(0, src.len() as int) =~= src);
    assert(text_of(ps.drop_last()) =~= Seq::<char>::empty());
    assert(text_of(ps) =~= text_of(ps.drop_last()) + ps.last().0);
}

/// A module without tags yields no records.
pub proof fn lemma_no_tags_no_records(m: ParsedModule, os: Seq<Occurrence>)
    requires
        m.tags@.len() == 0,
        occurrences_of(m.src@, m.tags@, os),
    ensures
        os.len() == 0,
{
}

/// Where the module has no import of the helper and an identifier of the
/// file already has the helper's name, the import that is added brings the
/// helper in under another name, which no identifier of the file has; the
/// rewritten calls use that name, and no binding of the file is renamed.
pub proof fn lemma_collision_avoided(
    m: ParsedModule,
    tm: Seq<char>,
    ts: Seq<char>,
    id: Seq<char>,
    shadow: Seq<char>,
    imported: bool,
)
    requires
        m.wf(),
        binding_ok(m, tm, ts, id),
        imported == (!reusable(m, tm, ts) && m.tags@.len() > 0),
        !reusable(m, tm, ts),
        importer::is_taken(m.identifiers@, ts),
        m.tags@.len() > 0,
    ensures
        imported,
        id != ts,
        !importer::is_taken(m.identifiers@, id),
        process_pieces(m, tm, ts, id, shadow, imported) == seq![(import_text(tm, ts, id), 0int)]
            + rewritten_pieces(m, id, shadow),
        forall|j: int|
            0 <= j < m.sites@.len() ==> (#[trigger] m.sites@[j] matches source::NameSite::Binding {
                name,
                ..
            } ==> name@ != id),
{
    assert forall|j: int|
        0 <= j < m.sites@.len() implies (#[trigger] m.sites@[j] matches source::NameSite::Binding {
        name,
        ..
    } ==> name@ != id) by {
        if let source::NameSite::Binding { name, .. } = m.sites@[j] {
            let k = choose|k: int| 0 <= k < m.identifiers@.len() && m.identifiers@[k]@ == name@;
            assert(m.identifiers@[k]@ == name@);
        }
    }
}

/// Where the module already imports the helper, under whatever local name,
/// no import is added and the rewritten calls use that local name; the
/// bindings of nested scopes that have that name are renamed to one that
/// no identifier of the file has.
pub proof fn lemma_import_reused(
    m: ParsedModule,
    tm: Seq<char>,
    ts: Seq<char>,
    id: Seq<char>,
    shadow: Seq<char>,
    imported: bool,
)
    requires
        binding_ok(m, tm, ts, id),
        imported == (!reusable(m, tm, ts) && m.tags@.len() > 0),
        first_free(m.identifiers@, id, shadow),
        importer::find_import(m.imports@, tm, ts) is Some,
    ensures
        !imported,
        id == importer::find_import(m.imports@, tm, ts)->0,
        process_pieces(m, tm, ts, id, shadow, imported) == rewritten_pieces(m, id, shadow),
        !importer::is_taken(m.identifiers@, shadow),
        importer::is_taken(m.identifiers@, id) ==> shadow != id,
{
    assert(process_pieces(m, tm, ts, id, shadow, imported) =~= rewritten_pieces(m, id, shadow));
}

} // verus!
