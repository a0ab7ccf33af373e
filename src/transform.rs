//! Rewriting each `<template>` tag into a call of the template helper.
//!
//! The output is built as a sequence of pieces, each a text and the byte
//! offset of the source it comes from: the text between changes is copied,
//! each tag becomes generated text attributed to the parts of the tag, and
//! each renamed or simplified name its new text.
use vstd::prelude::*;
use crate::escape::{escape, escape_template_literal, lemma_unescape_escape, unescape};
use crate::indent::{strip_indent, stripped};
use crate::position::{Span, byte_len, char_offset, is_boundary, lemma_boundary_unique, lemma_byte_len_prefix};
use crate::snippets::{scope_params, scope_params_text, scope_params_with_this, scope_params_with_this_text};
use crate::source::{
    Edit, NameSite, ParsedModule, TagContent, TagPosition, TemplateTag, edit_span, edits, edits_from,
    site_count, site_span, site_wf, tag_wf,
};
use crate::text::{append_chars, append_str, chars_of};

verus! {

/// A piece of output: its text, and the byte offset of the source it maps to.
pub struct Piece {
    pub text: Vec<char>,
    pub origin: usize,
}

pub open spec fn piece_view(p: Piece) -> (Seq<char>, int) {
    (p.text@, p.origin as int)
}

pub open spec fn pieces_view(ps: Seq<Piece>) -> Seq<(Seq<char>, int)> {
    ps.map_values(|p: Piece| piece_view(p))
}

/// The template text as it goes between the backticks of the call.
pub open spec fn literal_text(value: Seq<char>) -> Seq<char> {
    escape(stripped(value))
}

/// The literal put into a call reads back as the template text after its
/// blank lines and common indentation were stripped.
pub proof fn lemma_literal_reads_back(value: Seq<char>)
    ensures
        unescape(literal_text(value)) == stripped(value),
{
    lemma_unescape_escape(stripped(value));
}

/// The generated pieces that replace the tag `t`, given the helper's name.
pub open spec fn tag_pieces(t: TemplateTag, id: Seq<char>) -> Seq<(Seq<char>, int)> {
    let open_call = (id + "(`"@, t.span.lo as int);
    let lit = (literal_text(t.contents.value@) + "`, "@, t.contents.span.lo as int);
    match t.position {
        TagPosition::Expression => seq![open_call, lit, (scope_params_text() + ")"@, t.closing.lo as int)],
        TagPosition::ClassMember => seq![
            ("static { "@, t.opening.lo as int),
            open_call,
            lit,
            (scope_params_with_this_text() + "); }"@, t.closing.lo as int),
        ],
        TagPosition::Statement => seq![
            ("export default "@, t.span.lo as int),
            open_call,
            lit,
            (scope_params_text() + ")"@, t.closing.lo as int),
        ],
    }
}

/// The index of the character of `src` that starts at byte offset `b`.
pub open spec fn cut(src: Seq<char>, b: int) -> int {
    choose|k: int| 0 <= k <= src.len() && byte_len(src.take(k)) == b
}

/// The first of the changes from tag `i` and site `j` on is the one the
/// comparison of their starts picks.
proof fn lemma_edits_step(m: ParsedModule, i: int, j: int, take_tag: bool)
    requires
        0 <= i <= m.tags@.len(),
        0 <= j <= site_count(m),
        i < m.tags@.len() || j < site_count(m),
        take_tag == (j >= site_count(m) || (i < m.tags@.len() && m.tags@[i].span.lo <= site_span(
            m.sites@[j],
        ).lo)),
    ensures
        take_tag ==> edits_from(m, i, j) == seq![Edit::Tag(i)] + edits_from(m, i + 1, j),
        !take_tag ==> edits_from(m, i, j) == seq![Edit::Site(j)] + edits_from(m, i, j + 1),
{
}

/// The change a tag (`take_tag`) or a site names, by index.
pub open spec fn edit_of(take_tag: bool, i: usize, j: usize) -> Edit {
    if take_tag {
        Edit::Tag(i as int)
    } else {
        Edit::Site(j as int)
    }
}

/// The text that takes the place of site `s`: a nested binding named like
/// the helper, `id`, is renamed to `shadow`; a specifier `a as a` becomes
/// `a`; anything else is copied.
pub open spec fn site_text(src: Seq<char>, s: NameSite, id: Seq<char>, shadow: Seq<char>) -> Seq<char> {
    let copy = src.subrange(cut(src, site_span(s).lo as int), cut(src, site_span(s).hi as int));
    match s {
        NameSite::Binding { name, .. } => if name@ == id {
            shadow
        } else {
            copy
        },
        NameSite::Specifier { imported, local, .. } => if imported@ == local@ {
            local@
        } else {
            copy
        },
    }
}

/// The pieces that take the place of the change `e`.
pub open spec fn edit_pieces(m: ParsedModule, e: Edit, id: Seq<char>, shadow: Seq<char>) -> Seq<
    (Seq<char>, int),
> {
    match e {
        Edit::Tag(i) => tag_pieces(m.tags@[i], id),
        Edit::Site(j) => seq![
            (site_text(m.src@, m.sites@[j], id, shadow), site_span(m.sites@[j]).lo as int),
        ],
    }
}

/// Where the source text copied before change `n` starts: after change
/// `n - 1`.
pub open spec fn gap_start(m: ParsedModule, es: Seq<Edit>, n: int) -> int {
    if n == 0 {
        0
    } else {
        edit_span(m, es[n - 1]).hi as int
    }
}

/// The pieces up to and including the first `n` changes of `es`.
pub open spec fn body_pieces(
    m: ParsedModule,
    es: Seq<Edit>,
    id: Seq<char>,
    shadow: Seq<char>,
    n: nat,
) -> Seq<(Seq<char>, int)>
    decreases n,
{
    if n == 0 {
        Seq::empty()
    } else {
        let e = es[n - 1];
        let from = gap_start(m, es, n - 1);
        body_pieces(m, es, id, shadow, (n - 1) as nat) + seq![
            (m.src@.subrange(cut(m.src@, from), cut(m.src@, edit_span(m, e).lo as int)), from),
        ] + edit_pieces(m, e, id, shadow)
    }
}

/// The source of `m` with every change made, as pieces: the tags rewritten
/// into calls of `id`, nested bindings named `id` renamed to `shadow`, and
/// import specifiers `a as a` written `a`.
pub open spec fn rewritten_pieces(m: ParsedModule, id: Seq<char>, shadow: Seq<char>) -> Seq<
    (Seq<char>, int),
> {
    let es = edits(m);
    let from = gap_start(m, es, es.len() as int);
    body_pieces(m, es, id, shadow, es.len()) + seq![
        (m.src@.subrange(cut(m.src@, from), m.src@.len() as int), from),
    ]
}

/// The text of a sequence of pieces.
pub open spec fn text_of(ps: Seq<(Seq<char>, int)>) -> Seq<char>
    decreases ps.len(),
{
    if ps.len() == 0 {
        Seq::empty()
    } else {
        text_of(ps.drop_last()) + ps.last().0
    }
}

/// For each piece: where its text starts in the output (in characters), and
/// the byte offset of the source it maps to.
pub open spec fn mappings_of(ps: Seq<(Seq<char>, int)>) -> Seq<(int, int)> {
    Seq::new(ps.len(), |i: int| (text_of(ps.take(i)).len() as int, ps[i].1))
}

/// Rewrites the tags of one module, using one name for the helper.
pub struct TransformVisitor {
    pub template_identifier: String,
    /// Set once a tag has been rewritten.
    pub found_it: bool,
}

pub proof fn lemma_cut(src: Seq<char>, b: int, k: int)
    requires
        0 <= k <= src.len(),
        byte_len(src.take(k)) == b,
    ensures
        cut(src, b) == k,
{
    let c = cut(src, b);
    assert(0 <= c <= src.len() && byte_len(src.take(c)) == b);
    lemma_boundary_unique(src, c, k);
}

/// A byte offset at or after another names a character at or after its.
proof fn lemma_cut_order(src: Seq<char>, i: int, j: int)
    requires
        0 <= i <= src.len(),
        0 <= j <= src.len(),
        byte_len(src.take(i)) <= byte_len(src.take(j)),
    ensures
        i <= j,
{
    if j < i {
        lemma_byte_len_prefix(src, j, i);
    }
}

impl TransformVisitor {
    pub fn new(id: &String) -> (r: Self)
        ensures
            r.template_identifier@ == id@,
            !r.found_it,
    {
        TransformVisitor { template_identifier: id.clone(), found_it: false }
    }

    fn set_found_it(&mut self)
        ensures
            final(self).found_it,
            final(self).template_identifier == old(self).template_identifier,
    {
        self.found_it = true;
    }

    /// The template text, normalised and escaped for a backtick literal.
    pub fn content_literal(&self, contents: &TagContent) -> (r: Vec<char>)
        ensures
            r@ == literal_text(contents.value@),
    {
        let s = strip_indent(contents.value.as_str());
        let e = escape_template_literal(s.as_str());
        chars_of(e.as_str())
    }

    /// Appends the pieces that replace the tag `t`.
    pub fn transform_tag(&mut self, t: &TemplateTag, out: &mut Vec<Piece>)
        ensures
            final(self).found_it,
            final(self).template_identifier == old(self).template_identifier,
            pieces_view(final(out)@) == pieces_view(old(out)@) + tag_pieces(
                *t,
                old(self).template_identifier@,
            ),
    {
        let ghost start = out@;
        let ghost id = self.template_identifier@;
        let mut open_call: Vec<char> = chars_of(self.template_identifier.as_str());
        append_str(&mut open_call, "(`");
        let mut lit = self.content_literal(&t.contents);
        append_str(&mut lit, "`, ");
        match t.position {
            TagPosition::Expression => {
                let mut scope = scope_params(t.closing).text;
                append_str(&mut scope, ")");
                out.push(Piece { text: open_call, origin: t.span.lo });
                out.push(Piece { text: lit, origin: t.contents.span.lo });
                out.push(Piece { text: scope, origin: t.closing.lo });
            },
            TagPosition::ClassMember => {
                let mut scope = scope_params_with_this(t.closing).text;
                append_str(&mut scope, "); }");
                out.push(Piece { text: chars_of("static { "), origin: t.opening.lo });
                out.push(Piece { text: open_call, origin: t.span.lo });
                out.push(Piece { text: lit, origin: t.contents.span.lo });
                out.push(Piece { text: scope, origin: t.closing.lo });
            },
            TagPosition::Statement => {
                let mut scope = scope_params(t.closing).text;
                append_str(&mut scope, ")");
                out.push(Piece { text: chars_of("export default "), origin: t.span.lo });
                out.push(Piece { text: open_call, origin: t.span.lo });
                out.push(Piece { text: lit, origin: t.contents.span.lo });
                out.push(Piece { text: scope, origin: t.closing.lo });
            },
        }
        self.set_found_it();
        proof {
            assert(pieces_view(out@) =~= pieces_view(start) + tag_pieces(*t, id));
        }
    }

    /// The text that takes the place of the site `site`.
    fn site_text_of(&self, src: &str, cs: &Vec<char>, site: &NameSite, shadow: &String) -> (r: Vec<
        char,
    >)
        requires
            cs@ == src@,
            site_wf(src@, *site),
        ensures
            r@ == site_text(src@, *site, self.template_identifier@, shadow@),
    {
        let span = match site {
            NameSite::Binding { span, .. } => *span,
            NameSite::Specifier { span, .. } => *span,
        };
        match site {
            NameSite::Binding { name, .. } => {
                if *name == self.template_identifier {
                    return chars_of(shadow.as_str());
                }
            },
            NameSite::Specifier { imported, local, .. } => {
                if *imported == *local {
                    return chars_of(local.as_str());
                }
            },
        }
        let lo = char_offset(src, span.lo);
        let hi = char_offset(src, span.hi);
        proof {
            lemma_cut(src@, span.lo as int, lo as int);
            lemma_cut(src@, span.hi as int, hi as int);
            lemma_cut_order(src@, lo as int, hi as int);
        }
        copy_chars(cs, lo, hi)
    }

    /// Appends the source text from byte `from` up to the change that
    /// `take_tag`, `i` and `j` name, then the pieces of that change; returns
    /// its span and the index of the character that follows it.
    fn push_edit(
        &mut self,
        module: &ParsedModule,
        src: &str,
        cs: &Vec<char>,
        take_tag: bool,
        i: usize,
        j: usize,
        shadow: &String,
        from: usize,
        from_char: usize,
        out: &mut Vec<Piece>,
    ) -> (r: (Span, usize))
        requires
            src@ == module.src@,
            cs@ == src@,
            take_tag ==> i < module.tags@.len() && tag_wf(src@, module.tags@[i as int]),
            !take_tag ==> j < module.sites@.len() && site_wf(src@, module.sites@[j as int]),
            from <= edit_span(*module, edit_of(take_tag, i, j)).lo,
            from_char <= src@.len(),
            byte_len(src@.take(from_char as int)) == from,
        ensures
            final(self).template_identifier == old(self).template_identifier,
            final(self).found_it == (old(self).found_it || take_tag),
            r.0 == edit_span(*module, edit_of(take_tag, i, j)),
            pieces_view(final(out)@) == pieces_view(old(out)@) + seq![
                (
                    src@.subrange(cut(src@, from as int), cut(src@, r.0.lo as int)),
                    from as int,
                ),
            ] + edit_pieces(*module, edit_of(take_tag, i, j), old(self).template_identifier@, shadow@),
            r.1 <= src@.len(),
            byte_len(src@.take(r.1 as int)) == r.0.hi,
    {
        let ghost s = src@;
        let ghost start = out@;
        let span = if take_tag {
            module.tags[i].span
        } else {
            match &module.sites[j] {
                NameSite::Binding { span, .. } => *span,
                NameSite::Specifier { span, .. } => *span,
            }
        };
        let lo_char = char_offset(src, span.lo);
        proof {
            lemma_cut_order(s, from_char as int, lo_char as int);
            lemma_cut(s, from as int, from_char as int);
            lemma_cut(s, span.lo as int, lo_char as int);
        }
        let gap = copy_chars(cs, from_char, lo_char);
        out.push(Piece { text: gap, origin: from });
        let ghost mid = out@;
        proof {
            assert(pieces_view(mid) =~= pieces_view(start) + seq![
                (s.subrange(cut(s, from as int), cut(s, span.lo as int)), from as int),
            ]);
        }
        if take_tag {
            self.transform_tag(&module.tags[i], out);
        } else {
            let text = self.site_text_of(src, cs, &module.sites[j], shadow);
            out.push(Piece { text, origin: span.lo });
            proof {
                assert(pieces_view(out@) =~= pieces_view(mid) + edit_pieces(
                    *module,
                    edit_of(take_tag, i, j),
                    self.template_identifier@,
                    shadow@,
                ));
            }
        }
        (span, char_offset(src, span.hi))
    }

    /// The pieces of `module`'s source with every change made: each tag
    /// rewritten into a call of the helper, each nested binding that has the
    /// helper's name renamed to `shadow`, each import specifier `a as a`
    /// written `a`. Where the module has no tag, nothing but the tags is
    /// changed.
    pub fn visit_module(&mut self, module: &ParsedModule, shadow: &String) -> (r: Vec<Piece>)
        requires
            module.wf(),
        ensures
            final(self).template_identifier == old(self).template_identifier,
            final(self).found_it == (old(self).found_it || module.tags@.len() > 0),
            pieces_view(r@) == rewritten_pieces(
                *module,
                old(self).template_identifier@,
                shadow@,
            ),
    {
        let ghost id = self.template_identifier@;
        let ghost m = *module;
        let ghost es = edits(m);
        let src = module.src.as_str();
        let cs = chars_of(src);
        let ghost s = module.src@;
        let tags = &module.tags;
        let sites = &module.sites;
        let nsites: usize = if tags.len() > 0 {
            sites.len()
        } else {
            0
        };
        let mut out: Vec<Piece> = Vec::new();
        let mut i: usize = 0;
        let mut j: usize = 0;
        let mut from: usize = 0;
        let mut from_char: usize = 0;
        let ghost mut done: Seq<Edit> = Seq::empty();
        proof {
            assert(s.take(0) =~= Seq::<char>::empty());
            assert(es =~= done + edits_from(m, 0, 0));
        }
        while i < tags.len() || j < nsites
            invariant
                m == *module,
                module.wf(),
                src@ == s,
                cs@ == s,
                tags@ == m.tags@,
                sites@ == m.sites@,
                s == m.src@,
                nsites == site_count(m),
                i <= tags@.len(),
                j <= nsites,
                es == edits(m),
                es == done + edits_from(m, i as int, j as int),
                self.template_identifier == old(self).template_identifier,
                self.template_identifier@ == id,
                self.found_it == (old(self).found_it || i > 0),
                from == gap_start(m, es, done.len() as int),
                from_char <= s.len(),
                byte_len(s.take(from_char as int)) == from,
                pieces_view(out@) == body_pieces(m, es, id, shadow@, done.len()),
            decreases tags@.len() - i + nsites - j,
        {
            let take_tag = j >= nsites || (i < tags.len() && tags[i].span.lo <= match &sites[j] {
                NameSite::Binding { span, .. } => span.lo,
                NameSite::Specifier { span, .. } => span.lo,
            });
            let ghost k = done.len() as int;
            let ghost e = edit_of(take_tag, i, j);
            let ghost k_i = i;
            let ghost k_j = j;
            proof {
                lemma_edits_step(m, i as int, j as int, take_tag);
                assert(es[k] == e);
                if k > 0 {
                    assert(edit_span(m, es[k - 1]).hi <= edit_span(m, es[k]).lo);
                }
                if take_tag {
                    assert(tag_wf(s, tags@[i as int]));
                } else {
                    assert(site_wf(s, sites@[j as int]));
                }
            }
            let (span, hi_char) = self.push_edit(module, src, &cs, take_tag, i, j, shadow, from, from_char, &mut out);
            if take_tag {
                i = i + 1;
            } else {
                j = j + 1;
            }
            proof {
                assert(edits_from(m, k_i as int, k_j as int) == seq![e] + edits_from(m, i as int, j as int));
                done = done.push(e);
                assert(es =~= done + edits_from(m, i as int, j as int));
                assert(done[k] == e);
                assert(pieces_view(out@) =~= body_pieces(m, es, id, shadow@, done.len()));
            }
            from = span.hi;
            from_char = hi_char;
        }
        let n = cs.len();
        proof {
            assert(edits_from(m, i as int, j as int) =~= Seq::<Edit>::empty());
            assert(done =~= es);
            lemma_cut(s, from as int, from_char as int);
        }
        let tail = copy_chars(&cs, from_char, n);
        out.push(Piece { text: tail, origin: from });
        proof {
            assert(pieces_view(out@) =~= rewritten_pieces(m, id, shadow@));
        }
        out
    }
}

/// The characters of `cs` from index `a` up to `b`.
fn copy_chars(cs: &Vec<char>, a: usize, b: usize) -> (r: Vec<char>)
    requires
        a <= b <= cs@.len(),
    ensures
        r@ == cs@.subrange(a as int, b as int),
{
    let mut r: Vec<char> = Vec::new();
    let mut q: usize = a;
    while q < b
        invariant
            a <= q <= b <= cs@.len(),
            r@ == cs@.subrange(a as int, q as int),
        decreases b - q,
    {
        r.push(cs[q]);
        q = q + 1;
        proof {
            assert(r@ =~= cs@.subrange(a as int, q as int));
        }
    }
    r
}

/// A position of the output paired with the source position it comes from.
#[derive(Clone, Copy, Debug, PartialEq, Eq, Structural)]
pub struct Mapping {
    /// Offset in the output, in characters.
    pub generated: usize,
    /// Offset in the source, in bytes.
    pub original: usize,
}

pub open spec fn mappings_view(ms: Seq<Mapping>) -> Seq<(int, int)> {
    ms.map_values(|m: Mapping| (m.generated as int, m.original as int))
}

/// Joins the pieces into the output text, and records where each starts.
pub fn assemble(pieces: &Vec<Piece>) -> (r: (String, Vec<Mapping>))
    ensures
        r.0@ == text_of(pieces_view(pieces@)),
        mappings_view(r.1@) == mappings_of(pieces_view(pieces@)),
{
    let ghost pv = pieces_view(pieces@);
    let mut out: Vec<char> = Vec::new();
    let mut maps: Vec<Mapping> = Vec::new();
    let mut i: usize = 0;
    proof {
        assert(pv.take(0) =~= Seq::<(Seq<char>, int)>::empty());
    }
    while i < pieces.len()
        invariant
            pv == pieces_view(pieces@),
            i <= pieces@.len(),
            out@ == text_of(pv.take(i as int)),
            mappings_view(maps@) == mappings_of(pv).take(i as int),
        decreases pieces@.len() - i,
    {
        let p = &pieces[i];
        let ghost old_maps = maps@;
        maps.push(Mapping { generated: out.len(), original: p.origin });
        proof {
            assert(pv[i as int] == piece_view(*p));
            assert(mappings_of(pv)[i as int] == (text_of(pv.take(i as int)).len() as int, p.origin as int));
            assert(mappings_view(maps@) =~= mappings_view(old_maps).push(mappings_of(pv)[i as int]));
            assert(mappings_view(maps@) =~= mappings_of(pv).take(i + 1));
        }
        append_chars(&mut out, &p.text);
        proof {
            assert(pv.take(i + 1).drop_last() =~= pv.take(i as int));
        }
        i = i + 1;
    }
    proof {
        assert(pv.take(i as int) =~= pv);
        assert(mappings_of(pv).take(i as int) =~= mappings_of(pv));
    }
    (crate::text::string_of(&out), maps)
}

} // verus!
