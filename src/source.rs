//! What the parser hands over of a source file: its text, its `<template>`
//! tags, its top-level imports and the names bound in it.
use vstd::prelude::*;
use crate::position::{Span, is_boundary};

verus! {

/// Where a `<template>` tag stands in the syntax of its file.
#[derive(Clone, Copy, Debug, PartialEq, Eq, Structural)]
pub enum TagPosition {
    /// Inside an expression.
    Expression,
    /// As a member of a class body.
    ClassMember,
    /// As a whole top-level expression statement, possibly followed by a
    /// `satisfies` type assertion.
    Statement,
}

/// The text between the opening and the closing tag.
#[derive(Clone, Debug)]
pub struct TagContent {
    pub span: Span,
    pub value: String,
}

/// One `<template>` tag found by the parser.
#[derive(Clone, Debug)]
pub struct TemplateTag {
    pub position: TagPosition,
    /// From the start of the opening tag to the end of the closing tag.
    pub span: Span,
    /// The opening `<template>`.
    pub opening: Span,
    pub contents: TagContent,
    /// The closing `</template>`.
    pub closing: Span,
}

/// The name under which an import specifier brings in an export.
#[derive(Clone, Debug)]
pub enum ExportName {
    Ident(String),
    Str(String),
}

/// One specifier of an import declaration.
#[derive(Clone, Debug)]
pub enum ImportSpecifier {
    /// `{ imported as local }`, or `{ local }` where `imported` is `None`.
    Named { local: String, imported: Option<ExportName> },
    /// `local` in `import local from ...`.
    Default { local: String },
    /// `* as local`.
    Namespace { local: String },
}

/// A top-level `import ... from "src"` declaration.
#[derive(Clone, Debug)]
pub struct ImportDecl {
    pub src: String,
    pub specifiers: Vec<ImportSpecifier>,
}

/// A parsed source file, as far as the rewrite reads it.
#[derive(Clone, Debug)]
pub struct ParsedModule {
    /// The source text.
    pub src: String,
    /// The `<template>` tags, in the order they occur.
    pub tags: Vec<TemplateTag>,
    /// The import declarations at the top level, in order.
    pub imports: Vec<ImportDecl>,
    /// Every identifier name that occurs in the file.
    pub identifiers: Vec<String>,
    /// The places the rewrite may rename or simplify, in the order they
    /// occur.
    pub sites: Vec<NameSite>,
}

/// A place in the source that the rewrite may change besides the tags.
#[derive(Clone, Debug)]
pub enum NameSite {
    /// An identifier, where it is declared or used, that refers to a binding
    /// made in a scope other than the top level (a parameter, a local
    /// variable, an inner function or class, ...).
    Binding { name: String, span: Span },
    /// A named specifier of a top-level import written `imported as local`.
    Specifier { imported: String, local: String, span: Span },
}

pub open spec fn site_span(s: NameSite) -> Span {
    match s {
        NameSite::Binding { span, .. } => span,
        NameSite::Specifier { span, .. } => span,
    }
}

/// One change the rewrite makes: the tag or the site with that index.
pub ghost enum Edit {
    Tag(int),
    Site(int),
}

/// The number of sites the rewrite changes: none where there is no tag to
/// rewrite, so that such a module is left as it is.
pub open spec fn site_count(m: ParsedModule) -> int {
    if m.tags@.len() > 0 {
        m.sites@.len() as int
    } else {
        0
    }
}

/// The changes from tag `i` and site `j` on, in the order they occur in the
/// source: tags and sites merged by their start.
pub open spec fn edits_from(m: ParsedModule, i: int, j: int) -> Seq<Edit>
    decreases m.tags@.len() - i + site_count(m) - j,
{
    if i < 0 || j < 0 || i > m.tags@.len() || j > site_count(m) {
        Seq::empty()
    } else if i == m.tags@.len() && j == site_count(m) {
        Seq::empty()
    } else if j == site_count(m) || (i < m.tags@.len() && m.tags@[i].span.lo <= site_span(
        m.sites@[j],
    ).lo) {
        seq![Edit::Tag(i)] + edits_from(m, i + 1, j)
    } else {
        seq![Edit::Site(j)] + edits_from(m, i, j + 1)
    }
}

/// All changes of the rewrite, in source order.
pub open spec fn edits(m: ParsedModule) -> Seq<Edit> {
    edits_from(m, 0, 0)
}

pub open spec fn edit_span(m: ParsedModule, e: Edit) -> Span {
    match e {
        Edit::Tag(i) => m.tags@[i].span,
        Edit::Site(j) => site_span(m.sites@[j]),
    }
}

/// The four spans of `t` lie on character boundaries of `src` and follow
/// each other: opening tag, content, closing tag, with nothing between.
pub open spec fn tag_wf(src: Seq<char>, t: TemplateTag) -> bool {
    &&& t.span.lo == t.opening.lo
    &&& t.opening.hi == t.contents.span.lo
    &&& t.contents.span.hi == t.closing.lo
    &&& t.closing.hi == t.span.hi
    &&& t.opening.lo <= t.opening.hi <= t.closing.lo <= t.closing.hi
    &&& is_boundary(src, t.opening.lo as int)
    &&& is_boundary(src, t.opening.hi as int)
    &&& is_boundary(src, t.closing.lo as int)
    &&& is_boundary(src, t.closing.hi as int)
}

/// The span of `s` lies on character boundaries of `src`.
pub open spec fn site_wf(src: Seq<char>, s: NameSite) -> bool {
    &&& site_span(s).lo <= site_span(s).hi
    &&& is_boundary(src, site_span(s).lo as int)
    &&& is_boundary(src, site_span(s).hi as int)
}

impl ParsedModule {
    /// Every tag and every site is well formed; each tag ends before the
    /// next begins, and so does each change of the rewrite; the names of
    /// nested bindings are among the file's identifiers.
    pub open spec fn wf(&self) -> bool {
        &&& forall|j: int| 0 <= j < self.sites@.len() ==> site_wf(self.src@, #[trigger] self.sites@[j])
        &&& forall|j: int|
            0 <= j < self.sites@.len() ==> (#[trigger] self.sites@[j] matches NameSite::Binding {
                name,
                ..
            } ==> exists|k: int| 0 <= k < self.identifiers@.len() && self.identifiers@[k]@ == name@)
        &&& forall|k: int|
            0 <= k < edits(*self).len() - 1 ==> #[trigger] edit_span(*self, edits(*self)[k]).hi
                <= edit_span(*self, edits(*self)[k + 1]).lo
        &&& forall|i: int| 0 <= i < self.tags@.len() ==> tag_wf(self.src@, #[trigger] self.tags@[i])
        &&& forall|i: int|
            0 <= i < self.tags@.len() - 1 ==> #[trigger] self.tags@[i].span.hi <= self.tags@[i
                + 1].span.lo
    }
}

} // verus!
