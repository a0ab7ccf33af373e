//! Reporting where the `<template>` tags of a file stand.
use vstd::prelude::*;
use crate::position::{Range, Span, lemma_boundary_unique, range_of};
use crate::source::{ParsedModule, TagContent, TagPosition, TemplateTag, tag_wf};
use vstd::string::StringExecFns;

verus! {

/// Whether a tag stands as an expression or as a class member.
#[derive(Clone, Copy, Debug, PartialEq, Eq, Structural)]
pub enum ContentTagKind {
    Expression,
    ClassMember,
}

/// One `<template>` tag, with its text and the ranges of its parts.
#[derive(Clone, Debug, PartialEq, Eq)]
pub struct Occurrence {
    pub kind: ContentTagKind,
    pub tag_name: String,
    pub contents: String,
    pub range: Range,
    /// The range of the opening `<template>`.
    pub start_range: Range,
    pub content_range: Range,
    /// The range of the closing `</template>`.
    pub end_range: Range,
}

/// The kind reported for a tag in the given position: a top-level statement
/// is an expression too.
pub open spec fn kind_of(p: TagPosition) -> ContentTagKind {
    match p {
        TagPosition::ClassMember => ContentTagKind::ClassMember,
        _ => ContentTagKind::Expression,
    }
}

/// `o` is the record of the tag `t` of the source `src`.
pub open spec fn occurrence_of(src: Seq<char>, t: TemplateTag, o: Occurrence) -> bool {
    &&& o.kind == kind_of(t.position)
    &&& o.tag_name@ == "template"@
    &&& o.contents@ == t.contents.value@
    &&& range_of(src, t.span, o.range)
    &&& range_of(src, t.opening, o.start_range)
    &&& range_of(src, t.contents.span, o.content_range)
    &&& range_of(src, t.closing, o.end_range)
}

/// `os` holds the records of the tags `ts` of `src`, one for one, in order.
pub open spec fn occurrences_of(src: Seq<char>, ts: Seq<TemplateTag>, os: Seq<Occurrence>) -> bool {
    &&& os.len() == ts.len()
    &&& forall|i: int| 0 <= i < ts.len() ==> occurrence_of(src, ts[i], #[trigger] os[i])
}

/// Collects the records of the tags of one source, in the order it meets
/// them.
#[derive(Debug)]
pub struct LocateContentTagVisitor {
    pub occurrences: Vec<Occurrence>,
    pub src: String,
}

impl LocateContentTagVisitor {
    pub fn new(src: &str) -> (r: Self)
        ensures
            r.src@ == src@,
            r.occurrences@.len() == 0,
    {
        LocateContentTagVisitor { occurrences: Vec::new(), src: String::from_str(src) }
    }

    fn add_occurrence(
        &mut self,
        kind: ContentTagKind,
        span: &Span,
        opening: &Span,
        contents: &TagContent,
        closing: &Span,
    )
        requires
            tag_wf(
                old(self).src@,
                TemplateTag {
                    position: TagPosition::Expression,
                    span: *span,
                    opening: *opening,
                    contents: *contents,
                    closing: *closing,
                },
            ),
        ensures
            final(self).src == old(self).src,
            final(self).occurrences@.len() == old(self).occurrences@.len() + 1,
            final(self).occurrences@.drop_last() == old(self).occurrences@,
            ({
                let o = final(self).occurrences@.last();
                let src = old(self).src@;
                &&& o.kind == kind
                &&& o.tag_name@ == "template"@
                &&& o.contents@ == contents.value@
                &&& range_of(src, *span, o.range)
                &&& range_of(src, *opening, o.start_range)
                &&& range_of(src, contents.span, o.content_range)
                &&& range_of(src, *closing, o.end_range)
            }),
    {
        let src = self.src.as_str();
        let occurrence = Occurrence {
            kind,
            tag_name: String::from_str("template"),
            contents: contents.value.clone(),
            range: Range::new(src, span),
            start_range: Range::new(src, opening),
            content_range: Range::new(src, &contents.span),
            end_range: Range::new(src, closing),
        };
        self.occurrences.push(occurrence);
        proof {
            assert(final(self).occurrences@.drop_last() =~= old(self).occurrences@);
        }
    }

    /// Records the tag `t`.
    pub fn visit_tag(&mut self, t: &TemplateTag)
        requires
            tag_wf(old(self).src@, *t),
        ensures
            final(self).src == old(self).src,
            final(self).occurrences@ == old(self).occurrences@.push(final(self).occurrences@.last()),
            occurrence_of(old(self).src@, *t, final(self).occurrences@.last()),
    {
        let kind = match t.position {
            TagPosition::ClassMember => ContentTagKind::ClassMember,
            _ => ContentTagKind::Expression,
        };
        self.add_occurrence(kind, &t.span, &t.opening, &t.contents, &t.closing);
        proof {
            assert(final(self).occurrences@ =~= old(self).occurrences@.push(final(self).occurrences@.last()));
        }
    }
}

/// The records of all tags of `module`, in document order.
pub fn locate(module: &ParsedModule) -> (r: Vec<Occurrence>)
    requires
        module.wf(),
    ensures
        occurrences_of(module.src@, module.tags@, r@),
{
    let mut visitor = LocateContentTagVisitor::new(module.src.as_str());
    let mut i: usize = 0;
    while i < module.tags.len()
        invariant
            module.wf(),
            visitor.src@ == module.src@,
            i <= module.tags@.len(),
            occurrences_of(module.src@, module.tags@.take(i as int), visitor.occurrences@),
        decreases module.tags@.len() - i,
    {
        assert(tag_wf(module.src@, module.tags@[i as int]));
        visitor.visit_tag(&module.tags[i]);
        i = i + 1;
        proof {
            assert forall|j: int| 0 <= j < i implies occurrence_of(module.src@, module.tags@.take(i as int)[j], #[trigger] visitor.occurrences@[j]) by {
                if j < i - 1 {
                    assert(module.tags@.take(i as int)[j] == module.tags@.take(i - 1)[j]);
                }
            }
        }
    }
    proof {
        assert(module.tags@.take(i as int) =~= module.tags@);
    }
    visitor.occurrences
}

/// Two ranges of one source that meet at the same byte meet at the same code
/// point too.
proof fn lemma_ranges_meet(src: Seq<char>, a: Span, ra: Range, b: Span, rb: Range)
    requires
        range_of(src, a, ra),
        range_of(src, b, rb),
        a.hi == b.lo,
    ensures
        ra.end_byte == rb.start_byte,
        ra.end_utf16_codepoint == rb.start_utf16_codepoint,
{
    lemma_boundary_unique(src, ra.end_utf16_codepoint as int, rb.start_utf16_codepoint as int);
}

/// The four ranges of every record fit together: the opening tag starts
/// where the whole tag starts, the content starts where the opening tag
/// ends, the closing tag starts where the content ends, and the whole tag
/// ends where the closing tag ends; in bytes, in code points and in UTF-16
/// code units alike.
pub proof fn lemma_ranges_fit(module: &ParsedModule, os: Seq<Occurrence>, i: int)
    requires
        module.wf(),
        occurrences_of(module.src@, module.tags@, os),
        0 <= i < os.len(),
    ensures
        os[i].start_range.start_byte == os[i].range.start_byte,
        os[i].start_range.end_byte == os[i].content_range.start_byte,
        os[i].content_range.end_byte == os[i].end_range.start_byte,
        os[i].end_range.end_byte == os[i].range.end_byte,
        os[i].start_range.start_utf16_codepoint == os[i].range.start_utf16_codepoint,
        os[i].start_range.end_utf16_codepoint == os[i].content_range.start_utf16_codepoint,
        os[i].content_range.end_utf16_codepoint == os[i].end_range.start_utf16_codepoint,
        os[i].end_range.end_utf16_codepoint == os[i].range.end_utf16_codepoint,
        os[i].start_range.start_utf16_unit == os[i].range.start_utf16_unit,
        os[i].start_range.end_utf16_unit == os[i].content_range.start_utf16_unit,
        os[i].content_range.end_utf16_unit == os[i].end_range.start_utf16_unit,
        os[i].end_range.end_utf16_unit == os[i].range.end_utf16_unit,
{
    let src = module.src@;
    let t = module.tags@[i];
    let o = os[i];
    assert(tag_wf(src, t));
    assert(occurrence_of(src, t, o));
    lemma_boundary_unique(src, o.start_range.start_utf16_codepoint as int, o.range.start_utf16_codepoint as int);
    lemma_ranges_meet(src, t.opening, o.start_range, t.contents.span, o.content_range);
    lemma_ranges_meet(src, t.contents.span, o.content_range, t.closing, o.end_range);
    lemma_boundary_unique(src, o.end_range.end_utf16_codepoint as int, o.range.end_utf16_codepoint as int);
}

} // verus!
