//! The scope objects passed to the template helper beside the template text.
use vstd::prelude::*;
use crate::position::Span;
use crate::text::chars_of;

verus! {

/// The scope object of a template in an expression: it lets the template
/// evaluate names in the scope where it stands.
pub open spec fn scope_params_text() -> Seq<char> {
    "{ eval() { return eval(arguments[0]); } }"@
}

/// The scope object of a template in a class body: it also hands over the
/// class instance.
pub open spec fn scope_params_with_this_text() -> Seq<char> {
    "{ component: this, eval() { return eval(arguments[0]); } }"@
}

/// Generated text, attributed to a span of the source so that positions in
/// it map back there.
pub struct Snippet {
    pub text: Vec<char>,
    pub span: Span,
}

/// The scope object for a template in an expression, attributed to `span`.
pub fn scope_params(span: Span) -> (r: Snippet)
    ensures
        r.text@ == scope_params_text(),
        r.span == span,
{
    Snippet { text: chars_of("{ eval() { return eval(arguments[0]); } }"), span }
}

/// The scope object for a template in a class body, attributed to `span`.
pub fn scope_params_with_this(span: Span) -> (r: Snippet)
    ensures
        r.text@ == scope_params_with_this_text(),
        r.span == span,
{
    Snippet { text: chars_of("{ component: this, eval() { return eval(arguments[0]); } }"), span }
}

} // verus!
