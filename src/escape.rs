//! Escaping template text for a backtick-delimited literal.
use vstd::prelude::*;
use crate::text::{chars_of, string_of};

verus! {

/// Whether `c` must be preceded by a backslash inside a backtick literal.
pub open spec fn needs_escape(c: char) -> bool {
    c == '\\' || c == '`' || c == '$'
}

/// The literal text that stands for the one character `c`.
pub open spec fn escape_char(c: char) -> Seq<char> {
    if needs_escape(c) {
        seq!['\\', c]
    } else {
        seq![c]
    }
}

/// `s` with a backslash put before every backslash, backtick and dollar sign.
pub open spec fn escape(s: Seq<char>) -> Seq<char>
    decreases s.len(),
{
    if s.len() == 0 {
        Seq::empty()
    } else {
        escape_char(s[0]) + escape(s.drop_first())
    }
}

/// What a backtick literal's raw text denotes once its escapes are read:
/// a backslash stands for the character after it.
pub open spec fn unescape(s: Seq<char>) -> Seq<char>
    decreases s.len(),
{
    if s.len() == 0 {
        Seq::empty()
    } else if s[0] == '\\' && s.len() >= 2 {
        seq![s[1]] + unescape(s.skip(2))
    } else {
        seq![s[0]] + unescape(s.drop_first())
    }
}

pub proof fn lemma_escape_concat(a: Seq<char>, b: Seq<char>)
    ensures
        escape(a + b) == escape(a) + escape(b),
    decreases a.len(),
{
    if a.len() == 0 {
        assert(a + b =~= b);
    } else {
        assert((a + b).drop_first() =~= a.drop_first() + b);
        lemma_escape_concat(a.drop_first(), b);
        assert(escape(a + b) =~= escape(a) + escape(b));
    }
}

/// Escaping can be undone: reading the escaped literal back gives the
/// original text, whatever it holds.
pub proof fn lemma_unescape_escape(s: Seq<char>)
    ensures
        unescape(escape(s)) == s,
    decreases s.len(),
{
    if s.len() == 0 {
        assert(escape(s) =~= Seq::<char>::empty());
    } else {
        let e = escape(s);
        let rest = escape(s.drop_first());
        lemma_unescape_escape(s.drop_first());
        if needs_escape(s[0]) {
            assert(e.skip(2) =~= rest);
            assert(e[0] == '\\');
            assert(unescape(e) =~= seq![s[0]] + unescape(rest));
        } else {
            assert(e.drop_first() =~= rest);
            assert(unescape(e) =~= seq![s[0]] + unescape(rest));
        }
        assert(seq![s[0]] + s.drop_first() =~= s);
    }
}

/// Escapes the backslashes, backticks and dollar signs of `input`, so that it
/// can stand between backticks as the raw text of a literal.
pub fn escape_template_literal(input: &str) -> (r: String)
    ensures
        r@ == escape(input@),
{
    let cs = chars_of(input);
    let mut out: Vec<char> = Vec::new();
    let mut i: usize = 0;
    while i < cs.len()
        invariant
            cs@ == input@,
            i <= cs@.len(),
            out@ == escape(cs@.take(i as int)),
        decreases cs@.len() - i,
    {
        let c = cs[i];
        proof {
            assert(cs@.take(i + 1) =~= cs@.take(i as int) + seq![c]);
            lemma_escape_concat(cs@.take(i as int), seq![c]);
            assert(seq![c].drop_first() =~= Seq::<char>::empty());
            assert(escape(Seq::<char>::empty()) =~= Seq::<char>::empty());
            assert(escape(seq![c]) =~= escape_char(c));
        }
        if c == '\\' || c == '`' || c == '$' {
            out.push('\\');
        }
        out.push(c);
        i = i + 1;
    }
    proof {
        assert(cs@.take(cs@.len() as int) =~= cs@);
    }
    string_of(&out)
}

} // verus!
