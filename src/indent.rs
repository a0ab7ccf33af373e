//! Removing the blank lines around a template and its common indentation.
use vstd::prelude::*;
use crate::text::{append_chars, chars_of, string_of};

verus! {

/// Unicode `White_Space`: the characters that `char::is_whitespace`, and so
/// `str::trim`, treat as whitespace.
pub open spec fn is_ws(c: char) -> bool {
    let u = c as u32;
    ||| 0x9 <= u <= 0xD
    ||| u == 0x20
    ||| u == 0x85
    ||| u == 0xA0
    ||| u == 0x1680
    ||| 0x2000 <= u <= 0x200A
    ||| u == 0x2028
    ||| u == 0x2029
    ||| u == 0x202F
    ||| u == 0x205F
    ||| u == 0x3000
}

/// A line that holds whitespace only (or nothing).
pub open spec fn is_blank(l: Seq<char>) -> bool {
    forall|i: int| 0 <= i < l.len() ==> is_ws(#[trigger] l[i])
}

/// `l` without one trailing carriage return, if it ends in one.
pub open spec fn strip_cr(l: Seq<char>) -> Seq<char> {
    if l.len() > 0 && l.last() == '\r' {
        l.drop_last()
    } else {
        l
    }
}

/// The lines of `s` ended so far, and the text of the line still open.
pub open spec fn lines_acc(s: Seq<char>) -> (Seq<Seq<char>>, Seq<char>)
    decreases s.len(),
{
    if s.len() == 0 {
        (Seq::empty(), Seq::empty())
    } else {
        let (done, cur) = lines_acc(s.drop_last());
        if s.last() == '\n' {
            (done.push(strip_cr(cur)), Seq::empty())
        } else {
            (done, cur.push(s.last()))
        }
    }
}

/// The lines of `s` as `str::lines` gives them: split at each `\n`, a `\r`
/// just before it dropped, and no empty line after a final `\n`.
pub open spec fn lines(s: Seq<char>) -> Seq<Seq<char>> {
    let (done, cur) = lines_acc(s);
    if cur.len() == 0 {
        done
    } else {
        done.push(cur)
    }
}

/// The lines joined with `\n` between each two.
pub open spec fn join(ls: Seq<Seq<char>>) -> Seq<char>
    decreases ls.len(),
{
    if ls.len() == 0 {
        Seq::empty()
    } else if ls.len() == 1 {
        ls[0]
    } else {
        join(ls.drop_last()) + seq!['\n'] + ls.last()
    }
}

/// Index of the first line that is not blank (`ls.len()` if there is none).
pub open spec fn first_content(ls: Seq<Seq<char>>) -> int
    decreases ls.len(),
{
    if ls.len() == 0 || !is_blank(ls[0]) {
        0
    } else {
        1 + first_content(ls.drop_first())
    }
}

/// One past the index of the last line that is not blank (0 if there is none).
pub open spec fn end_content(ls: Seq<Seq<char>>) -> int
    decreases ls.len(),
{
    if ls.len() == 0 {
        0
    } else if !is_blank(ls.last()) {
        ls.len() as int
    } else {
        end_content(ls.drop_last())
    }
}

pub open spec fn is_indent_char(c: char) -> bool {
    c == ' ' || c == '\t'
}

/// How many spaces and tabs `l` starts with.
pub open spec fn indent(l: Seq<char>) -> nat
    decreases l.len(),
{
    if l.len() > 0 && is_indent_char(l[0]) {
        1 + indent(l.drop_first())
    } else {
        0
    }
}

/// Whether the leading whitespace of `l` holds the character `c`.
pub open spec fn indent_has(l: Seq<char>, c: char) -> bool {
    exists|j: int| 0 <= j < indent(l) && l[j] == c
}

/// Whether the leading whitespace of some non-blank line holds `c`.
pub open spec fn any_indent_has(ls: Seq<Seq<char>>, c: char) -> bool {
    exists|i: int| 0 <= i < ls.len() && !is_blank(ls[i]) && #[trigger] indent_has(ls[i], c)
}

/// The least indentation among the lines that are not blank.
pub open spec fn min_indent(ls: Seq<Seq<char>>) -> Option<nat>
    decreases ls.len(),
{
    if ls.len() == 0 {
        None
    } else {
        let m = min_indent(ls.drop_last());
        if is_blank(ls.last()) {
            m
        } else {
            match m {
                None => Some(indent(ls.last())),
                Some(x) => Some(if x <= indent(ls.last()) { x } else { indent(ls.last()) }),
            }
        }
    }
}

/// A line after `n` characters of indentation were cut: a blank line becomes
/// empty.
pub open spec fn dedent_line(l: Seq<char>, n: nat) -> Seq<char> {
    if is_blank(l) {
        Seq::empty()
    } else {
        l.skip(n as int)
    }
}

/// The text of a template with the blank lines around it dropped and the
/// indentation common to its lines removed. Where the leading whitespace
/// mixes spaces and tabs, the lines are kept as they are.
pub open spec fn stripped(s: Seq<char>) -> Seq<char> {
    let ls = lines(s);
    let f = first_content(ls);
    let e = end_content(ls);
    if f >= e {
        Seq::empty()
    } else {
        let t = ls.subrange(f, e);
        let m = match min_indent(t) {
            Some(x) => x,
            None => 0,
        };
        if (any_indent_has(t, ' ') && any_indent_has(t, '\t')) || m == 0 {
            join(t)
        } else {
            join(t.map_values(|l: Seq<char>| dedent_line(l, m)))
        }
    }
}

pub open spec fn lines_view(v: Seq<Vec<char>>) -> Seq<Seq<char>> {
    v.map_values(|l: Vec<char>| l@)
}

proof fn lemma_first_content(ls: Seq<Seq<char>>, i: int)
    requires
        0 <= i <= ls.len(),
        forall|j: int| 0 <= j < i ==> is_blank(#[trigger] ls[j]),
        i == ls.len() || !is_blank(ls[i]),
    ensures
        first_content(ls) == i,
    decreases i,
{
    if i > 0 {
        let d = ls.drop_first();
        assert forall|j: int| 0 <= j < i - 1 implies is_blank(#[trigger] d[j]) by {
            assert(d[j] == ls[j + 1]);
        }
        if i < ls.len() {
            assert(d[i - 1] == ls[i]);
        }
        assert(is_blank(ls[0]));
        lemma_first_content(d, i - 1);
    }
}

proof fn lemma_end_content(ls: Seq<Seq<char>>, j: int)
    requires
        0 <= j <= ls.len(),
        forall|k: int| j <= k < ls.len() ==> is_blank(#[trigger] ls[k]),
        j == 0 || !is_blank(ls[j - 1]),
    ensures
        end_content(ls) == j,
    decreases ls.len(),
{
    if ls.len() > 0 {
        let d = ls.drop_last();
        if j < ls.len() {
            assert(is_blank(ls[ls.len() - 1]));
            assert forall|k: int| j <= k < d.len() implies is_blank(#[trigger] d[k]) by {
                assert(d[k] == ls[k]);
            }
            if j > 0 {
                assert(d[j - 1] == ls[j - 1]);
            }
            lemma_end_content(d, j);
        }
    }
}

proof fn lemma_indent(l: Seq<char>, i: int)
    requires
        0 <= i <= l.len(),
        forall|j: int| 0 <= j < i ==> is_indent_char(#[trigger] l[j]),
        i == l.len() || !is_indent_char(l[i]),
    ensures
        indent(l) == i,
    decreases i,
{
    if i > 0 {
        let d = l.drop_first();
        assert forall|j: int| 0 <= j < i - 1 implies is_indent_char(#[trigger] d[j]) by {
            assert(d[j] == l[j + 1]);
        }
        if i < l.len() {
            assert(d[i - 1] == l[i]);
        }
        assert(is_indent_char(l[0]));
        lemma_indent(d, i - 1);
    }
}

proof fn lemma_min_indent_bound(ls: Seq<Seq<char>>, i: int)
    requires
        0 <= i < ls.len(),
        !is_blank(ls[i]),
    ensures
        min_indent(ls) is Some,
        min_indent(ls)->0 <= indent(ls[i]),
    decreases ls.len(),
{
    let d = ls.drop_last();
    if i < ls.len() - 1 {
        assert(d[i] == ls[i]);
        lemma_min_indent_bound(d, i);
    }
}

proof fn lemma_join_push(ls: Seq<Seq<char>>, l: Seq<char>)
    ensures
        join(ls.push(l)) == if ls.len() == 0 {
            l
        } else {
            join(ls) + seq!['\n'] + l
        },
{
    assert(ls.push(l).drop_last() =~= ls);
}

/// Whether `c` is whitespace in the sense of `is_ws`.
pub fn is_whitespace(c: char) -> (r: bool)
    ensures
        r == is_ws(c),
{
    let u = c as u32;
    (0x9 <= u && u <= 0xD) || u == 0x20 || u == 0x85 || u == 0xA0 || u == 0x1680 || (0x2000 <= u
        && u <= 0x200A) || u == 0x2028 || u == 0x2029 || u == 0x202F || u == 0x205F || u == 0x3000
}

fn is_blank_line(l: &Vec<char>) -> (r: bool)
    ensures
        r == is_blank(l@),
{
    let mut i: usize = 0;
    while i < l.len()
        invariant
            i <= l@.len(),
            forall|j: int| 0 <= j < i ==> is_ws(#[trigger] l@[j]),
        decreases l@.len() - i,
    {
        if !is_whitespace(l[i]) {
            return false;
        }
        i = i + 1;
    }
    true
}

/// Counts the leading spaces and tabs of `l`, and says whether a space and
/// whether a tab stands among them.
fn leading_indent(l: &Vec<char>) -> (r: (usize, bool, bool))
    ensures
        r.0 == indent(l@),
        r.1 == indent_has(l@, ' '),
        r.2 == indent_has(l@, '\t'),
{
    let mut i: usize = 0;
    let mut spaces = false;
    let mut tabs = false;
    while i < l.len() && (l[i] == ' ' || l[i] == '\t')
        invariant
            i <= l@.len(),
            forall|j: int| 0 <= j < i ==> is_indent_char(#[trigger] l@[j]),
            spaces == exists|j: int| 0 <= j < i && l@[j] == ' ',
            tabs == exists|j: int| 0 <= j < i && l@[j] == '\t',
        decreases l@.len() - i,
    {
        if l[i] == ' ' {
            spaces = true;
        } else {
            tabs = true;
        }
        i = i + 1;
    }
    proof {
        lemma_indent(l@, i as int);
    }
    (i, spaces, tabs)
}

/// Splits `cs` into lines as `lines` does.
fn split_lines(cs: &Vec<char>) -> (r: Vec<Vec<char>>)
    ensures
        lines_view(r@) == lines(cs@),
{
    let mut done: Vec<Vec<char>> = Vec::new();
    let mut cur: Vec<char> = Vec::new();
    let mut i: usize = 0;
    while i < cs.len()
        invariant
            i <= cs@.len(),
            (lines_view(done@), cur@) == lines_acc(cs@.take(i as int)),
        decreases cs@.len() - i,
    {
        let c = cs[i];
        proof {
            assert(cs@.take(i + 1).drop_last() =~= cs@.take(i as int));
        }
        if c == '\n' {
            let ghost old_done = done@;
            let ghost old_cur = cur@;
            let mut line = cur;
            let n = line.len();
            if n > 0 && line[n - 1] == '\r' {
                line.pop();
            }
            proof {
                assert(line@ == strip_cr(cur@));
            }
            done.push(line);
            cur = Vec::new();
            proof {
                assert(lines_view(done@) =~= lines_view(old_done).push(strip_cr(old_cur)));
            }
        } else {
            cur.push(c);
        }
        i = i + 1;
    }
    proof {
        assert(cs@.take(cs@.len() as int) =~= cs@);
    }
    if cur.len() > 0 {
        done.push(cur);
    }
    done
}

/// Appends `l` to `out`, after a `\n` unless `first`.
fn push_line(out: &mut Vec<char>, l: &Vec<char>, first: bool)
    ensures
        final(out)@ == if first {
            old(out)@ + l@
        } else {
            old(out)@ + seq!['\n'] + l@
        },
{
    if !first {
        out.push('\n');
    }
    append_chars(out, l);
}

/// Strips the blank lines that open and close a template and the indentation
/// that all its other lines share. Where the leading whitespace of the lines
/// mixes spaces and tabs, only the blank lines around it are dropped.
pub fn strip_indent(input: &str) -> (r: String)
    ensures
        r@ == stripped(input@),
{
    let cs = chars_of(input);
    let ls = split_lines(&cs);
    let ghost sl = lines(input@);
    let n = ls.len();
    assert(n == sl.len());
    let mut f: usize = 0;
    while f < n && is_blank_line(&ls[f])
        invariant
            f <= n,
            n == ls@.len(),
            lines_view(ls@) == sl,
            forall|j: int| 0 <= j < f ==> is_blank(#[trigger] sl[j]),
        decreases n - f,
    {
        assert(sl[f as int] == ls@[f as int]@);
        f = f + 1;
    }
    if f < n {
        assert(sl[f as int] == ls@[f as int]@);
    }
    proof {
        lemma_first_content(sl, f as int);
    }
    if f == n {
        let empty: Vec<char> = Vec::new();
        proof {
            lemma_end_content(sl, 0);
            assert(empty@ =~= stripped(input@));
        }
        return string_of(&empty);
    }
    let mut e: usize = n;
    while is_blank_line(&ls[e - 1])
        invariant
            f < e <= n,
            n == ls@.len(),
            lines_view(ls@) == sl,
            !is_blank(sl[f as int]),
            forall|k: int| e <= k < n ==> is_blank(#[trigger] sl[k]),
        decreases e,
    {
        assert(sl[e - 1] == ls@[e - 1]@);
        e = e - 1;
    }
    assert(sl[e - 1] == ls@[e - 1]@);
    proof {
        lemma_end_content(sl, e as int);
    }
    let ghost t = sl.subrange(f as int, e as int);
    // The least indentation, and whether spaces and tabs both occur in it.
    let mut min: Option<usize> = None;
    let mut spaces = false;
    let mut tabs = false;
    let mut k: usize = f;
    while k < e
        invariant
            f <= k <= e <= n,
            n == ls@.len(),
            lines_view(ls@) == sl,
            t == sl.subrange(f as int, e as int),
            min == match min_indent(sl.subrange(f as int, k as int)) {
                Some(x) => Some(x as usize),
                None => None::<usize>,
            },
            forall|x: nat| min_indent(sl.subrange(f as int, k as int)) == Some(x) ==> x <= usize::MAX,
            spaces == exists|i: int|
                f <= i < k && !is_blank(sl[i]) && #[trigger] indent_has(sl[i], ' '),
            tabs == exists|i: int| f <= i < k && !is_blank(sl[i]) && #[trigger] indent_has(sl[i], '\t'),
        decreases e - k,
    {
        let l = &ls[k];
        assert(sl[k as int] == l@);
        proof {
            assert(sl.subrange(f as int, k + 1).drop_last() =~= sl.subrange(f as int, k as int));
        }
        if !is_blank_line(l) {
            let (c, s1, t1) = leading_indent(l);
            min = match min {
                None => Some(c),
                Some(x) => Some(if x <= c { x } else { c }),
            };
            spaces = spaces || s1;
            tabs = tabs || t1;
        }
        k = k + 1;
    }
    proof {
        assert(sl.subrange(f as int, k as int) == t);
        assert forall|c: char| (exists|i: int| f <= i < e && !is_blank(sl[i]) && #[trigger] indent_has(sl[i], c))
            == any_indent_has(t, c) by {
            if exists|i: int| f <= i < e && !is_blank(sl[i]) && #[trigger] indent_has(sl[i], c) {
                let i = choose|i: int| f <= i < e && !is_blank(sl[i]) && #[trigger] indent_has(sl[i], c);
                assert(t[i - f] == sl[i]);
            }
            if any_indent_has(t, c) {
                let i = choose|i: int| 0 <= i < t.len() && !is_blank(t[i]) && #[trigger] indent_has(t[i], c);
                assert(t[i] == sl[i + f]);
            }
        }
    }
    let m: usize = match min {
        Some(x) => x,
        None => 0,
    };
    let strip = !(spaces && tabs) && m > 0;
    let mut out: Vec<char> = Vec::new();
    let mut j: usize = f;
    while j < e
        invariant
            f <= j <= e <= n,
            n == ls@.len(),
            lines_view(ls@) == sl,
            t == sl.subrange(f as int, e as int),
            m as nat == match min_indent(t) {
                Some(x) => x,
                None => 0,
            },
            out@ == if strip {
                join(t.map_values(|l: Seq<char>| dedent_line(l, m as nat)).take(j - f))
            } else {
                join(t.take(j - f))
            },
        decreases e - j,
    {
        let l = &ls[j];
        assert(sl[j as int] == l@);
        assert(t[j - f] == l@);
        let ghost before = out@;
        if strip {
            let ghost d = t.map_values(|l: Seq<char>| dedent_line(l, m as nat));
            let mut piece: Vec<char> = Vec::new();
            if !is_blank_line(l) {
                proof {
                    lemma_min_indent_bound(t, j - f);
                    lemma_indent_len(l@);
                }
                let mut q: usize = m;
                while q < l.len()
                    invariant
                        m <= q <= l@.len(),
                        piece@ == l@.subrange(m as int, q as int),
                    decreases l@.len() - q,
                {
                    piece.push(l[q]);
                    q = q + 1;
                    proof {
                        assert(piece@ =~= l@.subrange(m as int, q as int));
                    }
                }
            }
            assert(piece@ =~= dedent_line(l@, m as nat));
            push_line(&mut out, &piece, j == f);
            proof {
                assert(d.take(j + 1 - f) =~= d.take(j - f).push(piece@));
                lemma_join_push(d.take(j - f), piece@);
            }
        } else {
            push_line(&mut out, l, j == f);
            proof {
                assert(t.take(j + 1 - f) =~= t.take(j - f).push(l@));
                lemma_join_push(t.take(j - f), l@);
            }
        }
        j = j + 1;
    }
    proof {
        assert(t.take(e - f) =~= t);
        assert(t.map_values(|l: Seq<char>| dedent_line(l, m as nat)).take(e - f) =~= t.map_values(
            |l: Seq<char>| dedent_line(l, m as nat),
        ));
    }
    string_of(&out)
}

proof fn lemma_indent_len(l: Seq<char>)
    ensures
        indent(l) <= l.len(),
    decreases l.len(),
{
    if l.len() > 0 && is_indent_char(l[0]) {
        lemma_indent_len(l.drop_first());
    }
}

/// Where the leading whitespace of the lines mixes spaces and tabs, the text
/// keeps its lines as they are, from the first non-blank one to the last.
pub proof fn lemma_mixed_indent_kept(s: Seq<char>)
    requires
        first_content(lines(s)) < end_content(lines(s)),
        any_indent_has(lines(s).subrange(first_content(lines(s)), end_content(lines(s))), ' '),
        any_indent_has(lines(s).subrange(first_content(lines(s)), end_content(lines(s))), '\t'),
    ensures
        stripped(s) == join(lines(s).subrange(first_content(lines(s)), end_content(lines(s)))),
{
}

} // verus!
