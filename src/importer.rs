//! Choosing the name under which the template helper is referred to in a
//! file, and the import declaration that brings it in.
//!
//! An import of the helper that the file already has is reused; a binding of
//! a nested scope that has the same name is renamed by the rewrite, so that
//! the calls reach the import. Otherwise the helper is imported anew, under
//! its own name where no identifier of the file has it, and under the first
//! free name `<name>1`, `<name>2`, ... where one does.
use vstd::prelude::*;
use crate::source::{ExportName, ImportDecl, ImportSpecifier, ParsedModule};
use crate::text::{append_chars, append_str, chars_of, string_of};
use vstd::string::{StrSliceExecFns, StringExecFns};

verus! {

/// The export that a specifier imports, if it is a named one.
pub open spec fn imported_name(s: ImportSpecifier) -> Option<Seq<char>> {
    match s {
        ImportSpecifier::Named { local, imported } => Some(
            match imported {
                Some(ExportName::Ident(i)) => i@,
                Some(ExportName::Str(v)) => v@,
                None => local@,
            },
        ),
        _ => None,
    }
}

pub open spec fn local_of(s: ImportSpecifier) -> Seq<char> {
    match s {
        ImportSpecifier::Named { local, .. } => local@,
        ImportSpecifier::Default { local } => local@,
        ImportSpecifier::Namespace { local } => local@,
    }
}

/// The local name of the first specifier that imports `name`.
pub open spec fn find_in_specifiers(ss: Seq<ImportSpecifier>, name: Seq<char>) -> Option<Seq<char>>
    decreases ss.len(),
{
    if ss.len() == 0 {
        None
    } else if imported_name(ss[0]) == Some(name) {
        Some(local_of(ss[0]))
    } else {
        find_in_specifiers(ss.drop_first(), name)
    }
}

/// The local name under which the first import from `module` that imports
/// `name` binds it.
pub open spec fn find_import(ds: Seq<ImportDecl>, module: Seq<char>, name: Seq<char>) -> Option<
    Seq<char>,
>
    decreases ds.len(),
{
    if ds.len() == 0 {
        None
    } else if ds[0].src@ == module && find_in_specifiers(ds[0].specifiers@, name) is Some {
        find_in_specifiers(ds[0].specifiers@, name)
    } else {
        find_import(ds.drop_first(), module, name)
    }
}

pub open spec fn is_taken(names: Seq<String>, n: Seq<char>) -> bool {
    exists|j: int| 0 <= j < names.len() && (#[trigger] names[j])@ == n
}

/// The decimal digit `d`.
pub open spec fn digit(d: nat) -> char {
    "0123456789"@[d as int]
}

/// The decimal numeral of `n`.
pub open spec fn decimal(n: nat) -> Seq<char>
    decreases n,
{
    if n < 10 {
        seq![digit(n)]
    } else {
        decimal(n / 10) + seq![digit(n % 10)]
    }
}

/// The `n`-th name tried for a fresh identifier: `base` itself, then `base`
/// followed by 1, 2, ...
pub open spec fn candidate(base: Seq<char>, n: nat) -> Seq<char> {
    if n == 0 {
        base
    } else {
        base + decimal(n)
    }
}

/// `r` is the first candidate name after `base` that none of `taken` has.
pub open spec fn first_free(taken: Seq<String>, base: Seq<char>, r: Seq<char>) -> bool {
    exists|n: nat|
        r == candidate(base, n) && !is_taken(taken, r) && forall|m: nat|
            m < n ==> is_taken(taken, #[trigger] candidate(base, m))
}

proof fn lemma_decimal_len(n: nat)
    ensures
        decimal(n).len() >= 1,
        n >= 10 ==> decimal(n).len() >= 2,
    decreases n,
{
    if n >= 10 {
        lemma_decimal_len(n / 10);
    }
}

proof fn lemma_digit_injective(a: nat, b: nat)
    requires
        a < 10,
        b < 10,
        digit(a) == digit(b),
    ensures
        a == b,
{
    reveal_strlit("0123456789");
    let s = "0123456789"@;
    assert(s =~= seq!['0', '1', '2', '3', '4', '5', '6', '7', '8', '9']);
}

proof fn lemma_decimal_injective(a: nat, b: nat)
    requires
        decimal(a) == decimal(b),
    ensures
        a == b,
    decreases a,
{
    lemma_decimal_len(a);
    lemma_decimal_len(b);
    if a < 10 && b < 10 {
        assert(decimal(a)[0] == digit(a));
        assert(decimal(b)[0] == digit(b));
        lemma_digit_injective(a, b);
    } else if a >= 10 && b >= 10 {
        lemma_decimal_len(a / 10);
        lemma_decimal_len(b / 10);
        let da = decimal(a);
        let db = decimal(b);
        assert(da.last() == digit(a % 10));
        assert(db.last() == digit(b % 10));
        lemma_digit_injective(a % 10, b % 10);
        assert(da.drop_last() =~= decimal(a / 10));
        assert(db.drop_last() =~= decimal(b / 10));
        lemma_decimal_injective(a / 10, b / 10);
        assert(a == 10 * (a / 10) + a % 10) by (nonlinear_arith);
        assert(b == 10 * (b / 10) + b % 10) by (nonlinear_arith);
    }
}

proof fn lemma_candidate_injective(base: Seq<char>, a: nat, b: nat)
    requires
        candidate(base, a) == candidate(base, b),
    ensures
        a == b,
{
    lemma_decimal_len(a);
    lemma_decimal_len(b);
    if a != 0 && b != 0 {
        assert(candidate(base, a).subrange(base.len() as int, candidate(base, a).len() as int) =~= decimal(a));
        assert(candidate(base, b).subrange(base.len() as int, candidate(base, b).len() as int) =~= decimal(b));
        lemma_decimal_injective(a, b);
    } else if a == 0 && b != 0 {
        assert(candidate(base, b).len() > base.len());
    } else if a != 0 && b == 0 {
        assert(candidate(base, a).len() > base.len());
    }
}

/// Among the first `taken.len() + 1` candidates one is free: they are all
/// different, and `taken` holds fewer names.
proof fn lemma_some_candidate_free(taken: Seq<String>, base: Seq<char>)
    ensures
        exists|n: nat| n <= taken.len() && !is_taken(taken, #[trigger] candidate(base, n)),
{
    if forall|n: nat| n <= taken.len() ==> is_taken(taken, #[trigger] candidate(base, n)) {
        let range = vstd::set_lib::set_int_range(0, taken.len() as int + 1);
        vstd::set_lib::lemma_int_range(0, taken.len() as int + 1);
        let f = |i: int| candidate(base, i as nat);
        let cands = range.map(f);
        assert(vstd::relations::injective_on(f, range)) by {
            assert forall|x: int, y: int| range.contains(x) && range.contains(y) && #[trigger] f(x) == #[trigger] f(y) implies x == y by {
                lemma_candidate_injective(base, x as nat, y as nat);
            }
        }
        vstd::set_lib::lemma_map_size(range, cands, f);
        let views = taken.map_values(|t: String| t@);
        views.lemma_cardinality_of_set();
        assert(cands.subset_of(views.to_set())) by {
            assert forall|c: Seq<char>| cands.contains(c) implies views.to_set().contains(c) by {
                let i = choose|i: int| range.contains(i) && f(i) == c;
                assert(is_taken(taken, candidate(base, i as nat)));
                let j = choose|j: int| 0 <= j < taken.len() && (#[trigger] taken[j])@ == candidate(base, i as nat);
                assert(views[j] == c);
            }
        }
        vstd::set_lib::lemma_len_subset(cands, views.to_set());
    }
}

/// Whether module `m` already imports the export `ts` of `tm`, so that the
/// import can be reused.
pub open spec fn reusable(m: ParsedModule, tm: Seq<char>, ts: Seq<char>) -> bool {
    find_import(m.imports@, tm, ts) is Some
}

/// `id` is a right name for the helper exported as `ts` by `tm` in module
/// `m`: the local name of the import to reuse, or else the first of `ts`,
/// `ts1`, `ts2`, ... that no identifier of the file has.
pub open spec fn binding_ok(m: ParsedModule, tm: Seq<char>, ts: Seq<char>, id: Seq<char>) -> bool {
    if reusable(m, tm, ts) {
        id == find_import(m.imports@, tm, ts)->0
    } else {
        first_free(m.identifiers@, ts, id)
    }
}

/// The text that stands for `c` between double quotes: a quote or a
/// backslash is escaped.
pub open spec fn quoted_char(c: char) -> Seq<char> {
    if c == '"' || c == '\\' {
        seq!['\\', c]
    } else {
        seq![c]
    }
}

/// The text of `s` between double quotes, with its quotes and backslashes
/// escaped.
pub open spec fn quoted_body(s: Seq<char>) -> Seq<char>
    decreases s.len(),
{
    if s.len() == 0 {
        Seq::empty()
    } else {
        quoted_body(s.drop_last()) + quoted_char(s.last())
    }
}

/// The declaration that imports the export `ts` of module `tm` under the
/// local name `id`, with the `as` left out where the two names agree.
pub open spec fn import_text(tm: Seq<char>, ts: Seq<char>, id: Seq<char>) -> Seq<char> {
    "import { "@ + ts + (if id == ts {
        Seq::empty()
    } else {
        " as "@ + id
    }) + " } from \""@ + quoted_body(tm) + "\";\n"@
}

fn find_in_decl(ss: &Vec<ImportSpecifier>, name: &String) -> (r: Option<String>)
    ensures
        match r {
            Some(l) => find_in_specifiers(ss@, name@) == Some(l@),
            None => find_in_specifiers(ss@, name@) is None,
        },
{
    let mut i: usize = 0;
    assert(ss@.skip(0) =~= ss@);
    while i < ss.len()
        invariant
            i <= ss@.len(),
            find_in_specifiers(ss@, name@) == find_in_specifiers(ss@.skip(i as int), name@),
        decreases ss@.len() - i,
    {
        proof {
            assert(ss@.skip(i as int).drop_first() =~= ss@.skip(i + 1));
            assert(ss@.skip(i as int)[0] == ss@[i as int]);
        }
        match &ss[i] {
            ImportSpecifier::Named { local, imported } => {
                let n: &String = match imported {
                    Some(ExportName::Ident(v)) => v,
                    Some(ExportName::Str(v)) => v,
                    None => local,
                };
                if *n == *name {
                    return Some(local.clone());
                }
            },
            _ => {},
        }
        i = i + 1;
    }
    None
}

/// The local name of an import of `target_specifier` from `target_module`
/// that the module already has, if any: the first in source order.
pub fn find_existing_import(module: &ParsedModule, target_module: &str, target_specifier: &str) -> (r:
    Option<String>)
    ensures
        match r {
            Some(l) => find_import(module.imports@, target_module@, target_specifier@) == Some(l@),
            None => find_import(module.imports@, target_module@, target_specifier@) is None,
        },
{
    let tm = String::from_str(target_module);
    let ts = String::from_str(target_specifier);
    let ds = &module.imports;
    let mut i: usize = 0;
    assert(ds@.skip(0) =~= ds@);
    while i < ds.len()
        invariant
            i <= ds@.len(),
            ds@ == module.imports@,
            tm@ == target_module@,
            ts@ == target_specifier@,
            find_import(ds@, tm@, ts@) == find_import(ds@.skip(i as int), tm@, ts@),
        decreases ds@.len() - i,
    {
        proof {
            assert(ds@.skip(i as int).drop_first() =~= ds@.skip(i + 1));
            assert(ds@.skip(i as int)[0] == ds@[i as int]);
        }
        let d = &ds[i];
        if d.src == tm {
            let found = find_in_decl(&d.specifiers, &ts);
            if found.is_some() {
                proof {
                    let sk = ds@.skip(i as int);
                    assert(sk[0] == *d);
                    assert(sk[0].src@ == tm@);
                    assert(find_in_specifiers(sk[0].specifiers@, ts@) is Some);
                    assert(find_import(sk, tm@, ts@) == find_in_specifiers(sk[0].specifiers@, ts@));

                }
                return found;
            }
        }
        i = i + 1;
    }
    None
}

/// Whether one of `names` is `n`.
pub fn contains_name(names: &Vec<String>, n: &String) -> (r: bool)
    ensures
        r == is_taken(names@, n@),
{
    let mut j: usize = 0;
    while j < names.len()
        invariant
            j <= names@.len(),
            forall|k: int| 0 <= k < j ==> (#[trigger] names@[k])@ != n@,
        decreases names@.len() - j,
    {
        if names[j] == *n {
            return true;
        }
        j = j + 1;
    }
    false
}

/// The decimal numeral of `n`.
pub fn decimal_of(n: usize) -> (r: Vec<char>)
    ensures
        r@ == decimal(n as nat),
    decreases n,
{
    let digits = "0123456789";
    proof {
        reveal_strlit("0123456789");
    }
    if n < 10 {
        let mut r: Vec<char> = Vec::new();
        r.push(digits.get_char(n));
        r
    } else {
        let mut r = decimal_of(n / 10);
        r.push(digits.get_char(n % 10));
        r
    }
}

/// The first of `base`, `base1`, `base2`, ... that is none of `taken`.
pub fn fresh_ident(base: &str, taken: &Vec<String>) -> (r: String)
    ensures
        first_free(taken@, base@, r@),
{
    let bc = chars_of(base);
    let mut n: usize = 0;
    proof {
        lemma_some_candidate_free(taken@, base@);
    }
    loop
        invariant
            bc@ == base@,
            n <= taken@.len(),
            forall|m: nat| m < n ==> is_taken(taken@, #[trigger] candidate(base@, m)),
            exists|k: nat| k <= taken@.len() && !is_taken(taken@, #[trigger] candidate(base@, k)),
        decreases taken@.len() - n,
    {
        let mut cand = bc.clone();
        if n > 0 {
            let digits = decimal_of(n);
            append_chars(&mut cand, &digits);
        }
        proof {
            assert(cand@ =~= candidate(base@, n as nat));
        }
        let s = string_of(&cand);
        if !contains_name(taken, &s) {
            return s;
        }
        if n == taken.len() {
            proof {
                let k = choose|k: nat| k <= taken@.len() && !is_taken(taken@, #[trigger] candidate(base@, k));
                if k < n {
                    assert(is_taken(taken@, candidate(base@, k)));
                }
            }
            return s;
        }
        n = n + 1;
    }
}

proof fn lemma_quoted_push(s: Seq<char>, c: char)
    ensures
        quoted_body(s.push(c)) == quoted_body(s) + quoted_char(c),
{
    assert(s.push(c).drop_last() =~= s);
}

fn push_quoted(out: &mut Vec<char>, s: &str)
    ensures
        final(out)@ == old(out)@ + quoted_body(s@),
{
    let cs = chars_of(s);
    let ghost start = out@;
    let mut i: usize = 0;
    while i < cs.len()
        invariant
            cs@ == s@,
            i <= cs@.len(),
            out@ == start + quoted_body(cs@.take(i as int)),
        decreases cs@.len() - i,
    {
        let c = cs[i];
        proof {
            assert(cs@.take(i + 1) =~= cs@.take(i as int).push(c));
            lemma_quoted_push(cs@.take(i as int), c);
        }
        if c == '"' || c == '\\' {
            out.push('\\');
        }
        out.push(c);
        i = i + 1;
        proof {
            assert(out@ =~= start + quoted_body(cs@.take(i as int)));
        }
    }
    proof {
        assert(cs@.take(cs@.len() as int) =~= cs@);
    }
}

/// Decides, for one module, how the helper is referred to, and adds its
/// import where one is needed.
pub struct Importer {
    pub target_module: String,
    pub target_specifier: String,
    pub id: String,
    pub need_insert: bool,
}

impl Importer {
    /// Picks the helper's name for `module`: the local name of an import of
    /// it that can be reused, or a name that no identifier of the file has.
    pub fn prepare(module: &ParsedModule, target_module: &str, target_specifier: &str) -> (r: Self)
        ensures
            r.target_module@ == target_module@,
            r.target_specifier@ == target_specifier@,
            binding_ok(*module, target_module@, target_specifier@, r.id@),
            r.need_insert == !reusable(*module, target_module@, target_specifier@),
    {
        let existing = find_existing_import(module, target_module, target_specifier);
        let (id, need_insert) = match existing {
            Some(l) => (l, false),
            None => (fresh_ident(target_specifier, &module.identifiers), true),
        };
        Importer {
            target_module: String::from_str(target_module),
            target_specifier: String::from_str(target_specifier),
            id,
            need_insert,
        }
    }

    pub fn id(&self) -> (r: &String)
        ensures
            r == &self.id,
    {
        &self.id
    }

    /// The import declaration to put at the top of the file: none where an
    /// existing import is reused or where no tag was rewritten.
    pub fn insert(&self, rewrote: bool) -> (r: String)
        ensures
            r@ == if self.need_insert && rewrote {
                import_text(self.target_module@, self.target_specifier@, self.id@)
            } else {
                Seq::empty()
            },
    {
        let mut out: Vec<char> = Vec::new();
        if self.need_insert && rewrote {
            append_str(&mut out, "import { ");
            append_str(&mut out, self.target_specifier.as_str());
            if self.id != self.target_specifier {
                append_str(&mut out, " as ");
                append_str(&mut out, self.id.as_str());
            }
            append_str(&mut out, " } from \"");
            push_quoted(&mut out, self.target_module.as_str());
            append_str(&mut out, "\";\n");
            proof {
                let ts = self.target_specifier@;
                let id = self.id@;
                assert(out@ =~= import_text(self.target_module@, ts, id));
            }
        } else {
            proof {
                assert(out@ =~= Seq::<char>::empty());
            }
        }
        string_of(&out)
    }
}

} // verus!
