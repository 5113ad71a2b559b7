//! String helpers over `Seq<char>` views: equality, concatenation with the
//! `::` separator, splitting on `::`, joining with `::`, and lexicographic
//! ordering of strings.

use vstd::prelude::*;
use vstd::string::StrSliceExecFns;
use vstd::string::StringExecFns;

verus! {

broadcast use crate::seqview::group_dvs;

/// The scope separator of qualified constant names.
pub open spec fn sep() -> Seq<char> {
    seq![':', ':']
}

/// The qualified name formed from an optional scope and a simple name.
pub open spec fn qualified_view(scope: Option<Seq<char>>, name: Seq<char>) -> Seq<char> {
    match scope {
        Some(s) => s + sep() + name,
        None => name,
    }
}

/// True when the two-character separator `::` occurs in `s` starting at `i`.
pub open spec fn sep_at(s: Seq<char>, i: int) -> bool {
    0 <= i && i + 2 <= s.len() && s[i] == ':' && s[i + 1] == ':'
}

pub open spec fn has_sep(s: Seq<char>) -> bool {
    exists|i: int| sep_at(s, i)
}

/// Splitting on the separator, leftmost occurrence first; always yields at
/// least one (possibly empty) segment, as `str::split` does.
pub open spec fn split_sep(s: Seq<char>) -> Seq<Seq<char>>
    decreases s.len(),
{
    if s.len() >= 2 && s[0] == ':' && s[1] == ':' {
        seq![Seq::<char>::empty()] + split_sep(s.skip(2))
    } else if s.len() == 0 {
        seq![s]
    } else {
        let rest = split_sep(s.skip(1));
        seq![seq![s[0]] + rest[0]] + rest.drop_first()
    }
}

pub proof fn lemma_split_sep_len(s: Seq<char>)
    ensures
        split_sep(s).len() >= 1,
    decreases s.len(),
{
    if s.len() >= 2 && s[0] == ':' && s[1] == ':' {
    } else if s.len() == 0 {
    } else {
        lemma_split_sep_len(s.skip(1));
    }
}

pub proof fn lemma_split_no_sep(s: Seq<char>)
    requires
        !has_sep(s),
    ensures
        split_sep(s) =~= seq![s],
    decreases s.len(),
{
    if s.len() >= 2 && s[0] == ':' && s[1] == ':' {
        assert(sep_at(s, 0));
    } else if s.len() == 0 {
    } else {
        assert forall|i: int| !sep_at(s.skip(1), i) by {
            if sep_at(s.skip(1), i) {
                assert(sep_at(s, i + 1));
            }
        }
        lemma_split_no_sep(s.skip(1));
        assert(seq![s[0]] + s.skip(1) =~= s);
    }
}

pub proof fn lemma_split_first_sep(s: Seq<char>, k: int)
    requires
        sep_at(s, k),
        forall|j: int| 0 <= j < k ==> !((#[trigger] s[j]) == ':' && s[j + 1] == ':'),
    ensures
        split_sep(s) =~= seq![s.take(k)] + split_sep(s.skip(k + 2)),
    decreases k,
{
    if k == 0 {
        assert(s.take(0) =~= Seq::<char>::empty());
    } else {
        assert(!(s[0] == ':' && s[1] == ':'));
        let t = s.skip(1);
        assert(sep_at(t, k - 1));
        assert forall|j: int| 0 <= j < k - 1 implies !((#[trigger] t[j]) == ':' && t[j + 1] == ':') by {
            assert(t[j] == s[j + 1]);
            assert(t[j + 1] == s[j + 2]);
        }
        lemma_split_first_sep(t, k - 1);
        assert(t.skip(k + 1) =~= s.skip(k + 2));
        assert(seq![s[0]] + t.take(k - 1) =~= s.take(k));
        lemma_split_sep_len(s.skip(k + 2));
        assert((seq![t.take(k - 1)] + split_sep(t.skip(k + 1))).drop_first() =~= split_sep(
            s.skip(k + 2),
        ));
    }
}

/// Joining segments with the separator; inverse direction of `split_sep`.
pub open spec fn join_sep(parts: Seq<Seq<char>>) -> Seq<char>
    decreases parts.len(),
{
    if parts.len() == 0 {
        Seq::empty()
    } else if parts.len() == 1 {
        parts[0]
    } else {
        parts[0] + sep() + join_sep(parts.drop_first())
    }
}

pub proof fn lemma_join_push(parts: Seq<Seq<char>>, x: Seq<char>)
    ensures
        parts.len() == 0 ==> join_sep(parts.push(x)) == x,
        parts.len() > 0 ==> join_sep(parts.push(x)) =~= join_sep(parts) + sep() + x,
    decreases parts.len(),
{
    reveal_with_fuel(join_sep, 3);
    if parts.len() == 0 {
        assert(parts.push(x)[0] == x);
    } else if parts.len() == 1 {
        assert(parts.push(x).drop_first() =~= seq![x]);
    } else {
        lemma_join_push(parts.drop_first(), x);
        assert(parts.push(x).drop_first() =~= parts.drop_first().push(x));
        assert(join_sep(parts.push(x)) == parts[0] + sep() + join_sep(parts.drop_first().push(x)));
    }
}

/// Character-by-character string equality.
pub fn str_eq(a: &str, b: &str) -> (r: bool)
    ensures
        r == (a@ == b@),
{
    let alen = a.unicode_len();
    let blen = b.unicode_len();
    if alen != blen {
        return false;
    }
    let mut i: usize = 0;
    while i < alen
        invariant
            alen == a@.len(),
            blen == b@.len(),
            alen == blen,
            i <= alen,
            forall|j: int| 0 <= j < i ==> a@[j] == b@[j],
        decreases alen - i,
    {
        if a.get_char(i) != b.get_char(i) {
            return false;
        }
        i = i + 1;
    }
    proof {
        assert(a@ =~= b@);
    }
    true
}

/// Concatenation of `a`, the separator, and `b`.
pub fn concat_sep(a: &str, b: &str) -> (r: String)
    ensures
        r@ == a@ + sep() + b@,
{
    proof {
        reveal_strlit("::");
        assert("::"@ =~= sep());
    }
    let mut r = String::new();
    r.append(a);
    r.append("::");
    r.append(b);
    proof {
        assert(r@ =~= a@ + sep() + b@);
    }
    r
}

/// Splits `s` on each occurrence of the separator.
pub fn split_on_sep(s: &str) -> (r: Vec<String>)
    ensures
        r.deep_view() =~= split_sep(s@),
{
    let len = s.unicode_len();
    let mut r: Vec<String> = Vec::new();
    let mut st: usize = 0;
    let mut i: usize = 0;
    proof {
        assert(r.deep_view() =~= Seq::<Seq<char>>::empty());
        assert(s@.skip(0) =~= s@);
        assert(split_sep(s@) =~= r.deep_view() + split_sep(s@.skip(0)));
    }
    while len > 0 && i < len - 1
        invariant
            len == s@.len(),
            st <= i <= len,
            split_sep(s@) =~= r.deep_view() + split_sep(s@.skip(st as int)),
            forall|j: int| st <= j < i ==> !((#[trigger] s@[j]) == ':' && s@[j + 1] == ':'),
        decreases len - i,
    {
        if s.get_char(i) == ':' && s.get_char(i + 1) == ':' {
            let seg = s.substring_char(st, i).to_owned();
            proof {
                let t = s@.skip(st as int);
                assert(sep_at(t, i - st));
                assert forall|j: int| 0 <= j < i - st implies !((#[trigger] t[j]) == ':' && t[j + 1] == ':') by {
                    assert(t[j] == s@[j + st]);
                    assert(t[j + 1] == s@[j + st + 1]);
                }
                lemma_split_first_sep(t, i - st);
                assert(t.take(i - st) =~= s@.subrange(st as int, i as int));
                assert(t.skip(i - st + 2) =~= s@.skip(i as int + 2));
                assert((r.deep_view().push(seg@)) =~= r.deep_view() + seq![seg@]);
            }
            r.push(seg);
            proof {
                assert(split_sep(s@) =~= r.deep_view() + split_sep(s@.skip(i as int + 2)));
            }
            i = i + 2;
            st = i;
        } else {
            i = i + 1;
        }
    }
    let last = s.substring_char(st, len).to_owned();
    proof {
        let t = s@.skip(st as int);
        assert forall|j: int| !sep_at(t, j) by {
            if sep_at(t, j) {
                assert(s@[j + st] == ':' && s@[j + st + 1] == ':');
                assert(j + st < i);
            }
        }
        lemma_split_no_sep(t);
        assert(t =~= s@.subrange(st as int, len as int));
        assert((r.deep_view().push(last@)) =~= r.deep_view() + seq![last@]);
    }
    r.push(last);
    r
}

/// Joins `parts` with the separator.
pub fn join_with_sep(parts: &Vec<String>) -> (r: String)
    ensures
        r@ == join_sep(parts.deep_view()),
{
    proof {
        reveal_strlit("::");
        assert("::"@ =~= sep());
    }
    let mut r = String::new();
    let mut i: usize = 0;
    while i < parts.len()
        invariant
            i <= parts.len(),
            r@ == join_sep(parts.deep_view().take(i as int)),
            "::"@ =~= sep(),
        decreases parts.len() - i,
    {
        if i > 0 {
            r.append("::");
        }
        r.append(parts[i].as_str());
        proof {
            let pv = parts.deep_view();
            assert(pv.take(i as int).push(pv[i as int]) =~= pv.take(i + 1));
            lemma_join_push(pv.take(i as int), pv[i as int]);
        }
        i = i + 1;
    }
    proof {
        assert(parts.deep_view().take(parts.len() as int) =~= parts.deep_view());
    }
    r
}

/// Whether `name` occurs in `list`.
pub fn vec_contains_str(list: &Vec<String>, name: &str) -> (r: bool)
    ensures
        r == list.deep_view().contains(name@),
{
    let ghost lv = list.deep_view();
    let mut k: usize = 0;
    while k < list.len()
        invariant
            lv == list.deep_view(),
            k <= list.len(),
            forall|j: int| 0 <= j < k ==> lv[j] != name@,
        decreases list.len() - k,
    {
        if str_eq(list[k].as_str(), name) {
            proof {
                assert(lv[k as int] == name@);
            }
            return true;
        }
        k = k + 1;
    }
    false
}

/// Strict lexicographic order on strings by character code point; agrees
/// with the standard ordering on strings.
pub open spec fn lex_lt(a: Seq<char>, b: Seq<char>) -> bool
    decreases a.len(),
{
    if b.len() == 0 {
        false
    } else if a.len() == 0 {
        true
    } else if a[0] != b[0] {
        (a[0] as int) < (b[0] as int)
    } else {
        lex_lt(a.drop_first(), b.drop_first())
    }
}

pub proof fn lemma_lex_lt_connected(a: Seq<char>, b: Seq<char>)
    ensures
        lex_lt(a, b) || lex_lt(b, a) || a =~= b,
    decreases a.len(),
{
    if b.len() == 0 && a.len() == 0 {
        assert(a =~= b);
    } else if b.len() == 0 || a.len() == 0 {
    } else if a[0] != b[0] {
        assert((a[0] as int) != (b[0] as int));
    } else {
        lemma_lex_lt_connected(a.drop_first(), b.drop_first());
        if !lex_lt(a, b) && !lex_lt(b, a) {
            assert(a.drop_first() =~= b.drop_first());
            assert(a =~= seq![a[0]] + a.drop_first());
            assert(b =~= seq![b[0]] + b.drop_first());
        }
    }
}

pub proof fn lemma_lex_lt_irrefl(a: Seq<char>, b: Seq<char>)
    requires
        lex_lt(a, b),
    ensures
        !(a =~= b),
        !lex_lt(b, a),
    decreases a.len(),
{
    if b.len() == 0 {
    } else if a.len() == 0 {
    } else if a[0] != b[0] {
    } else {
        lemma_lex_lt_irrefl(a.drop_first(), b.drop_first());
        if a =~= b {
            assert(a.drop_first() =~= b.drop_first());
        }
    }
}

pub proof fn lemma_lex_lt_trans(a: Seq<char>, b: Seq<char>, c: Seq<char>)
    requires
        lex_lt(a, b),
        lex_lt(b, c),
    ensures
        lex_lt(a, c),
    decreases a.len(),
{
    if b.len() == 0 {
    } else if c.len() == 0 {
    } else if a.len() == 0 {
    } else if a[0] == b[0] && b[0] == c[0] {
        lemma_lex_lt_trans(a.drop_first(), b.drop_first(), c.drop_first());
    }
}

proof fn lemma_lex_lt_skip(a: Seq<char>, b: Seq<char>, i: int)
    requires
        0 <= i <= a.len(),
        i <= b.len(),
        forall|j: int| 0 <= j < i ==> a[j] == b[j],
    ensures
        lex_lt(a, b) == lex_lt(a.skip(i), b.skip(i)),
    decreases i,
{
    if i > 0 {
        if a.len() == 0 || b.len() == 0 {
        } else {
            assert(a[0] == b[0]);
            assert(a.drop_first() =~= a.skip(1));
            assert(b.drop_first() =~= b.skip(1));
            lemma_lex_lt_skip(a.skip(1), b.skip(1), i - 1);
            assert(a.skip(1).skip(i - 1) =~= a.skip(i));
            assert(b.skip(1).skip(i - 1) =~= b.skip(i));
        }
    } else {
        assert(a.skip(0) =~= a);
        assert(b.skip(0) =~= b);
    }
}

/// Decides the lexicographic order `lex_lt` on strings.
pub fn lex_less(a: &str, b: &str) -> (r: bool)
    ensures
        r == lex_lt(a@, b@),
{
    let alen = a.unicode_len();
    let blen = b.unicode_len();
    let mut i: usize = 0;
    loop
        invariant
            alen == a@.len(),
            blen == b@.len(),
            i <= alen,
            i <= blen,
            forall|j: int| 0 <= j < i ==> a@[j] == b@[j],
        decreases alen - i,
    {
        proof {
            lemma_lex_lt_skip(a@, b@, i as int);
        }
        if i >= blen {
            return false;
        }
        if i >= alen {
            return true;
        }
        let ca = a.get_char(i);
        let cb = b.get_char(i);
        if ca != cb {
            return (ca as u32) < (cb as u32);
        }
        proof {
            assert(a@[i as int] == b@[i as int]);
        }
        i = i + 1;
    }
}

} // verus!
