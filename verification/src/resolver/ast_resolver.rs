//! Reference resolution: each raw constant reference is looked up against
//! the set of qualified definition names, walking the reference's lexical
//! nesting innermost-first, with `::`-rooted references looked up
//! absolutely. The resolved stream is ordered by begin line.

use crate::ast::constant::{clone_loc, nestings_view, Constant, ConstantView};
use crate::resolver::{ResolvedReference, ResolvedReferenceView};
use crate::strutil::{qualified_view, str_eq};
use vstd::prelude::*;
use vstd::string::StrSliceExecFns;

verus! {

broadcast use crate::seqview::group_dvs;

/// Whether some definition's qualified name is exactly `q`.
pub open spec fn defs_contain(defs: Seq<ConstantView>, q: Seq<char>) -> bool {
    exists|k: int|
        0 <= k < defs.len() && qualified_view(#[trigger] defs[k].scope, defs[k].name) == q
}

/// The position of the first candidate name that is defined, or `ns.len()`
/// when none is.
pub open spec fn first_match_idx(defs: Seq<ConstantView>, ns: Seq<Seq<char>>) -> int
    decreases ns.len(),
{
    if ns.len() == 0 {
        0
    } else if defs_contain(defs, ns[0]) {
        0
    } else {
        1 + first_match_idx(defs, ns.drop_first())
    }
}

pub proof fn lemma_first_match_idx(defs: Seq<ConstantView>, ns: Seq<Seq<char>>)
    ensures
        0 <= first_match_idx(defs, ns) <= ns.len(),
        first_match_idx(defs, ns) < ns.len() ==> defs_contain(defs, ns[first_match_idx(defs, ns)]),
        forall|k: int| 0 <= k < first_match_idx(defs, ns) ==> !defs_contain(defs, #[trigger] ns[k]),
    decreases ns.len(),
{
    if ns.len() == 0 {
    } else if defs_contain(defs, ns[0]) {
    } else {
        lemma_first_match_idx(defs, ns.drop_first());
        assert forall|k: int| 0 <= k < first_match_idx(defs, ns) implies !defs_contain(
            defs,
            #[trigger] ns[k],
        ) by {
            if k > 0 {
                assert(ns[k] == ns.drop_first()[k - 1]);
            }
        }
    }
}

/// The first nesting of `ns` that names a definition, if any.
pub open spec fn first_match(defs: Seq<ConstantView>, ns: Seq<Seq<char>>) -> Option<Seq<char>> {
    let i = first_match_idx(defs, ns);
    if i < ns.len() {
        Some(ns[i])
    } else {
        None
    }
}

/// Where one raw reference resolves to: a `::`-rooted name is looked up
/// absolutely with the leading `::` stripped; any other name is searched
/// through its nestings, innermost scope first. A reference matching no
/// definition resolves nowhere.
pub open spec fn resolve_one(defs: Seq<ConstantView>, r: ConstantView) -> Option<
    ResolvedReferenceView,
> {
    if r.name.len() >= 2 && r.name[0] == ':' && r.name[1] == ':' {
        if defs_contain(defs, r.name.skip(2)) {
            Some(ResolvedReferenceView { name: r.name.skip(2), loc: r.loc })
        } else {
            None
        }
    } else {
        match first_match(defs, nestings_view(r.scope, r.name)) {
            Some(n) => Some(ResolvedReferenceView { name: n, loc: r.loc }),
            None => None,
        }
    }
}

/// Inserts `x` behind every element whose begin line is at most `x`'s:
/// insertion keeps equal lines in arrival order.
pub open spec fn insert_by_line(s: Seq<ResolvedReferenceView>, x: ResolvedReferenceView) -> Seq<
    ResolvedReferenceView,
>
    decreases s.len(),
{
    if s.len() == 0 {
        seq![x]
    } else if s.last().loc.begin.line <= x.loc.begin.line {
        s.push(x)
    } else {
        insert_by_line(s.drop_last(), x).push(s.last())
    }
}

/// The stable sort by begin line, defined by repeated insertion.
pub open spec fn sort_by_line(s: Seq<ResolvedReferenceView>) -> Seq<ResolvedReferenceView>
    decreases s.len(),
{
    if s.len() == 0 {
        Seq::empty()
    } else {
        insert_by_line(sort_by_line(s.drop_last()), s.last())
    }
}

/// What resolution returns for given definitions and references: every
/// reference that resolves, in ascending order of begin line, references
/// on one line staying in input order.
pub open spec fn resolve_view(defs: Seq<ConstantView>, refs: Seq<ConstantView>) -> Seq<
    ResolvedReferenceView,
> {
    sort_by_line(refs.filter_map(|r: ConstantView| resolve_one(defs, r)))
}

/// Whether the qualified name of some definition equals `q`.
fn contains_def(definitions: &Vec<Constant>, q: &str) -> (r: bool)
    ensures
        r == defs_contain(definitions.deep_view(), q@),
{
    let ghost ddv = definitions.deep_view();
    let mut i: usize = 0;
    while i < definitions.len()
        invariant
            ddv == definitions.deep_view(),
            i <= definitions.len(),
            forall|k: int|
                0 <= k < i ==> qualified_view(#[trigger] ddv[k].scope, ddv[k].name) != q@,
        decreases definitions.len() - i,
    {
        let qi = definitions[i].qualified();
        if str_eq(qi.as_str(), q) {
            proof {
                assert(qualified_view(ddv[i as int].scope, ddv[i as int].name) == q@);
            }
            return true;
        }
        i = i + 1;
    }
    false
}

/// Resolves one raw reference, or drops it.
fn resolve_reference(definitions: &Vec<Constant>, reference: &Constant) -> (r: Option<
    ResolvedReference,
>)
    ensures
        r.deep_view() == resolve_one(definitions.deep_view(), reference.deep_view()),
{
    let ghost ddv = definitions.deep_view();
    let name = reference.name.as_str();
    let nlen = name.unicode_len();
    if nlen >= 2 && name.get_char(0) == ':' && name.get_char(1) == ':' {
        let q = name.substring_char(2, nlen).to_owned();
        proof {
            assert(q@ =~= reference.name@.skip(2));
        }
        if contains_def(definitions, q.as_str()) {
            Some(ResolvedReference { name: q, loc: clone_loc(&reference.loc) })
        } else {
            None
        }
    } else {
        let ns = reference.nestings();
        let ghost nsdv = ns.deep_view();
        proof {
            assert(nsdv == nestings_view(
                reference.deep_view().scope,
                reference.deep_view().name,
            ));
            lemma_first_match_idx(ddv, nsdv);
        }
        let ghost fmi = first_match_idx(ddv, nsdv);
        let mut j: usize = 0;
        while j < ns.len()
            invariant
                ddv == definitions.deep_view(),
                nsdv == ns.deep_view(),
                nsdv == nestings_view(reference.deep_view().scope, reference.deep_view().name),
                !(reference.deep_view().name.len() >= 2 && reference.deep_view().name[0] == ':'
                    && reference.deep_view().name[1] == ':'),
                j <= ns.len(),
                nsdv.len() == ns.len(),
                0 <= fmi <= nsdv.len(),
                fmi == first_match_idx(ddv, nsdv),
                fmi < nsdv.len() ==> defs_contain(ddv, nsdv[fmi]),
                forall|k: int| 0 <= k < fmi ==> !defs_contain(ddv, #[trigger] nsdv[k]),
                forall|k: int| 0 <= k < j ==> !defs_contain(ddv, #[trigger] nsdv[k]),
            decreases ns.len() - j,
        {
            if contains_def(definitions, ns[j].as_str()) {
                proof {
                    assert(defs_contain(ddv, nsdv[j as int]));
                    assert(fmi == j);
                }
                let out = ResolvedReference { name: ns[j].clone(), loc: clone_loc(&reference.loc) };
                proof {
                    let rv = reference.deep_view();
                    assert(nsdv == nestings_view(rv.scope, rv.name));
                    assert(first_match(ddv, nestings_view(rv.scope, rv.name)) == Some(
                        nsdv[j as int],
                    ));
                    assert(out.deep_view().name == nsdv[j as int]);
                    assert(out.deep_view() == ResolvedReferenceView {
                        name: nsdv[j as int],
                        loc: rv.loc,
                    });
                }
                return Some(out);
            }
            j = j + 1;
        }
        proof {
            if fmi < nsdv.len() {
                assert(!defs_contain(ddv, nsdv[fmi]));
            }
        }
        None
    }
}

proof fn lemma_insert_by_line_at(s: Seq<ResolvedReferenceView>, x: ResolvedReferenceView, j: int)
    requires
        0 <= j <= s.len(),
        forall|k: int| j <= k < s.len() ==> (#[trigger] s[k]).loc.begin.line > x.loc.begin.line,
        j > 0 ==> s[j - 1].loc.begin.line <= x.loc.begin.line,
    ensures
        insert_by_line(s, x) =~= s.take(j).push(x) + s.skip(j),
    decreases s.len(),
{
    if s.len() == 0 {
    } else if s.last().loc.begin.line <= x.loc.begin.line {
        assert(j == s.len());
        assert(s.take(j) =~= s);
        assert(s.skip(j) =~= Seq::<ResolvedReferenceView>::empty());
    } else {
        assert(j < s.len());
        lemma_insert_by_line_at(s.drop_last(), x, j);
        assert(s.drop_last().take(j) =~= s.take(j));
        assert(s.drop_last().skip(j).push(s.last()) =~= s.skip(j));
    }
}

/// Resolves every reference against the definitions, dropping those that
/// match nothing, and returns them ordered by begin line.
pub fn resolve(definitions: &Vec<Constant>, references: &Vec<Constant>) -> (r: Vec<
    ResolvedReference,
>)
    ensures
        r.deep_view() == resolve_view(definitions.deep_view(), references.deep_view()),
{
    let ghost ddv = definitions.deep_view();
    let ghost rdv = references.deep_view();
    let ghost f = |c: ConstantView| resolve_one(ddv, c);
    let mut unsorted: Vec<ResolvedReference> = Vec::new();
    let mut i: usize = 0;
    while i < references.len()
        invariant
            ddv == definitions.deep_view(),
            rdv == references.deep_view(),
            i <= references.len(),
            f == (|c: ConstantView| resolve_one(ddv, c)),
            unsorted.deep_view() == rdv.take(i as int).filter_map(f),
        decreases references.len() - i,
    {
        let res = resolve_reference(definitions, &references[i]);
        proof {
            assert(rdv.take(i + 1).drop_last() =~= rdv.take(i as int));
            assert(rdv.take(i + 1).last() == rdv[i as int]);
        }
        match res {
            Some(rr) => {
                unsorted.push(rr);
                proof {
                    assert(unsorted.deep_view() =~= rdv.take(i + 1).filter_map(f));
                }
            },
            None => {
                proof {
                    assert(unsorted.deep_view() =~= rdv.take(i + 1).filter_map(f));
                }
            },
        }
        i = i + 1;
    }
    proof {
        assert(rdv.take(rdv.len() as int) =~= rdv);
    }
    let ghost udv = unsorted.deep_view();
    let mut out: Vec<ResolvedReference> = Vec::new();
    let mut i2: usize = 0;
    while i2 < unsorted.len()
        invariant
            udv == unsorted.deep_view(),
            i2 <= unsorted.len(),
            out.deep_view() == sort_by_line(udv.take(i2 as int)),
        decreases unsorted.len() - i2,
    {
        let x = crate::resolver::clone_resolved_reference(&unsorted[i2]);
        let mut j: usize = out.len();
        while j > 0 && out[j - 1].loc.begin.line > x.loc.begin.line
            invariant
                j <= out.len(),
                forall|k: int|
                    j <= k < out@.len() ==> (#[trigger] out@[k]).loc.begin.line
                        > x.loc.begin.line,
            decreases j,
        {
            j = j - 1;
        }
        proof {
            let odv = out.deep_view();
            assert forall|k: int| j <= k < odv.len() implies (#[trigger] odv[k]).loc.begin.line
                > x.deep_view().loc.begin.line by {
                assert(odv[k] == out@[k].deep_view());
            }
            lemma_insert_by_line_at(odv, x.deep_view(), j as int);
        }
        let ghost pre = out.deep_view();
        out.insert(j, x);
        proof {
            assert(out.deep_view() =~= pre.take(j as int).push(
                udv[i2 as int],
            ) + pre.skip(j as int));
            assert(out.deep_view() =~= insert_by_line(pre, udv[i2 as int]));
            assert(udv.take(i2 + 1).drop_last() =~= udv.take(i2 as int));
        }
        i2 = i2 + 1;
    }
    proof {
        assert(udv.take(udv.len() as int) =~= udv);
    }
    out
}

/// Ascending begin lines.
pub open spec fn ordered_by_line(s: Seq<ResolvedReferenceView>) -> bool {
    forall|i: int, j: int|
        0 <= i < j < s.len() ==> (#[trigger] s[i]).loc.begin.line <= (#[trigger] s[
            j
        ]).loc.begin.line
}

proof fn lemma_insert_by_line_contains(
    s: Seq<ResolvedReferenceView>,
    x: ResolvedReferenceView,
    y: ResolvedReferenceView,
)
    ensures
        insert_by_line(s, x).contains(y) == (s.contains(y) || y == x),
    decreases s.len(),
{
    broadcast use vstd::seq_lib::group_seq_properties;

    if s.len() == 0 {
        assert(insert_by_line(s, x) =~= seq![x]);
        assert(seq![x].contains(y) == (y == x)) by {
            if y == x {
                assert(seq![x][0] == y);
            }
        }
    } else if s.last().loc.begin.line <= x.loc.begin.line {
        assert(s.push(x).contains(y) == (s.contains(y) || y == x)) by {
            if s.push(x).contains(y) {
                let k = choose|k: int| 0 <= k < s.push(x).len() && s.push(x)[k] == y;
                if k < s.len() {
                    assert(s[k] == y);
                }
            }
            if s.contains(y) {
                let k = choose|k: int| 0 <= k < s.len() && s[k] == y;
                assert(s.push(x)[k] == y);
            }
            if y == x {
                assert(s.push(x)[s.len() as int] == y);
            }
        }
    } else {
        lemma_insert_by_line_contains(s.drop_last(), x, y);
        let inner = insert_by_line(s.drop_last(), x);
        assert(inner.push(s.last()).contains(y) == (inner.contains(y) || y == s.last())) by {
            if inner.push(s.last()).contains(y) {
                let k = choose|k: int|
                    0 <= k < inner.push(s.last()).len() && inner.push(s.last())[k] == y;
                if k < inner.len() {
                    assert(inner[k] == y);
                }
            }
            if inner.contains(y) {
                let k = choose|k: int| 0 <= k < inner.len() && inner[k] == y;
                assert(inner.push(s.last())[k] == y);
            }
            if y == s.last() {
                assert(inner.push(s.last())[inner.len() as int] == y);
            }
        }
        assert((s.contains(y) || y == x) == (s.drop_last().contains(y) || y == s.last() || y
            == x)) by {
            if s.contains(y) {
                let k = choose|k: int| 0 <= k < s.len() && s[k] == y;
                if k < s.len() - 1 {
                    assert(s.drop_last()[k] == y);
                }
            }
            if s.drop_last().contains(y) {
                let k = choose|k: int| 0 <= k < s.drop_last().len() && s.drop_last()[k] == y;
                assert(s[k] == y);
            }
            if y == s.last() {
                assert(s[s.len() - 1] == y);
            }
        }
    }
}

proof fn lemma_sort_by_line_contains(s: Seq<ResolvedReferenceView>, y: ResolvedReferenceView)
    ensures
        sort_by_line(s).contains(y) == s.contains(y),
    decreases s.len(),
{
    if s.len() == 0 {
        if s.contains(y) {
            let k = choose|k: int| 0 <= k < s.len() && s[k] == y;
        }
    } else {
        lemma_sort_by_line_contains(s.drop_last(), y);
        lemma_insert_by_line_contains(sort_by_line(s.drop_last()), s.last(), y);
        assert(s.contains(y) == (s.drop_last().contains(y) || y == s.last())) by {
            if s.contains(y) {
                let k = choose|k: int| 0 <= k < s.len() && s[k] == y;
                if k < s.len() - 1 {
                    assert(s.drop_last()[k] == y);
                }
            }
            if s.drop_last().contains(y) {
                let k = choose|k: int| 0 <= k < s.drop_last().len() && s.drop_last()[k] == y;
                assert(s[k] == y);
            }
            if y == s.last() {
                assert(s[s.len() - 1] == y);
            }
        }
    }
}

proof fn lemma_insert_by_line_ordered(s: Seq<ResolvedReferenceView>, x: ResolvedReferenceView)
    requires
        ordered_by_line(s),
    ensures
        ordered_by_line(insert_by_line(s, x)),
    decreases s.len(),
{
    if s.len() == 0 {
    } else if s.last().loc.begin.line <= x.loc.begin.line {
        let out = s.push(x);
        assert forall|i: int, j: int| 0 <= i < j < out.len() implies (#[trigger] out[
            i
        ]).loc.begin.line <= (#[trigger] out[j]).loc.begin.line by {
            if j < s.len() {
            } else {
                if i < s.len() - 1 {
                    assert(s[i].loc.begin.line <= s[s.len() - 1].loc.begin.line);
                }
            }
        }
    } else {
        let inner = insert_by_line(s.drop_last(), x);
        assert(ordered_by_line(s.drop_last())) by {
            assert forall|i: int, j: int| 0 <= i < j < s.drop_last().len() implies (
            #[trigger] s.drop_last()[i]).loc.begin.line <= (#[trigger] s.drop_last()[
                j
            ]).loc.begin.line by {
                assert(s[i].loc.begin.line <= s[j].loc.begin.line);
            }
        }
        lemma_insert_by_line_ordered(s.drop_last(), x);
        let out = inner.push(s.last());
        assert forall|i: int, j: int| 0 <= i < j < out.len() implies (#[trigger] out[
            i
        ]).loc.begin.line <= (#[trigger] out[j]).loc.begin.line by {
            if j < inner.len() {
            } else {
                assert(inner.contains(inner[i]));
                lemma_insert_by_line_contains(s.drop_last(), x, inner[i]);
                if s.drop_last().contains(inner[i]) {
                    let k = choose|k: int|
                        0 <= k < s.drop_last().len() && s.drop_last()[k] == inner[i];
                    assert(s[k].loc.begin.line <= s[s.len() - 1].loc.begin.line);
                }
            }
        }
    }
}

/// The resolver's output is ordered by begin line.
pub proof fn lemma_resolve_view_ordered(defs: Seq<ConstantView>, refs: Seq<ConstantView>)
    ensures
        ordered_by_line(resolve_view(defs, refs)),
{
    lemma_sort_by_line_ordered(refs.filter_map(|r: ConstantView| resolve_one(defs, r)));
}

proof fn lemma_sort_by_line_ordered(s: Seq<ResolvedReferenceView>)
    ensures
        ordered_by_line(sort_by_line(s)),
    decreases s.len(),
{
    if s.len() == 0 {
    } else {
        lemma_sort_by_line_ordered(s.drop_last());
        lemma_insert_by_line_ordered(sort_by_line(s.drop_last()), s.last());
    }
}

/// Every name the resolver emits is the qualified name of some
/// definition.
pub proof fn lemma_resolved_names_defined(
    defs: Seq<ConstantView>,
    refs: Seq<ConstantView>,
    i: int,
)
    requires
        0 <= i < resolve_view(defs, refs).len(),
    ensures
        defs_contain(defs, resolve_view(defs, refs)[i].name),
{
    broadcast use vstd::seq_lib::group_seq_properties;

    let f = |r: ConstantView| resolve_one(defs, r);
    let fm = refs.filter_map(f);
    let out = resolve_view(defs, refs);
    let v = out[i];
    assert(out.contains(v));
    lemma_sort_by_line_contains(fm, v);
    refs.lemma_filter_map_contains(f, v);
    let t = choose|t: ConstantView| refs.contains(t) && f(t) == Some(v);
    assert(resolve_one(defs, t) == Some(v));
    if t.name.len() >= 2 && t.name[0] == ':' && t.name[1] == ':' {
    } else {
        let ns = nestings_view(t.scope, t.name);
        lemma_first_match_idx(defs, ns);
    }
}

/// A `::`-rooted reference resolves to exactly the name behind the
/// leading `::`, or not at all; the lexical nesting is never searched.
pub proof fn lemma_rooted_reference(defs: Seq<ConstantView>, r: ConstantView)
    requires
        r.name.len() >= 2,
        r.name[0] == ':',
        r.name[1] == ':',
    ensures
        defs_contain(defs, r.name.skip(2)) ==> resolve_one(defs, r) == Some(
            ResolvedReferenceView { name: r.name.skip(2), loc: r.loc },
        ),
        !defs_contain(defs, r.name.skip(2)) ==> resolve_one(defs, r) is None,
{
}

/// Nesting search is strictly innermost-first: the resolved name is the
/// first candidate that is defined, and no earlier (deeper) candidate is.
pub proof fn lemma_innermost_first(defs: Seq<ConstantView>, r: ConstantView)
    requires
        !(r.name.len() >= 2 && r.name[0] == ':' && r.name[1] == ':'),
        resolve_one(defs, r) is Some,
    ensures
        ({
            let ns = nestings_view(r.scope, r.name);
            let j = first_match_idx(defs, ns);
            &&& 0 <= j < ns.len()
            &&& resolve_one(defs, r)->Some_0.name == ns[j]
            &&& defs_contain(defs, ns[j])
            &&& forall|k: int| 0 <= k < j ==> !defs_contain(defs, #[trigger] ns[k])
        }),
{
    let ns = nestings_view(r.scope, r.name);
    lemma_first_match_idx(defs, ns);
}

} // verus!
