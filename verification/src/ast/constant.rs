//! The constant model: a constant has an optional lexical scope (a
//! `::`-separated qualified name), a simple name, and a source location.
//! `qualified` and `nestings` define how a constant is named and how a
//! reference to it is searched for, innermost scope first.

use crate::strutil::{concat_sep, join_sep, lemma_join_push, qualified_view, sep, split_on_sep,
    split_sep};
use vstd::prelude::*;

verus! {

broadcast use crate::seqview::group_dvs;

/// A 1-based line/column position.
#[derive(Clone, Copy, Debug, PartialEq, Eq, Structural)]
pub struct CaretPos {
    pub line: usize,
    pub column: usize,
}

/// A source span inside a file, together with the project root the file
/// was found under.
#[derive(Clone, Debug)]
pub struct Loc {
    pub path: String,
    pub root_path: String,
    pub begin: CaretPos,
    pub end: CaretPos,
}

/// The mathematical value of a `Loc`.
pub ghost struct LocView {
    pub path: Seq<char>,
    pub root_path: Seq<char>,
    pub begin: CaretPos,
    pub end: CaretPos,
}

impl DeepView for Loc {
    type V = LocView;

    open spec fn deep_view(&self) -> LocView {
        LocView {
            path: self.path@,
            root_path: self.root_path@,
            begin: self.begin,
            end: self.end,
        }
    }
}

/// A raw constant occurrence: definition or reference, before resolution.
#[derive(Clone, Debug)]
pub struct Constant {
    pub scope: Option<String>,
    pub name: String,
    pub loc: Loc,
}

/// The mathematical value of a `Constant`.
pub ghost struct ConstantView {
    pub scope: Option<Seq<char>>,
    pub name: Seq<char>,
    pub loc: LocView,
}

impl DeepView for Constant {
    type V = ConstantView;

    open spec fn deep_view(&self) -> ConstantView {
        ConstantView { scope: self.scope.deep_view(), name: self.name@, loc: self.loc.deep_view() }
    }
}

/// An exact copy of a location.
pub fn clone_loc(l: &Loc) -> (r: Loc)
    ensures
        r.deep_view() == l.deep_view(),
{
    Loc { path: l.path.clone(), root_path: l.root_path.clone(), begin: l.begin, end: l.end }
}

/// An exact copy of a constant.
pub fn clone_constant(c: &Constant) -> (r: Constant)
    ensures
        r.deep_view() == c.deep_view(),
{
    let scope = match &c.scope {
        Some(s) => Some(s.clone()),
        None => None,
    };
    Constant { scope, name: c.name.clone(), loc: clone_loc(&c.loc) }
}

/// The qualified name of a constant: `scope::name`, or the bare name when
/// there is no scope.
pub fn qualified(scope: &Option<String>, name: &str) -> (r: String)
    ensures
        r@ == qualified_view(scope.deep_view(), name@),
{
    match scope {
        Some(scope) => concat_sep(scope.as_str(), name),
        None => name.to_owned(),
    }
}

/// The candidate fully-qualified names of a constant occurrence, walking
/// its scope from innermost outward and ending with the bare name.
pub open spec fn nestings_view(scope: Option<Seq<char>>, name: Seq<char>) -> Seq<Seq<char>> {
    match scope {
        Some(sc) => {
            let parts = split_sep(sc);
            Seq::new(parts.len() + 1, |j: int| join_sep(parts.take(parts.len() - j).push(name)))
        },
        None => seq![name],
    }
}

impl Constant {
    /// The qualified name of this constant.
    pub fn qualified(&self) -> (r: String)
        ensures
            r@ == qualified_view(self.scope.deep_view(), self.name@),
    {
        qualified(&self.scope, self.name.as_str())
    }

    /// The reference-resolution search order for this constant: each
    /// enclosing scope from innermost outward, then the bare name.
    pub fn nestings(&self) -> (r: Vec<String>)
        ensures
            r.deep_view() =~= nestings_view(self.scope.deep_view(), self.name@),
    {
        let ghost nv = nestings_view(self.scope.deep_view(), self.name@);
        let mut r: Vec<String> = Vec::new();
        match &self.scope {
            None => {
                r.push(self.name.clone());
                proof {
                    assert(r.deep_view() =~= nv);
                }
            },
            Some(sc) => {
                let parts = split_on_sep(sc.as_str());
                let m = parts.len();
                let mut j: usize = 0;
                while j < m
                    invariant
                        m == parts.len(),
                        parts.deep_view() == split_sep(sc@),
                        nv == nestings_view(self.scope.deep_view(), self.name@),
                        self.scope.deep_view() == Some(sc@),
                        nv.len() == m + 1,
                        j <= m,
                        r.deep_view() == nv.take(j as int),
                    decreases m - j,
                {
                    let t = m - j;
                    let mut items: Vec<String> = Vec::new();
                    let mut q: usize = 0;
                    while q < t
                        invariant
                            t <= m == parts.len(),
                            q <= t,
                            items.deep_view() == parts.deep_view().take(q as int),
                        decreases t - q,
                    {
                        items.push(parts[q].clone());
                        q = q + 1;
                    }
                    items.push(self.name.clone());
                    let s = crate::strutil::join_with_sep(&items);
                    proof {
                        assert(parts.deep_view().take(t as int) == split_sep(sc@).take(t as int));
                        assert(nv[j as int] == join_sep(
                            split_sep(sc@).take(t as int).push(self.name@),
                        ));
                    }
                    r.push(s);
                    j = j + 1;
                }
                r.push(self.name.clone());
                proof {
                    let ghost parts_v = split_sep(sc@);
                    assert(nv[m as int] == join_sep(parts_v.take(0).push(self.name@)));
                    assert(parts_v.take(0).push(self.name@) =~= seq![self.name@]);
                    assert(join_sep(seq![self.name@]) == self.name@);
                    assert(r.deep_view() == nv.take(m as int).push(nv[m as int]));
                    assert(nv.take(nv.len() as int) =~= nv);
                }
            },
        }
        r
    }
}

impl Loc {
    /// The location's file path relative to its project root.
    pub fn relative_path(&self) -> (r: String)
        ensures
            r@ == crate::pathutil::rel_path_view(self.path@, self.root_path@),
    {
        crate::pathutil::rel_path(self.path.as_str(), self.root_path.as_str())
    }
}

/// How one nesting level is added to a constant found inside a `class` or
/// `module` body whose own name is `parent`.
pub open spec fn nest_view(parent: Seq<char>, c: ConstantView) -> ConstantView {
    ConstantView {
        scope: match c.scope {
            Some(sc) => Some(parent + sep() + sc),
            None => Some(parent),
        },
        name: c.name,
        loc: c.loc,
    }
}

/// Prefixes the scope of every constant collected inside a class or module
/// body with the name of that class or module.
pub fn nest_constants(parent_name: &str, child_constants: Vec<Constant>) -> (r: Vec<Constant>)
    ensures
        r.deep_view() =~= child_constants.deep_view().map_values(
            |c: ConstantView| nest_view(parent_name@, c),
        ),
{
    let ghost f = |c: ConstantView| nest_view(parent_name@, c);
    let ghost cdv = child_constants.deep_view();
    let mut r: Vec<Constant> = Vec::new();
    let mut i: usize = 0;
    while i < child_constants.len()
        invariant
            i <= child_constants.len(),
            cdv == child_constants.deep_view(),
            r.deep_view() == cdv.take(i as int).map_values(f),
            f == (|c: ConstantView| nest_view(parent_name@, c)),
        decreases child_constants.len() - i,
    {
        let c = &child_constants[i];
        let scope = match &c.scope {
            Some(sc) => Some(concat_sep(parent_name, sc.as_str())),
            None => Some(parent_name.to_owned()),
        };
        r.push(Constant { scope, name: c.name.clone(), loc: clone_loc(&c.loc) });
        proof {
            assert(cdv.take(i + 1).map_values(f) =~= cdv.take(i as int).map_values(f).push(
                f(cdv[i as int]),
            ));
            assert(r.deep_view() =~= cdv.take(i + 1).map_values(f));
        }
        i = i + 1;
    }
    proof {
        assert(cdv.take(cdv.len() as int) =~= cdv);
    }
    r
}

/// The shape of the candidate list: one candidate per scope segment plus
/// the bare name; every candidate before the last ends in `::name`; the
/// last is the bare name; depth strictly decreases along the list.
pub proof fn lemma_nestings_shape(sc: Seq<char>, name: Seq<char>)
    ensures
        ({
            let ns = nestings_view(Some(sc), name);
            let parts = split_sep(sc);
            &&& ns.len() == parts.len() + 1
            &&& ns[ns.len() - 1] == name
            &&& forall|j: int|
                0 <= j < ns.len() - 1 ==> (#[trigger] ns[j]) =~= join_sep(
                    parts.take(parts.len() - j),
                ) + sep() + name
        }),
{
    let parts = split_sep(sc);
    let ns = nestings_view(Some(sc), name);
    assert(ns[parts.len() as int] == join_sep(parts.take(0).push(name)));
    assert(parts.take(0).push(name) =~= seq![name]);
    assert(join_sep(seq![name]) == name);
    assert forall|j: int| 0 <= j < ns.len() - 1 implies (#[trigger] ns[j]) =~= join_sep(
        parts.take(parts.len() - j),
    ) + sep() + name by {
        let t = parts.len() - j;
        lemma_join_push(parts.take(t), name);
        assert(ns[j] == join_sep(parts.take(t).push(name)));
        assert(parts.take(t).len() == t);
    }
}

} // verus!
