//! Package attribution: joins raw definitions and resolved references to
//! the package owning their file (deepest package root that is an
//! ancestor of the path), marks definitions public by the configured
//! public path, and drops ignored definitions.

use crate::ast::constant::{clone_loc, Constant, ConstantView, LocView};
use crate::files::{root_name, root_string, Package, PackageView};
use crate::pathutil::{ancestors_view, parent, path_starts_with, path_starts_with_view, rel_path,
    rel_path_view};
use crate::resolver::{ResolvedReference, ResolvedReferenceView};
use crate::strutil::{qualified_view, str_eq};
use vstd::prelude::*;

verus! {

broadcast use crate::seqview::group_dvs;

/// A definition attributed to its owning package.
#[derive(Clone, Debug)]
pub struct Definition {
    pub package: String,
    pub name: String,
    pub public: bool,
    pub loc: crate::ast::constant::Loc,
}

/// The mathematical value of a `Definition`.
pub ghost struct DefinitionView {
    pub package: Seq<char>,
    pub name: Seq<char>,
    pub public: bool,
    pub loc: LocView,
}

impl DeepView for Definition {
    type V = DefinitionView;

    open spec fn deep_view(&self) -> DefinitionView {
        DefinitionView {
            package: self.package@,
            name: self.name@,
            public: self.public,
            loc: self.loc.deep_view(),
        }
    }
}

/// A resolved reference attributed to the package it occurs in.
#[derive(Clone, Debug)]
pub struct Reference {
    pub package: String,
    pub name: String,
    pub loc: crate::ast::constant::Loc,
}

/// The mathematical value of a `Reference`.
pub ghost struct ReferenceView {
    pub package: Seq<char>,
    pub name: Seq<char>,
    pub loc: LocView,
}

impl DeepView for Reference {
    type V = ReferenceView;

    open spec fn deep_view(&self) -> ReferenceView {
        ReferenceView { package: self.package@, name: self.name@, loc: self.loc.deep_view() }
    }
}

/// An exact copy of a definition.
pub fn clone_definition(d: &Definition) -> (r: Definition)
    ensures
        r.deep_view() == d.deep_view(),
{
    Definition {
        package: d.package.clone(),
        name: d.name.clone(),
        public: d.public,
        loc: clone_loc(&d.loc),
    }
}

/// An exact copy of a reference.
pub fn clone_reference(r: &Reference) -> (c: Reference)
    ensures
        c.deep_view() == r.deep_view(),
{
    Reference { package: r.package.clone(), name: r.name.clone(), loc: clone_loc(&r.loc) }
}

/// The fully attributed project: the validator's input.
pub struct Project {
    pub packages: Vec<Package>,
    pub definitions: Vec<Definition>,
    pub references: Vec<Reference>,
}

/// The mathematical value of a `Project`.
pub ghost struct ProjectView {
    pub packages: Seq<PackageView>,
    pub definitions: Seq<DefinitionView>,
    pub references: Seq<ReferenceView>,
}

impl DeepView for Project {
    type V = ProjectView;

    open spec fn deep_view(&self) -> ProjectView {
        ProjectView {
            packages: self.packages.deep_view(),
            definitions: self.definitions.deep_view(),
            references: self.references.deep_view(),
        }
    }
}

/// The package whose root equals `root`; when several do, the latest in
/// the list wins, as a lookup table built by insertion would decide.
pub open spec fn pack_with_root(packages: Seq<PackageView>, root: Seq<char>) -> Option<PackageView>
    decreases packages.len(),
{
    if packages.len() == 0 {
        None
    } else if packages.last().root == root {
        Some(packages.last())
    } else {
        pack_with_root(packages.drop_last(), root)
    }
}

/// The first ancestor (deepest first) owned by a package decides the
/// owner.
pub open spec fn find_package_in_ancestors(
    packages: Seq<PackageView>,
    ancs: Seq<Seq<char>>,
) -> Option<PackageView>
    decreases ancs.len(),
{
    if ancs.len() == 0 {
        None
    } else {
        match pack_with_root(packages, ancs[0]) {
            Some(pk) => Some(pk),
            None => find_package_in_ancestors(packages, ancs.drop_first()),
        }
    }
}

/// The package owning a file path: the one rooted at the deepest ancestor
/// of the path that is a package root.
pub open spec fn find_package_view(packages: Seq<PackageView>, path: Seq<char>) -> Option<
    PackageView,
> {
    find_package_in_ancestors(packages, ancestors_view(path))
}

/// The root and name of a found package.
pub open spec fn opt_root_name(o: Option<PackageView>) -> Option<(Seq<char>, Seq<char>)> {
    match o {
        Some(pk) => Some((pk.root, pk.name)),
        None => None,
    }
}

/// Scans the package list, last entry first, for a root equal to `root`.
fn pack_index_with_root(packages: &Vec<Package>, root: &str) -> (r: Option<usize>)
    ensures
        match r {
            Some(i) => i < packages@.len() && pack_with_root(packages.deep_view(), root@) == Some(
                packages.deep_view()[i as int],
            ),
            None => pack_with_root(packages.deep_view(), root@) is None,
        },
{
    let ghost pkv = packages.deep_view();
    let mut i: usize = packages.len();
    proof {
        assert(pkv.take(pkv.len() as int) =~= pkv);
    }
    while i > 0
        invariant
            pkv == packages.deep_view(),
            i <= packages.len(),
            pack_with_root(pkv, root@) == pack_with_root(pkv.take(i as int), root@),
        decreases i,
    {
        proof {
            assert(pkv.take(i as int).drop_last() =~= pkv.take(i - 1));
            assert(pkv.take(i as int).last() == pkv[i - 1]);
        }
        if str_eq(packages[i - 1].root.as_str(), root) {
            return Some(i - 1);
        }
        i = i - 1;
    }
    proof {
        assert(pkv.take(0) =~= Seq::<PackageView>::empty());
    }
    None
}

/// Finds the owning package of `path`: walks the ancestors of `path`
/// from the deepest outward and returns the root and name of the first
/// package rooted at one of them.
pub fn find_package(path: &str, packages: &Vec<Package>) -> (r: Option<(String, String)>)
    ensures
        r.deep_view() == opt_root_name(find_package_view(packages.deep_view(), path@)),
{
    let ghost pkv = packages.deep_view();
    let mut cur: String = path.to_owned();
    loop
        invariant
            pkv == packages.deep_view(),
            find_package_in_ancestors(pkv, ancestors_view(path@)) == find_package_in_ancestors(
                pkv,
                ancestors_view(cur@),
            ),
        decreases cur@.len(),
    {
        proof {
            assert(ancestors_view(cur@)[0] == cur@);
        }
        match pack_index_with_root(packages, cur.as_str()) {
            Some(i) => {
                let pk = &packages[i];
                return Some((pk.root.clone(), pk.name.clone()));
            },
            None => {
            },
        }
        match parent(cur.as_str()) {
            Some(up) => {
                proof {
                    crate::pathutil::lemma_parent_shorter(cur@);
                    assert(ancestors_view(cur@).drop_first() =~= ancestors_view(up@));
                }
                cur = up;
            },
            None => {
                proof {
                    reveal_with_fuel(find_package_in_ancestors, 2);
                    assert(ancestors_view(cur@) =~= seq![cur@]);
                    assert(seq![cur@].drop_first() =~= Seq::<Seq<char>>::empty());
                }
                return None;
            },
        }
    }
}

/// How one definition is attributed: owner package (or the `root`
/// sentinel), qualified name, and the public flag from its path relative
/// to the package root.
pub open spec fn attr_definition(
    packages: Seq<PackageView>,
    public_path: Seq<char>,
    d: ConstantView,
) -> DefinitionView {
    match find_package_view(packages, d.loc.path) {
        Some(pk) => DefinitionView {
            package: pk.name,
            name: qualified_view(d.scope, d.name),
            public: path_starts_with_view(rel_path_view(d.loc.path, pk.root), public_path),
            loc: d.loc,
        },
        None => DefinitionView {
            package: root_name(),
            name: qualified_view(d.scope, d.name),
            public: false,
            loc: d.loc,
        },
    }
}

/// How one resolved reference is attributed.
pub open spec fn attr_reference(packages: Seq<PackageView>, r: ResolvedReferenceView) -> ReferenceView {
    ReferenceView {
        package: match find_package_view(packages, r.loc.path) {
            Some(pk) => pk.name,
            None => root_name(),
        },
        name: r.name,
        loc: r.loc,
    }
}

/// The definitions that survive the ignore list.
pub open spec fn kept_definitions(defs: Seq<ConstantView>, ignored: Seq<Seq<char>>) -> Seq<
    ConstantView,
> {
    defs.filter(|d: ConstantView| !ignored.contains(d.name))
}

/// Whether `name` appears in the list of ignored simple names.
fn is_ignored(ignore_constants: &Vec<String>, name: &str) -> (r: bool)
    ensures
        r == ignore_constants.deep_view().contains(name@),
{
    let ghost igv = ignore_constants.deep_view();
    let mut k: usize = 0;
    while k < ignore_constants.len()
        invariant
            igv == ignore_constants.deep_view(),
            k <= ignore_constants.len(),
            forall|j: int| 0 <= j < k ==> igv[j] != name@,
        decreases ignore_constants.len() - k,
    {
        if str_eq(ignore_constants[k].as_str(), name) {
            proof {
                assert(igv[k as int] == name@);
            }
            return true;
        }
        k = k + 1;
    }
    proof {
        assert forall|j: int| 0 <= j < igv.len() implies igv[j] != name@ by {}
    }
    false
}

/// Attributes every definition and reference to its owning package and
/// assembles the project. Definitions whose simple name is ignored are
/// dropped; references are kept unconditionally.
pub fn apply_package_metadata(
    definitions: Vec<Constant>,
    references: Vec<ResolvedReference>,
    packages: Vec<Package>,
    public_path: &str,
    ignore_constants: &Vec<String>,
) -> (r: Project)
    ensures
        r.packages == packages,
        r.definitions.deep_view() == kept_definitions(
            definitions.deep_view(),
            ignore_constants.deep_view(),
        ).map_values(
            |d: ConstantView| attr_definition(packages.deep_view(), public_path@, d),
        ),
        r.references.deep_view() == references.deep_view().map_values(
            |rr: ResolvedReferenceView| attr_reference(packages.deep_view(), rr),
        ),
{
    let ghost pkv = packages.deep_view();
    let ghost ddv = definitions.deep_view();
    let ghost rdv = references.deep_view();
    let ghost keep = |d: ConstantView| !ignore_constants.deep_view().contains(d.name);
    let ghost fd = |d: ConstantView| attr_definition(pkv, public_path@, d);
    let ghost fr = |rr: ResolvedReferenceView| attr_reference(pkv, rr);

    let mut defs_out: Vec<Definition> = Vec::new();
    let mut i: usize = 0;
    while i < definitions.len()
        invariant
            pkv == packages.deep_view(),
            ddv == definitions.deep_view(),
            i <= definitions.len(),
            keep == (|d: ConstantView| !ignore_constants.deep_view().contains(d.name)),
            fd == (|d: ConstantView| attr_definition(pkv, public_path@, d)),
            defs_out.deep_view() == ddv.take(i as int).filter(keep).map_values(fd),
        decreases definitions.len() - i,
    {
        let d = &definitions[i];
        proof {
            assert(ddv.take(i + 1).drop_last() =~= ddv.take(i as int));
            assert(ddv.take(i + 1).last() == ddv[i as int]);
            reveal(Seq::filter);
        }
        if !is_ignored(ignore_constants, d.name.as_str()) {
            let name = d.qualified();
            let (package, public) = match find_package(d.loc.path.as_str(), &packages) {
                Some((proot, pname)) => {
                    let relative = rel_path(d.loc.path.as_str(), proot.as_str());
                    (pname, path_starts_with(relative.as_str(), public_path))
                },
                None => (root_string(), false),
            };
            defs_out.push(Definition { package, name, public, loc: clone_loc(&d.loc) });
            proof {
                assert(ddv.take(i + 1).filter(keep) =~= ddv.take(i as int).filter(keep).push(
                    ddv[i as int],
                ));
                assert(ddv.take(i + 1).filter(keep).map_values(fd) =~= ddv.take(i as int).filter(
                    keep,
                ).map_values(fd).push(fd(ddv[i as int])));
                assert(defs_out.deep_view() =~= ddv.take(i + 1).filter(keep).map_values(fd));
            }
        } else {
            proof {
                assert(ddv.take(i + 1).filter(keep) =~= ddv.take(i as int).filter(keep));
            }
        }
        i = i + 1;
    }
    proof {
        assert(ddv.take(ddv.len() as int) =~= ddv);
    }

    let mut refs_out: Vec<Reference> = Vec::new();
    let mut k: usize = 0;
    while k < references.len()
        invariant
            pkv == packages.deep_view(),
            rdv == references.deep_view(),
            k <= references.len(),
            fr == (|rr: ResolvedReferenceView| attr_reference(pkv, rr)),
            refs_out.deep_view() == rdv.take(k as int).map_values(fr),
        decreases references.len() - k,
    {
        let rr = &references[k];
        let package = match find_package(rr.loc.path.as_str(), &packages) {
            Some((_proot, pname)) => pname,
            None => root_string(),
        };
        refs_out.push(Reference { package, name: rr.name.clone(), loc: clone_loc(&rr.loc) });
        proof {
            assert(rdv.take(k + 1).map_values(fr) =~= rdv.take(k as int).map_values(fr).push(
                fr(rdv[k as int]),
            ));
            assert(refs_out.deep_view() =~= rdv.take(k + 1).map_values(fr));
        }
        k = k + 1;
    }
    proof {
        assert(rdv.take(rdv.len() as int) =~= rdv);
    }

    Project { packages, definitions: defs_out, references: refs_out }
}

proof fn lemma_pack_with_root_member(packages: Seq<PackageView>, root: Seq<char>)
    ensures
        match pack_with_root(packages, root) {
            Some(pk) => packages.contains(pk) && pk.root == root,
            None => true,
        },
    decreases packages.len(),
{
    if packages.len() == 0 {
    } else if packages.last().root == root {
        assert(packages[packages.len() - 1] == packages.last());
    } else {
        lemma_pack_with_root_member(packages.drop_last(), root);
        if pack_with_root(packages.drop_last(), root) is Some {
            let pk = pack_with_root(packages.drop_last(), root)->Some_0;
            let k = choose|k: int|
                0 <= k < packages.drop_last().len() && packages.drop_last()[k] == pk;
            assert(packages[k] == pk);
        }
    }
}

proof fn lemma_find_in_ancestors_member(packages: Seq<PackageView>, ancs: Seq<Seq<char>>)
    ensures
        match find_package_in_ancestors(packages, ancs) {
            Some(pk) => packages.contains(pk),
            None => true,
        },
    decreases ancs.len(),
{
    if ancs.len() == 0 {
    } else {
        lemma_pack_with_root_member(packages, ancs[0]);
        match pack_with_root(packages, ancs[0]) {
            Some(_) => {},
            None => {
                lemma_find_in_ancestors_member(packages, ancs.drop_first());
            },
        }
    }
}

/// Every attributed definition's package is either the `root` sentinel
/// or the name of a supplied package.
pub proof fn lemma_attributed_definition_package_known(
    packages: Seq<PackageView>,
    public_path: Seq<char>,
    d: ConstantView,
)
    ensures
        attr_definition(packages, public_path, d).package == crate::files::root_name() || exists|
            k: int,
        | 0 <= k < packages.len() && (#[trigger] packages[k]).name == attr_definition(
            packages,
            public_path,
            d,
        ).package,
{
    lemma_find_in_ancestors_member(packages, crate::pathutil::ancestors_view(d.loc.path));
    match find_package_view(packages, d.loc.path) {
        Some(pk) => {
            let k = choose|k: int| 0 <= k < packages.len() && packages[k] == pk;
            assert(packages[k].name == pk.name);
        },
        None => {},
    }
}

/// Every attributed reference's package is either the `root` sentinel or
/// the name of a supplied package.
pub proof fn lemma_attributed_reference_package_known(
    packages: Seq<PackageView>,
    rr: ResolvedReferenceView,
)
    ensures
        attr_reference(packages, rr).package == crate::files::root_name() || exists|k: int|
            0 <= k < packages.len() && (#[trigger] packages[k]).name == attr_reference(
                packages,
                rr,
            ).package,
{
    lemma_find_in_ancestors_member(packages, crate::pathutil::ancestors_view(rr.loc.path));
    match find_package_view(packages, rr.loc.path) {
        Some(pk) => {
            let k = choose|k: int| 0 <= k < packages.len() && packages[k] == pk;
            assert(packages[k].name == pk.name);
        },
        None => {},
    }
}

} // verus!
