//! The boundary validator: applies the privacy and the dependency rule to
//! every reference of every package, and regroups the violations into the
//! per-package deprecation structure.

use crate::files::{root_name, Package, PackageView};
use crate::parser::{clone_definition, clone_reference, Definition, DefinitionView, Project,
    ProjectView, Reference, ReferenceView};
use crate::strutil::{lex_lt, sep, str_eq, vec_contains_str};
use vstd::prelude::*;
use vstd::string::StringExecFns;

verus! {

broadcast use crate::seqview::group_dvs;

/// The two kinds of boundary violation.
#[derive(Clone, Copy, Debug, PartialEq, Eq, Hash, Structural)]
pub enum ViolationType {
    Dependency,
    Privacy,
}

impl DeepView for ViolationType {
    type V = ViolationType;

    open spec fn deep_view(&self) -> ViolationType {
        *self
    }
}

/// One boundary violation: a reference in `violating_pack` reaching a
/// definition owned by `violated_pack` against that package's manifest.
#[derive(Clone, Debug)]
pub struct Violation {
    pub violation_type: ViolationType,
    pub violated_pack: String,
    pub violating_pack: String,
    pub definition: Definition,
    pub reference: Reference,
}

/// The mathematical value of a `Violation`.
pub ghost struct ViolationView {
    pub violation_type: ViolationType,
    pub violated_pack: Seq<char>,
    pub violating_pack: Seq<char>,
    pub definition: DefinitionView,
    pub reference: ReferenceView,
}

impl DeepView for Violation {
    type V = ViolationView;

    open spec fn deep_view(&self) -> ViolationView {
        ViolationView {
            violation_type: self.violation_type,
            violated_pack: self.violated_pack@,
            violating_pack: self.violating_pack@,
            definition: self.definition.deep_view(),
            reference: self.reference.deep_view(),
        }
    }
}

/// An exact copy of a violation.
pub fn clone_violation(v: &Violation) -> (c: Violation)
    ensures
        c.deep_view() == v.deep_view(),
{
    Violation {
        violation_type: v.violation_type,
        violated_pack: v.violated_pack.clone(),
        violating_pack: v.violating_pack.clone(),
        definition: clone_definition(&v.definition),
        reference: clone_reference(&v.reference),
    }
}

/// The package with the given name; when two packages share a name, the
/// latest in the list wins, as a lookup table built by insertion would.
pub open spec fn pack_by_name(packages: Seq<PackageView>, name: Seq<char>) -> Option<PackageView>
    decreases packages.len(),
{
    if packages.len() == 0 {
        None
    } else if packages.last().name == name {
        Some(packages.last())
    } else {
        pack_by_name(packages.drop_last(), name)
    }
}

/// All definitions carrying the qualified name `name`, in project order.
pub open spec fn defs_named(defs: Seq<DefinitionView>, name: Seq<char>) -> Seq<DefinitionView> {
    defs.filter(|d: DefinitionView| d.name == name)
}

/// All references made from inside the package `pack`, in project order.
pub open spec fn refs_in_pack(refs: Seq<ReferenceView>, pack: Seq<char>) -> Seq<ReferenceView> {
    refs.filter(|r: ReferenceView| r.package == pack)
}

/// Whether any definition of the group is public.
pub open spec fn any_public(defs: Seq<DefinitionView>) -> bool {
    exists|k: int| 0 <= k < defs.len() && (#[trigger] defs[k]).public
}

/// The privacy rule on one definition: it stands in another package,
/// that package enforces privacy, and the definition is not public.
pub open spec fn privacy_suspect(
    packages: Seq<PackageView>,
    pack_name: Seq<char>,
    d: DefinitionView,
) -> bool {
    &&& match pack_by_name(packages, d.package) {
        Some(q) => q.enforce_privacy,
        None => false,
    }
    &&& !d.public
    &&& d.package != pack_name
}

/// The privacy violations one reference of package `p` produces: none
/// when any definition of the referenced name is public anywhere.
pub open spec fn privacy_violations_for_ref(
    project: ProjectView,
    p: PackageView,
    r: ReferenceView,
) -> Seq<ViolationView> {
    let ds = defs_named(project.definitions, r.name);
    if any_public(ds) {
        Seq::empty()
    } else {
        ds.filter(|d: DefinitionView| privacy_suspect(project.packages, p.name, d)).map_values(
            |d: DefinitionView| ViolationView {
                violation_type: ViolationType::Privacy,
                violated_pack: d.package,
                violating_pack: p.name,
                definition: d,
                reference: r,
            },
        )
    }
}

/// The dependency rule on one definition: its package enforces
/// dependencies, stands apart from the referring package, and is not
/// among the referring package's declared dependencies. An absent
/// dependency list declares nothing.
pub open spec fn dependency_suspect(
    packages: Seq<PackageView>,
    p: PackageView,
    d: DefinitionView,
) -> bool {
    &&& match pack_by_name(packages, d.package) {
        Some(q) => q.enforce_dependencies,
        None => false,
    }
    &&& d.package != p.name
    &&& match p.dependencies {
        Some(l) => !l.contains(d.package),
        None => true,
    }
}

/// The dependency violations one reference of package `p` produces.
pub open spec fn dependency_violations_for_ref(
    project: ProjectView,
    p: PackageView,
    r: ReferenceView,
) -> Seq<ViolationView> {
    defs_named(project.definitions, r.name).filter(
        |d: DefinitionView| dependency_suspect(project.packages, p, d),
    ).map_values(
        |d: DefinitionView| ViolationView {
            violation_type: ViolationType::Dependency,
            violated_pack: d.package,
            violating_pack: p.name,
            definition: d,
            reference: r,
        },
    )
}

/// The concatenation of a sequence of sequences, in order.
pub open spec fn concat_seqs<A>(s: Seq<Seq<A>>) -> Seq<A>
    decreases s.len(),
{
    if s.len() == 0 {
        Seq::empty()
    } else {
        concat_seqs(s.drop_last()) + s.last()
    }
}

/// All privacy violations of one package, reference by reference.
pub open spec fn privacy_violations(project: ProjectView, p: PackageView) -> Seq<ViolationView> {
    concat_seqs(
        refs_in_pack(project.references, p.name).map_values(
            |r: ReferenceView| privacy_violations_for_ref(project, p, r),
        ),
    )
}

/// All dependency violations of one package, reference by reference.
pub open spec fn dependency_violations(project: ProjectView, p: PackageView) -> Seq<
    ViolationView,
> {
    concat_seqs(
        refs_in_pack(project.references, p.name).map_values(
            |r: ReferenceView| dependency_violations_for_ref(project, p, r),
        ),
    )
}

/// One package's violations: privacy first, then dependency.
pub open spec fn package_violations(project: ProjectView, p: PackageView) -> Seq<ViolationView> {
    privacy_violations(project, p) + dependency_violations(project, p)
}

/// What validation returns: each package's violations in package order,
/// with every violation against the pseudo-package `root` suppressed.
pub open spec fn validate_view(project: ProjectView) -> Seq<ViolationView> {
    concat_seqs(
        project.packages.map_values(|p: PackageView| package_violations(project, p)),
    ).filter(|v: ViolationView| v.violated_pack != root_name())
}

/// The index of the package with this name, scanning the latest entry
/// first.
fn package_index_by_name(packages: &Vec<Package>, name: &str) -> (r: Option<usize>)
    ensures
        match r {
            Some(i) => i < packages@.len() && pack_by_name(packages.deep_view(), name@) == Some(
                packages.deep_view()[i as int],
            ),
            None => pack_by_name(packages.deep_view(), name@) is None,
        },
{
    let ghost pkv = packages.deep_view();
    let mut i: usize = packages.len();
    proof {
        assert(pkv.take(pkv.len() as int) =~= pkv);
    }
    while i > 0
        invariant
            pkv == packages.deep_view(),
            i <= packages.len(),
            pack_by_name(pkv, name@) == pack_by_name(pkv.take(i as int), name@),
        decreases i,
    {
        proof {
            assert(pkv.take(i as int).drop_last() =~= pkv.take(i - 1));
            assert(pkv.take(i as int).last() == pkv[i - 1]);
        }
        if str_eq(packages[i - 1].name.as_str(), name) {
            return Some(i - 1);
        }
        i = i - 1;
    }
    proof {
        assert(pkv.take(0) =~= Seq::<PackageView>::empty());
    }
    None
}

/// Copies of all definitions with the given qualified name.
fn all_definitions_for(definitions: &Vec<Definition>, name: &str) -> (r: Vec<Definition>)
    ensures
        r.deep_view() == defs_named(definitions.deep_view(), name@),
{
    let ghost ddv = definitions.deep_view();
    let ghost pred = |d: DefinitionView| d.name == name@;
    let mut r: Vec<Definition> = Vec::new();
    let mut i: usize = 0;
    while i < definitions.len()
        invariant
            ddv == definitions.deep_view(),
            i <= definitions.len(),
            pred == (|d: DefinitionView| d.name == name@),
            r.deep_view() == ddv.take(i as int).filter(pred),
        decreases definitions.len() - i,
    {
        proof {
            assert(ddv.take(i + 1).drop_last() =~= ddv.take(i as int));
            assert(ddv.take(i + 1).last() == ddv[i as int]);
            reveal(Seq::filter);
        }
        if str_eq(definitions[i].name.as_str(), name) {
            r.push(clone_definition(&definitions[i]));
        }
        i = i + 1;
    }
    proof {
        assert(ddv.take(ddv.len() as int) =~= ddv);
    }
    r
}

/// Copies of all references attributed to the given package.
fn all_references_in_package(references: &Vec<Reference>, pack: &str) -> (r: Vec<Reference>)
    ensures
        r.deep_view() == refs_in_pack(references.deep_view(), pack@),
{
    let ghost rdv = references.deep_view();
    let ghost pred = |rr: ReferenceView| rr.package == pack@;
    let mut r: Vec<Reference> = Vec::new();
    let mut i: usize = 0;
    while i < references.len()
        invariant
            rdv == references.deep_view(),
            i <= references.len(),
            pred == (|rr: ReferenceView| rr.package == pack@),
            r.deep_view() == rdv.take(i as int).filter(pred),
        decreases references.len() - i,
    {
        proof {
            assert(rdv.take(i + 1).drop_last() =~= rdv.take(i as int));
            assert(rdv.take(i + 1).last() == rdv[i as int]);
            reveal(Seq::filter);
        }
        if str_eq(references[i].package.as_str(), pack) {
            r.push(clone_reference(&references[i]));
        }
        i = i + 1;
    }
    proof {
        assert(rdv.take(rdv.len() as int) =~= rdv);
    }
    r
}

/// Whether any of these definitions is public.
fn any_public_def(definitions: &Vec<Definition>) -> (r: bool)
    ensures
        r == any_public(definitions.deep_view()),
{
    let ghost ddv = definitions.deep_view();
    let mut i: usize = 0;
    while i < definitions.len()
        invariant
            ddv == definitions.deep_view(),
            i <= definitions.len(),
            forall|k: int| 0 <= k < i ==> !(#[trigger] ddv[k]).public,
        decreases definitions.len() - i,
    {
        if definitions[i].public {
            proof {
                assert(ddv[i as int].public);
            }
            return true;
        }
        i = i + 1;
    }
    false
}

/// The privacy check of one package: every reference from it, against
/// every non-public definition of the referenced name in an
/// enforce-privacy package elsewhere — unless some definition of that
/// name is public anywhere.
pub fn privacy_violation(package: &Package, project: &Project) -> (r: Vec<Violation>)
    ensures
        r.deep_view() == privacy_violations(project.deep_view(), package.deep_view()),
{
    let ghost pjv = project.deep_view();
    let ghost pv = package.deep_view();
    let ghost perref = |rr: ReferenceView| privacy_violations_for_ref(pjv, pv, rr);
    let refs = all_references_in_package(&project.references, package.name.as_str());
    let ghost refsdv = refs.deep_view();
    let mut out: Vec<Violation> = Vec::new();
    let mut i: usize = 0;
    while i < refs.len()
        invariant
            pjv == project.deep_view(),
            pv == package.deep_view(),
            refsdv == refs.deep_view(),
            i <= refs.len(),
            perref == (|rr: ReferenceView| privacy_violations_for_ref(pjv, pv, rr)),
            out.deep_view() == concat_seqs(refsdv.take(i as int).map_values(perref)),
        decreases refs.len() - i,
    {
        let r = &refs[i];
        let ds = all_definitions_for(&project.definitions, r.name.as_str());
        let ghost dsdv = ds.deep_view();
        let ghost suspect = |d: DefinitionView| privacy_suspect(pjv.packages, pv.name, d);
        let ghost mk = |d: DefinitionView| ViolationView {
            violation_type: ViolationType::Privacy,
            violated_pack: d.package,
            violating_pack: pv.name,
            definition: d,
            reference: refsdv[i as int],
        };
        let ghost pre = out.deep_view();
        if !any_public_def(&ds) {
            let mut k: usize = 0;
            while k < ds.len()
                invariant
                    pjv == project.deep_view(),
                    pv == package.deep_view(),
                    dsdv == ds.deep_view(),
                    k <= ds.len(),
                    i < refs@.len(),
                    refsdv == refs.deep_view(),
                    r.deep_view() == refsdv[i as int],
                    suspect == (|d: DefinitionView| privacy_suspect(pjv.packages, pv.name, d)),
                    mk == (|d: DefinitionView| ViolationView {
                        violation_type: ViolationType::Privacy,
                        violated_pack: d.package,
                        violating_pack: pv.name,
                        definition: d,
                        reference: refsdv[i as int],
                    }),
                    out.deep_view() == pre + dsdv.take(k as int).filter(suspect).map_values(mk),
                decreases ds.len() - k,
            {
                let d = &ds[k];
                proof {
                    assert(dsdv.take(k + 1).drop_last() =~= dsdv.take(k as int));
                    assert(dsdv.take(k + 1).last() == dsdv[k as int]);
                    reveal(Seq::filter);
                }
                let enforced = match package_index_by_name(&project.packages, d.package.as_str()) {
                    Some(pi) => project.packages[pi].enforce_privacy,
                    None => false,
                };
                if enforced && !d.public && !str_eq(d.package.as_str(), package.name.as_str()) {
                    let nv = Violation {
                        violation_type: ViolationType::Privacy,
                        violated_pack: d.package.clone(),
                        violating_pack: package.name.clone(),
                        definition: clone_definition(d),
                        reference: clone_reference(r),
                    };
                    proof {
                        assert(suspect(dsdv[k as int]));
                        assert(nv.deep_view() == mk(dsdv[k as int]));
                    }
                    out.push(nv);
                    proof {
                        let fm0 = dsdv.take(k as int).filter(suspect).map_values(mk);
                        assert(dsdv.take(k + 1).filter(suspect) =~= dsdv.take(k as int).filter(
                            suspect,
                        ).push(dsdv[k as int]));
                        assert(dsdv.take(k + 1).filter(suspect).map_values(mk) =~= fm0.push(
                            mk(dsdv[k as int]),
                        ));
                        assert((pre + fm0).push(mk(dsdv[k as int])) =~= pre + fm0.push(
                            mk(dsdv[k as int]),
                        ));
                        assert(out.deep_view() =~= pre + dsdv.take(k + 1).filter(
                            suspect,
                        ).map_values(mk));
                    }
                } else {
                    proof {
                        assert(!suspect(dsdv[k as int]));
                    }
                }
                k = k + 1;
            }
            proof {
                assert(dsdv.take(dsdv.len() as int) =~= dsdv);
                assert(dsdv == defs_named(pjv.definitions, refsdv[i as int].name));
                assert(perref(refsdv[i as int]) == dsdv.filter(suspect).map_values(mk));
                assert(out.deep_view() == pre + perref(refsdv[i as int]));
            }
        } else {
            proof {
                assert(dsdv == defs_named(pjv.definitions, refsdv[i as int].name));
                assert(perref(refsdv[i as int]) =~= Seq::<ViolationView>::empty());
                assert(out.deep_view() =~= pre + perref(refsdv[i as int]));
            }
        }
        proof {
            assert(refsdv.take(i + 1).map_values(perref).drop_last() =~= refsdv.take(
                i as int,
            ).map_values(perref));
            assert(refsdv.take(i + 1).map_values(perref).last() == perref(refsdv[i as int]));
            assert(out.deep_view() == concat_seqs(refsdv.take(i + 1).map_values(perref)));
        }
        i = i + 1;
    }
    proof {
        assert(refsdv.take(refsdv.len() as int) =~= refsdv);
        assert(refsdv == refs_in_pack(pjv.references, pv.name));
    }
    out
}

/// The dependency check of one package: every reference from it, against
/// every definition of the referenced name owned by another package that
/// enforces dependencies and is not a declared dependency.
pub fn dependency_violation(package: &Package, project: &Project) -> (r: Vec<Violation>)
    ensures
        r.deep_view() == dependency_violations(project.deep_view(), package.deep_view()),
{
    let ghost pjv = project.deep_view();
    let ghost pv = package.deep_view();
    let ghost perref = |rr: ReferenceView| dependency_violations_for_ref(pjv, pv, rr);
    let refs = all_references_in_package(&project.references, package.name.as_str());
    let ghost refsdv = refs.deep_view();
    let mut out: Vec<Violation> = Vec::new();
    let mut i: usize = 0;
    while i < refs.len()
        invariant
            pjv == project.deep_view(),
            pv == package.deep_view(),
            refsdv == refs.deep_view(),
            i <= refs.len(),
            perref == (|rr: ReferenceView| dependency_violations_for_ref(pjv, pv, rr)),
            out.deep_view() == concat_seqs(refsdv.take(i as int).map_values(perref)),
        decreases refs.len() - i,
    {
        let r = &refs[i];
        let ds = all_definitions_for(&project.definitions, r.name.as_str());
        let ghost dsdv = ds.deep_view();
        let ghost suspect = |d: DefinitionView| dependency_suspect(pjv.packages, pv, d);
        let ghost mk = |d: DefinitionView| ViolationView {
            violation_type: ViolationType::Dependency,
            violated_pack: d.package,
            violating_pack: pv.name,
            definition: d,
            reference: refsdv[i as int],
        };
        let ghost pre = out.deep_view();
        let mut k: usize = 0;
        while k < ds.len()
            invariant
                pjv == project.deep_view(),
                pv == package.deep_view(),
                dsdv == ds.deep_view(),
                k <= ds.len(),
                i < refs@.len(),
                refsdv == refs.deep_view(),
                r.deep_view() == refsdv[i as int],
                suspect == (|d: DefinitionView| dependency_suspect(pjv.packages, pv, d)),
                mk == (|d: DefinitionView| ViolationView {
                    violation_type: ViolationType::Dependency,
                    violated_pack: d.package,
                    violating_pack: pv.name,
                    definition: d,
                    reference: refsdv[i as int],
                }),
                out.deep_view() == pre + dsdv.take(k as int).filter(suspect).map_values(mk),
            decreases ds.len() - k,
        {
            let d = &ds[k];
            proof {
                assert(dsdv.take(k + 1).drop_last() =~= dsdv.take(k as int));
                assert(dsdv.take(k + 1).last() == dsdv[k as int]);
                reveal(Seq::filter);
            }
            let enforced = match package_index_by_name(&project.packages, d.package.as_str()) {
                Some(pi) => project.packages[pi].enforce_dependencies,
                None => false,
            };
            let undeclared = match &package.dependencies {
                Some(l) => !vec_contains_str(l, d.package.as_str()),
                None => true,
            };
            if enforced && undeclared && !str_eq(d.package.as_str(), package.name.as_str()) {
                let nv = Violation {
                    violation_type: ViolationType::Dependency,
                    violated_pack: d.package.clone(),
                    violating_pack: package.name.clone(),
                    definition: clone_definition(d),
                    reference: clone_reference(r),
                };
                proof {
                    assert(suspect(dsdv[k as int]));
                    assert(nv.deep_view() == mk(dsdv[k as int]));
                }
                out.push(nv);
                proof {
                    let fm0 = dsdv.take(k as int).filter(suspect).map_values(mk);
                    assert(dsdv.take(k + 1).filter(suspect) =~= dsdv.take(k as int).filter(
                        suspect,
                    ).push(dsdv[k as int]));
                    assert(dsdv.take(k + 1).filter(suspect).map_values(mk) =~= fm0.push(
                        mk(dsdv[k as int]),
                    ));
                    assert((pre + fm0).push(mk(dsdv[k as int])) =~= pre + fm0.push(
                        mk(dsdv[k as int]),
                    ));
                    assert(out.deep_view() =~= pre + dsdv.take(k + 1).filter(suspect).map_values(
                        mk,
                    ));
                }
            } else {
                proof {
                    assert(!suspect(dsdv[k as int]));
                }
            }
            k = k + 1;
        }
        proof {
            assert(dsdv.take(dsdv.len() as int) =~= dsdv);
            assert(dsdv == defs_named(pjv.definitions, refsdv[i as int].name));
            assert(perref(refsdv[i as int]) == dsdv.filter(suspect).map_values(mk));
            assert(refsdv.take(i + 1).map_values(perref).drop_last() =~= refsdv.take(
                i as int,
            ).map_values(perref));
            assert(refsdv.take(i + 1).map_values(perref).last() == perref(refsdv[i as int]));
            assert(out.deep_view() == concat_seqs(refsdv.take(i + 1).map_values(perref)));
        }
        i = i + 1;
    }
    proof {
        assert(refsdv.take(refsdv.len() as int) =~= refsdv);
        assert(refsdv == refs_in_pack(pjv.references, pv.name));
    }
    out
}

/// Runs both checks over every package — privacy first within each
/// package — and suppresses violations whose violated package is the
/// `root` sentinel.
pub fn validate(project: &Project) -> (r: Vec<Violation>)
    ensures
        r.deep_view() == validate_view(project.deep_view()),
{
    let ghost pjv = project.deep_view();
    let ghost perpack = |p: PackageView| package_violations(pjv, p);
    let mut all: Vec<Violation> = Vec::new();
    let mut i: usize = 0;
    while i < project.packages.len()
        invariant
            pjv == project.deep_view(),
            i <= project.packages.len(),
            perpack == (|p: PackageView| package_violations(pjv, p)),
            all.deep_view() == concat_seqs(pjv.packages.take(i as int).map_values(perpack)),
        decreases project.packages.len() - i,
    {
        let pk = &project.packages[i];
        let mut vp = privacy_violation(pk, project);
        let mut vd = dependency_violation(pk, project);
        let ghost pkv = pjv.packages;
        proof {
            assert(vp.deep_view() + vd.deep_view() == perpack(pkv[i as int]));
            assert(pkv.take(i + 1).map_values(perpack).drop_last() =~= pkv.take(
                i as int,
            ).map_values(perpack));
            assert(pkv.take(i + 1).map_values(perpack).last() == perpack(pkv[i as int]));
        }
        all.append(&mut vp);
        all.append(&mut vd);
        proof {
            assert(all.deep_view() == concat_seqs(pkv.take(i + 1).map_values(perpack)));
        }
        i = i + 1;
    }
    proof {
        assert(pjv.packages.take(pjv.packages.len() as int) =~= pjv.packages);
    }
    let ghost alldv = all.deep_view();
    let ghost notroot = |v: ViolationView| v.violated_pack != root_name();
    let root = crate::files::root_string();
    let mut out: Vec<Violation> = Vec::new();
    let mut k: usize = 0;
    while k < all.len()
        invariant
            alldv == all.deep_view(),
            k <= all.len(),
            root@ == root_name(),
            notroot == (|v: ViolationView| v.violated_pack != root_name()),
            out.deep_view() == alldv.take(k as int).filter(notroot),
        decreases all.len() - k,
    {
        proof {
            assert(alldv.take(k + 1).drop_last() =~= alldv.take(k as int));
            assert(alldv.take(k + 1).last() == alldv[k as int]);
            reveal(Seq::filter);
        }
        if !str_eq(all[k].violated_pack.as_str(), root.as_str()) {
            out.push(clone_violation(&all[k]));
        }
        k = k + 1;
    }
    proof {
        assert(alldv.take(alldv.len() as int) =~= alldv);
    }
    out
}

/// Keys seen so far, first appearance first.
pub open spec fn firsts(s: Seq<Seq<char>>) -> Seq<Seq<char>>
    decreases s.len(),
{
    if s.len() == 0 {
        Seq::empty()
    } else {
        let r = firsts(s.drop_last());
        if r.contains(s.last()) {
            r
        } else {
            r.push(s.last())
        }
    }
}

/// Insertion into a sorted duplicate-free list of strings: an already
/// present key leaves the list unchanged.
pub open spec fn sorted_insert_str(s: Seq<Seq<char>>, x: Seq<char>) -> Seq<Seq<char>>
    decreases s.len(),
{
    if s.len() == 0 {
        seq![x]
    } else if s.last() == x {
        s
    } else if lex_lt(s.last(), x) {
        s.push(x)
    } else {
        sorted_insert_str(s.drop_last(), x).push(s.last())
    }
}

/// The sorted duplicate-free list of the given strings.
pub open spec fn sort_unique_strs(s: Seq<Seq<char>>) -> Seq<Seq<char>>
    decreases s.len(),
{
    if s.len() == 0 {
        Seq::empty()
    } else {
        sorted_insert_str(sort_unique_strs(s.drop_last()), s.last())
    }
}

proof fn lemma_sorted_insert_skip(s: Seq<Seq<char>>, x: Seq<char>, j: int)
    requires
        0 <= j <= s.len(),
        forall|k: int| j <= k < s.len() ==> !(#[trigger] s[k] == x) && !lex_lt(s[k], x),
    ensures
        sorted_insert_str(s, x) =~= sorted_insert_str(s.take(j), x) + s.skip(j),
    decreases s.len() - j,
{
    if j == s.len() {
        assert(s.take(j) =~= s);
        assert(s.skip(j) =~= Seq::<Seq<char>>::empty());
        assert(sorted_insert_str(s.take(j), x) + s.skip(j) =~= sorted_insert_str(s, x));
    } else {
        assert(!(s.last() == x) && !lex_lt(s.last(), x));
        lemma_sorted_insert_skip(s.drop_last(), x, j);
        assert(s.drop_last().take(j) =~= s.take(j));
        assert(s.drop_last().skip(j).push(s.last()) =~= s.skip(j));
    }
}

/// One sorted-unique insertion step, in place.
fn sorted_insert_string(out: &mut Vec<String>, x: String)
    ensures
        final(out).deep_view() == sorted_insert_str(old(out).deep_view(), x@),
{
    let ghost s = out.deep_view();
    let mut j: usize = out.len();
    loop
        invariant
            s == out.deep_view(),
            s == old(out).deep_view(),
            j <= out@.len(),
            forall|k: int| j <= k < s.len() ==> !(#[trigger] s[k] == x@) && !lex_lt(s[k], x@),
        decreases j,
    {
        proof {
            lemma_sorted_insert_skip(s, x@, j as int);
        }
        if j == 0 {
            proof {
                assert(s.take(0) =~= Seq::<Seq<char>>::empty());
                assert(sorted_insert_str(Seq::<Seq<char>>::empty(), x@) =~= seq![x@]);
                assert(s.skip(0) =~= s);
            }
            out.insert(0, x);
            proof {
                assert(out.deep_view() =~= seq![x@] + s);
                assert(sorted_insert_str(s, x@) =~= seq![x@] + s);
            }
            return ;
        }
        if str_eq(out[j - 1].as_str(), x.as_str()) {
            proof {
                assert(s.take(j as int).last() == x@);
                assert(sorted_insert_str(s.take(j as int), x@) == s.take(j as int));
                assert(s.take(j as int) + s.skip(j as int) =~= s);
            }
            return ;
        }
        if crate::strutil::lex_less(out[j - 1].as_str(), x.as_str()) {
            proof {
                assert(s.take(j as int).last() == s[j - 1]);
                assert(sorted_insert_str(s.take(j as int), x@) == s.take(j as int).push(x@));
            }
            out.insert(j, x);
            proof {
                assert(out.deep_view() =~= s.take(j as int).push(x@) + s.skip(j as int));
            }
            return ;
        }
        j = j - 1;
    }
}

/// The violation kinds present in a group, without duplicates and with
/// dependency ordered before privacy.
pub open spec fn has_kind(ws: Seq<ViolationView>, t: ViolationType) -> bool {
    exists|k: int| 0 <= k < ws.len() && (#[trigger] ws[k]).violation_type == t
}

pub open spec fn kinds_of(ws: Seq<ViolationView>) -> Seq<ViolationType> {
    let dep: Seq<ViolationType> = if has_kind(ws, ViolationType::Dependency) {
        seq![ViolationType::Dependency]
    } else {
        Seq::empty()
    };
    let pri: Seq<ViolationType> = if has_kind(ws, ViolationType::Privacy) {
        seq![ViolationType::Privacy]
    } else {
        Seq::empty()
    };
    dep + pri
}

/// The file a violation's reference stands in, relative to the project
/// root.
pub open spec fn ref_file(v: ViolationView) -> Seq<char> {
    crate::pathutil::rel_path_view(v.reference.loc.path, v.reference.loc.root_path)
}

/// One deprecation leaf: the kinds and the referring files of a group of
/// violations of one constant, both sorted and duplicate-free.
pub struct DeprecatedReference {
    pub violations: Vec<ViolationType>,
    pub files: Vec<String>,
}

/// The mathematical value of a `DeprecatedReference`.
pub ghost struct DeprecatedReferenceView {
    pub violations: Seq<ViolationType>,
    pub files: Seq<Seq<char>>,
}

impl DeepView for DeprecatedReference {
    type V = DeprecatedReferenceView;

    open spec fn deep_view(&self) -> DeprecatedReferenceView {
        DeprecatedReferenceView {
            violations: self.violations.deep_view(),
            files: self.files.deep_view(),
        }
    }
}

pub open spec fn leaf_for(ws: Seq<ViolationView>) -> DeprecatedReferenceView {
    DeprecatedReferenceView {
        violations: kinds_of(ws),
        files: sort_unique_strs(ws.map_values(|v: ViolationView| ref_file(v))),
    }
}

/// The key a violated constant is listed under: `::` and its qualified
/// name.
pub open spec fn cname_of(v: ViolationView) -> Seq<char> {
    sep() + v.definition.name
}

/// The deprecation entries of one violated package: one leaf per
/// constant, keys sorted.
pub open spec fn entries_for_pack(vs: Seq<ViolationView>) -> Seq<
    (Seq<char>, DeprecatedReferenceView),
> {
    let keys = sort_unique_strs(vs.map_values(|v: ViolationView| cname_of(v)));
    Seq::new(
        keys.len(),
        |i: int|
            (keys[i], leaf_for(vs.filter(|v: ViolationView| cname_of(v) == keys[i]))),
    )
}

/// The deprecation tree of one violating package: violated packages
/// sorted, each with its constant entries.
pub open spec fn tree_for(vs: Seq<ViolationView>) -> Seq<
    (Seq<char>, Seq<(Seq<char>, DeprecatedReferenceView)>),
> {
    let keys = sort_unique_strs(vs.map_values(|v: ViolationView| v.violated_pack));
    Seq::new(
        keys.len(),
        |i: int|
            (
                keys[i],
                entries_for_pack(vs.filter(|v: ViolationView| v.violated_pack == keys[i])),
            ),
    )
}

/// The deprecation file content of one violating package.
pub struct DeprecatedReferences {
    pub violating_pack: String,
    pub deprecated_references: Vec<(String, Vec<(String, DeprecatedReference)>)>,
}

/// The mathematical value of a `DeprecatedReferences`.
pub ghost struct DeprecatedReferencesView {
    pub violating_pack: Seq<char>,
    pub deprecated_references: Seq<(Seq<char>, Seq<(Seq<char>, DeprecatedReferenceView)>)>,
}

impl DeepView for DeprecatedReferences {
    type V = DeprecatedReferencesView;

    open spec fn deep_view(&self) -> DeprecatedReferencesView {
        DeprecatedReferencesView {
            violating_pack: self.violating_pack@,
            deprecated_references: self.deprecated_references.deep_view(),
        }
    }
}

/// The full regrouping: one `DeprecatedReferences` per violating
/// package, in order of first appearance.
pub open spec fn deprecated_references_view(vs: Seq<ViolationView>) -> Seq<
    DeprecatedReferencesView,
> {
    let groups = firsts(vs.map_values(|v: ViolationView| v.violating_pack));
    Seq::new(
        groups.len(),
        |i: int|
            DeprecatedReferencesView {
                violating_pack: groups[i],
                deprecated_references: tree_for(
                    vs.filter(|v: ViolationView| v.violating_pack == groups[i]),
                ),
            },
    )
}

/// The `::`-prefixed constant key of a violation.
fn cname_string(v: &Violation) -> (r: String)
    ensures
        r@ == cname_of(v.deep_view()),
{
    proof {
        reveal_strlit("::");
        assert("::"@ =~= sep());
    }
    let mut r = String::new();
    r.append("::");
    r.append(v.definition.name.as_str());
    proof {
        assert(r@ =~= sep() + v.deep_view().definition.name);
    }
    r
}

/// Copies of the violations made from the given violating package.
fn violations_where_violating(vs: &Vec<Violation>, key: &str) -> (r: Vec<Violation>)
    ensures
        r.deep_view() == vs.deep_view().filter(
            |v: ViolationView| v.violating_pack == key@,
        ),
{
    let ghost vsdv = vs.deep_view();
    let ghost pred = |v: ViolationView| v.violating_pack == key@;
    let mut r: Vec<Violation> = Vec::new();
    let mut i: usize = 0;
    while i < vs.len()
        invariant
            vsdv == vs.deep_view(),
            i <= vs.len(),
            pred == (|v: ViolationView| v.violating_pack == key@),
            r.deep_view() == vsdv.take(i as int).filter(pred),
        decreases vs.len() - i,
    {
        proof {
            assert(vsdv.take(i + 1).drop_last() =~= vsdv.take(i as int));
            assert(vsdv.take(i + 1).last() == vsdv[i as int]);
            reveal(Seq::filter);
        }
        if str_eq(vs[i].violating_pack.as_str(), key) {
            r.push(clone_violation(&vs[i]));
        }
        i = i + 1;
    }
    proof {
        assert(vsdv.take(vsdv.len() as int) =~= vsdv);
    }
    r
}

/// Copies of the violations against the given violated package.
fn violations_where_violated(vs: &Vec<Violation>, key: &str) -> (r: Vec<Violation>)
    ensures
        r.deep_view() == vs.deep_view().filter(
            |v: ViolationView| v.violated_pack == key@,
        ),
{
    let ghost vsdv = vs.deep_view();
    let ghost pred = |v: ViolationView| v.violated_pack == key@;
    let mut r: Vec<Violation> = Vec::new();
    let mut i: usize = 0;
    while i < vs.len()
        invariant
            vsdv == vs.deep_view(),
            i <= vs.len(),
            pred == (|v: ViolationView| v.violated_pack == key@),
            r.deep_view() == vsdv.take(i as int).filter(pred),
        decreases vs.len() - i,
    {
        proof {
            assert(vsdv.take(i + 1).drop_last() =~= vsdv.take(i as int));
            assert(vsdv.take(i + 1).last() == vsdv[i as int]);
            reveal(Seq::filter);
        }
        if str_eq(vs[i].violated_pack.as_str(), key) {
            r.push(clone_violation(&vs[i]));
        }
        i = i + 1;
    }
    proof {
        assert(vsdv.take(vsdv.len() as int) =~= vsdv);
    }
    r
}

/// Copies of the violations of the given constant key.
fn violations_where_constant(vs: &Vec<Violation>, key: &str) -> (r: Vec<Violation>)
    ensures
        r.deep_view() == vs.deep_view().filter(|v: ViolationView| cname_of(v) == key@),
{
    let ghost vsdv = vs.deep_view();
    let ghost pred = |v: ViolationView| cname_of(v) == key@;
    let mut r: Vec<Violation> = Vec::new();
    let mut i: usize = 0;
    while i < vs.len()
        invariant
            vsdv == vs.deep_view(),
            i <= vs.len(),
            pred == (|v: ViolationView| cname_of(v) == key@),
            r.deep_view() == vsdv.take(i as int).filter(pred),
        decreases vs.len() - i,
    {
        proof {
            assert(vsdv.take(i + 1).drop_last() =~= vsdv.take(i as int));
            assert(vsdv.take(i + 1).last() == vsdv[i as int]);
            reveal(Seq::filter);
        }
        let ci = cname_string(&vs[i]);
        if str_eq(ci.as_str(), key) {
            r.push(clone_violation(&vs[i]));
        }
        i = i + 1;
    }
    proof {
        assert(vsdv.take(vsdv.len() as int) =~= vsdv);
    }
    r
}

/// The kinds present in a violation group, dependency first.
fn violation_kinds(ws: &Vec<Violation>) -> (r: Vec<ViolationType>)
    ensures
        r.deep_view() == kinds_of(ws.deep_view()),
{
    let ghost wsdv = ws.deep_view();
    let mut has_dep: bool = false;
    let mut has_pri: bool = false;
    let mut i: usize = 0;
    while i < ws.len()
        invariant
            wsdv == ws.deep_view(),
            i <= ws.len(),
            has_dep == has_kind(wsdv.take(i as int), ViolationType::Dependency),
            has_pri == has_kind(wsdv.take(i as int), ViolationType::Privacy),
        decreases ws.len() - i,
    {
        proof {
            assert(wsdv.take(i + 1).drop_last() =~= wsdv.take(i as int));
            assert(wsdv.take(i + 1)[i as int] == wsdv[i as int]);
            assert forall|t: ViolationType|
                #[trigger] has_kind(wsdv.take(i + 1), t) == (has_kind(wsdv.take(i as int), t)
                    || wsdv[i as int].violation_type == t) by {
                if has_kind(wsdv.take(i + 1), t) {
                    let k = choose|k: int|
                        0 <= k < wsdv.take(i + 1).len() && (#[trigger] wsdv.take(i + 1)[
                            k
                        ]).violation_type == t;
                    if k < i {
                        assert(wsdv.take(i as int)[k].violation_type == t);
                    }
                }
                if has_kind(wsdv.take(i as int), t) {
                    let k = choose|k: int|
                        0 <= k < wsdv.take(i as int).len() && (#[trigger] wsdv.take(i as int)[
                            k
                        ]).violation_type == t;
                    assert(wsdv.take(i + 1)[k].violation_type == t);
                }
                if wsdv[i as int].violation_type == t {
                    assert(wsdv.take(i + 1)[i as int].violation_type == t);
                }
            }
        }
        match ws[i].violation_type {
            ViolationType::Dependency => {
                has_dep = true;
            },
            ViolationType::Privacy => {
                has_pri = true;
            },
        }
        i = i + 1;
    }
    proof {
        assert(wsdv.take(wsdv.len() as int) =~= wsdv);
    }
    let mut r: Vec<ViolationType> = Vec::new();
    if has_dep {
        r.push(ViolationType::Dependency);
    }
    if has_pri {
        r.push(ViolationType::Privacy);
    }
    proof {
        assert(r.deep_view() =~= kinds_of(wsdv));
    }
    r
}

/// One deprecation leaf for a group of violations of one constant.
fn build_leaf(ws: &Vec<Violation>) -> (r: DeprecatedReference)
    ensures
        r.deep_view() == leaf_for(ws.deep_view()),
{
    let ghost wsdv = ws.deep_view();
    let ghost ff = |v: ViolationView| ref_file(v);
    let kinds = violation_kinds(ws);
    let mut files: Vec<String> = Vec::new();
    let mut i: usize = 0;
    while i < ws.len()
        invariant
            wsdv == ws.deep_view(),
            i <= ws.len(),
            ff == (|v: ViolationView| ref_file(v)),
            files.deep_view() == sort_unique_strs(wsdv.take(i as int).map_values(ff)),
        decreases ws.len() - i,
    {
        let f = ws[i].reference.loc.relative_path();
        proof {
            assert(wsdv.take(i + 1).map_values(ff).drop_last() =~= wsdv.take(
                i as int,
            ).map_values(ff));
            assert(wsdv.take(i + 1).map_values(ff).last() == ff(wsdv[i as int]));
            assert(f@ == ff(wsdv[i as int]));
        }
        sorted_insert_string(&mut files, f);
        i = i + 1;
    }
    proof {
        assert(wsdv.take(wsdv.len() as int) =~= wsdv);
    }
    DeprecatedReference { violations: kinds, files }
}

/// The constant entries of one violated package, keys sorted.
fn entries_for(vs: &Vec<Violation>) -> (r: Vec<(String, DeprecatedReference)>)
    ensures
        r.deep_view() == entries_for_pack(vs.deep_view()),
{
    let ghost vsdv = vs.deep_view();
    let ghost kf = |v: ViolationView| cname_of(v);
    let mut keys: Vec<String> = Vec::new();
    let mut i: usize = 0;
    while i < vs.len()
        invariant
            vsdv == vs.deep_view(),
            i <= vs.len(),
            kf == (|v: ViolationView| cname_of(v)),
            keys.deep_view() == sort_unique_strs(vsdv.take(i as int).map_values(kf)),
        decreases vs.len() - i,
    {
        let c = cname_string(&vs[i]);
        proof {
            assert(vsdv.take(i + 1).map_values(kf).drop_last() =~= vsdv.take(
                i as int,
            ).map_values(kf));
            assert(vsdv.take(i + 1).map_values(kf).last() == kf(vsdv[i as int]));
        }
        sorted_insert_string(&mut keys, c);
        i = i + 1;
    }
    proof {
        assert(vsdv.take(vsdv.len() as int) =~= vsdv);
    }
    let ghost target = entries_for_pack(vsdv);
    let mut r: Vec<(String, DeprecatedReference)> = Vec::new();
    let mut k: usize = 0;
    while k < keys.len()
        invariant
            vsdv == vs.deep_view(),
            k <= keys.len(),
            keys.deep_view() == sort_unique_strs(vsdv.map_values(
                |v: ViolationView| cname_of(v),
            )),
            target == entries_for_pack(vsdv),
            target.len() == keys@.len(),
            r.deep_view() == target.take(k as int),
        decreases keys.len() - k,
    {
        let sub = violations_where_constant(vs, keys[k].as_str());
        let leaf = build_leaf(&sub);
        r.push((keys[k].clone(), leaf));
        proof {
            assert(target[k as int] == (
                keys.deep_view()[k as int],
                leaf_for(
                    vsdv.filter(
                        |v: ViolationView| cname_of(v) == keys.deep_view()[k as int],
                    ),
                ),
            ));
            assert(r.deep_view() =~= target.take(k + 1));
        }
        k = k + 1;
    }
    proof {
        assert(target.take(target.len() as int) =~= target);
    }
    r
}

/// The deprecation tree of one violating package, violated packages
/// sorted.
pub fn deprecated_references_for_pack(vs: &Vec<Violation>) -> (r: Vec<
    (String, Vec<(String, DeprecatedReference)>),
>)
    ensures
        r.deep_view() == tree_for(vs.deep_view()),
{
    let ghost vsdv = vs.deep_view();
    let ghost kf = |v: ViolationView| v.violated_pack;
    let mut keys: Vec<String> = Vec::new();
    let mut i: usize = 0;
    while i < vs.len()
        invariant
            vsdv == vs.deep_view(),
            i <= vs.len(),
            kf == (|v: ViolationView| v.violated_pack),
            keys.deep_view() == sort_unique_strs(vsdv.take(i as int).map_values(kf)),
        decreases vs.len() - i,
    {
        proof {
            assert(vsdv.take(i + 1).map_values(kf).drop_last() =~= vsdv.take(
                i as int,
            ).map_values(kf));
            assert(vsdv.take(i + 1).map_values(kf).last() == kf(vsdv[i as int]));
        }
        sorted_insert_string(&mut keys, vs[i].violated_pack.clone());
        i = i + 1;
    }
    proof {
        assert(vsdv.take(vsdv.len() as int) =~= vsdv);
    }
    let ghost target = tree_for(vsdv);
    let mut r: Vec<(String, Vec<(String, DeprecatedReference)>)> = Vec::new();
    let mut k: usize = 0;
    while k < keys.len()
        invariant
            vsdv == vs.deep_view(),
            k <= keys.len(),
            keys.deep_view() == sort_unique_strs(vsdv.map_values(
                |v: ViolationView| v.violated_pack,
            )),
            target == tree_for(vsdv),
            target.len() == keys@.len(),
            r.deep_view() == target.take(k as int),
        decreases keys.len() - k,
    {
        let sub = violations_where_violated(vs, keys[k].as_str());
        let entries = entries_for(&sub);
        r.push((keys[k].clone(), entries));
        proof {
            assert(target[k as int] == (
                keys.deep_view()[k as int],
                entries_for_pack(
                    vsdv.filter(
                        |v: ViolationView| v.violated_pack == keys.deep_view()[k as int],
                    ),
                ),
            ));
            assert(r.deep_view() =~= target.take(k + 1));
        }
        k = k + 1;
    }
    proof {
        assert(target.take(target.len() as int) =~= target);
    }
    r
}

/// Regroups violations into one deprecation structure per violating
/// package, packages in order of first appearance.
pub fn deprecated_references(violations: &Vec<Violation>) -> (r: Vec<DeprecatedReferences>)
    ensures
        r.deep_view() == deprecated_references_view(violations.deep_view()),
{
    let ghost vsdv = violations.deep_view();
    let ghost gf = |v: ViolationView| v.violating_pack;
    let mut groups: Vec<String> = Vec::new();
    let mut i: usize = 0;
    while i < violations.len()
        invariant
            vsdv == violations.deep_view(),
            i <= violations.len(),
            gf == (|v: ViolationView| v.violating_pack),
            groups.deep_view() == firsts(vsdv.take(i as int).map_values(gf)),
        decreases violations.len() - i,
    {
        proof {
            assert(vsdv.take(i + 1).map_values(gf).drop_last() =~= vsdv.take(
                i as int,
            ).map_values(gf));
            assert(vsdv.take(i + 1).map_values(gf).last() == gf(vsdv[i as int]));
        }
        if !vec_contains_str(&groups, violations[i].violating_pack.as_str()) {
            groups.push(violations[i].violating_pack.clone());
        }
        i = i + 1;
    }
    proof {
        assert(vsdv.take(vsdv.len() as int) =~= vsdv);
    }
    let ghost target = deprecated_references_view(vsdv);
    let mut r: Vec<DeprecatedReferences> = Vec::new();
    let mut k: usize = 0;
    while k < groups.len()
        invariant
            vsdv == violations.deep_view(),
            k <= groups.len(),
            groups.deep_view() == firsts(vsdv.map_values(|v: ViolationView| v.violating_pack)),
            target == deprecated_references_view(vsdv),
            target.len() == groups@.len(),
            r.deep_view() == target.take(k as int),
        decreases groups.len() - k,
    {
        let sub = violations_where_violating(violations, groups[k].as_str());
        let tree = deprecated_references_for_pack(&sub);
        r.push(
            DeprecatedReferences {
                violating_pack: groups[k].clone(),
                deprecated_references: tree,
            },
        );
        proof {
            assert(target[k as int] == (DeprecatedReferencesView {
                violating_pack: groups.deep_view()[k as int],
                deprecated_references: tree_for(
                    vsdv.filter(
                        |v: ViolationView| v.violating_pack == groups.deep_view()[k as int],
                    ),
                ),
            }));
            assert(r.deep_view() =~= target.take(k + 1));
        }
        k = k + 1;
    }
    proof {
        assert(target.take(target.len() as int) =~= target);
    }
    r
}

/// Keeps only the deprecation structures of one violating package, in
/// order.
pub fn deprecations_for_pack(deprecated: Vec<DeprecatedReferences>, pack: &str) -> (r: Vec<
    DeprecatedReferences,
>)
    ensures
        r.deep_view() == deprecated.deep_view().filter(
            |d: DeprecatedReferencesView| d.violating_pack == pack@,
        ),
{
    let ghost orig = deprecated.deep_view();
    let ghost pred = |d: DeprecatedReferencesView| d.violating_pack == pack@;
    let mut rest = deprecated;
    let mut out: Vec<DeprecatedReferences> = Vec::new();
    while rest.len() > 0
        invariant
            rest@.len() <= orig.len(),
            pred == (|d: DeprecatedReferencesView| d.violating_pack == pack@),
            rest.deep_view() == orig.skip(orig.len() - rest@.len()),
            out.deep_view() == orig.take(orig.len() - rest@.len()).filter(pred),
        decreases rest@.len(),
    {
        let ghost n = orig.len() - rest@.len();
        let d = rest.remove(0);
        proof {
            assert(d.deep_view() == orig.skip(n)[0]);
            assert(d.deep_view() == orig[n]);
            assert(rest.deep_view() =~= orig.skip(n).remove(0));
            assert(orig.skip(n).remove(0) =~= orig.skip(n + 1));
            assert(orig.take(n + 1).drop_last() =~= orig.take(n));
            assert(orig.take(n + 1).last() == orig[n]);
            reveal(Seq::filter);
        }
        if str_eq(d.violating_pack.as_str(), pack) {
            out.push(d);
            proof {
                assert(out.deep_view() =~= orig.take(n + 1).filter(pred));
            }
        } else {
            proof {
                assert(!pred(orig[n]));
                assert(out.deep_view() =~= orig.take(n + 1).filter(pred));
            }
        }
    }
    proof {
        assert(orig.take(orig.len() as int) =~= orig);
    }
    out
}

/// Whether `name` names one of the supplied packages.
pub open spec fn in_packages(packages: Seq<PackageView>, name: Seq<char>) -> bool {
    exists|k: int| 0 <= k < packages.len() && (#[trigger] packages[k]).name == name
}

/// What holds of every emitted violation: it records a cross-package
/// reference, violating from the reference's side and violated on the
/// definition's side, and each kind only under its rule's conditions.
pub open spec fn violation_shape(project: ProjectView, v: ViolationView) -> bool {
    &&& v.violating_pack == v.reference.package
    &&& v.violated_pack == v.definition.package
    &&& v.definition.package != v.reference.package
    &&& v.definition.name == v.reference.name
    &&& in_packages(project.packages, v.violating_pack)
    &&& (v.violation_type == ViolationType::Privacy ==> !v.definition.public && (match pack_by_name(
        project.packages,
        v.violated_pack,
    ) {
        Some(q) => q.enforce_privacy,
        None => false,
    }) && !any_public(defs_named(project.definitions, v.reference.name)))
    &&& (v.violation_type == ViolationType::Dependency ==> (match pack_by_name(
        project.packages,
        v.violated_pack,
    ) {
        Some(q) => q.enforce_dependencies,
        None => false,
    }))
}

proof fn lemma_concat_contains<A>(ss: Seq<Seq<A>>, y: A)
    requires
        concat_seqs(ss).contains(y),
    ensures
        exists|j: int| 0 <= j < ss.len() && (#[trigger] ss[j]).contains(y),
    decreases ss.len(),
{
    if ss.len() == 0 {
        let k = choose|k: int| 0 <= k < concat_seqs(ss).len() && concat_seqs(ss)[k] == y;
    } else {
        let rest = concat_seqs(ss.drop_last());
        let k = choose|k: int| 0 <= k < concat_seqs(ss).len() && concat_seqs(ss)[k] == y;
        if k < rest.len() {
            assert(rest[k] == y);
            assert(rest.contains(y));
            lemma_concat_contains(ss.drop_last(), y);
            let j = choose|j: int| 0 <= j < ss.drop_last().len() && (#[trigger] ss.drop_last()[
                j
            ]).contains(y);
            assert(ss[j].contains(y));
        } else {
            assert(ss.last()[k - rest.len()] == y);
            assert(ss[ss.len() - 1].contains(y));
        }
    }
}

proof fn lemma_named_def(defs: Seq<DefinitionView>, name: Seq<char>, d: DefinitionView)
    requires
        defs_named(defs, name).contains(d),
    ensures
        d.name == name,
{
    broadcast use vstd::seq_lib::group_seq_properties;

    let pred = |dd: DefinitionView| dd.name == name;
    let k = choose|k: int|
        0 <= k < defs.filter(pred).len() && defs.filter(pred)[k] == d;
    defs.lemma_filter_pred(pred, k);
}

proof fn lemma_privacy_for_ref_shape(
    project: ProjectView,
    p: PackageView,
    r: ReferenceView,
    v: ViolationView,
)
    requires
        privacy_violations_for_ref(project, p, r).contains(v),
        project.packages.contains(p),
        r.package == p.name,
    ensures
        violation_shape(project, v),
        v.violation_type == ViolationType::Privacy,
        v.reference == r,
{
    let ds = defs_named(project.definitions, r.name);
    if any_public(ds) {
        let k = choose|k: int|
            0 <= k < privacy_violations_for_ref(project, p, r).len()
                && privacy_violations_for_ref(project, p, r)[k] == v;
    } else {
        let suspect = |d: DefinitionView| privacy_suspect(project.packages, p.name, d);
        let mk = |d: DefinitionView| ViolationView {
            violation_type: ViolationType::Privacy,
            violated_pack: d.package,
            violating_pack: p.name,
            definition: d,
            reference: r,
        };
        let filt = ds.filter(suspect);
        let k = choose|k: int|
            0 <= k < filt.map_values(mk).len() && filt.map_values(mk)[k] == v;
        assert(v == mk(filt[k]));
        ds.lemma_filter_pred(suspect, k);
        ds.lemma_filter_contains_rev(suspect, filt[k]);
        lemma_named_def(project.definitions, r.name, filt[k]);
        let pidx = choose|pi: int| 0 <= pi < project.packages.len() && project.packages[pi] == p;
        assert(project.packages[pidx].name == v.violating_pack);
    }
}

proof fn lemma_dependency_for_ref_shape(
    project: ProjectView,
    p: PackageView,
    r: ReferenceView,
    v: ViolationView,
)
    requires
        dependency_violations_for_ref(project, p, r).contains(v),
        project.packages.contains(p),
        r.package == p.name,
    ensures
        violation_shape(project, v),
        v.violation_type == ViolationType::Dependency,
        v.reference == r,
{
    let ds = defs_named(project.definitions, r.name);
    let suspect = |d: DefinitionView| dependency_suspect(project.packages, p, d);
    let mk = |d: DefinitionView| ViolationView {
        violation_type: ViolationType::Dependency,
        violated_pack: d.package,
        violating_pack: p.name,
        definition: d,
        reference: r,
    };
    let filt = ds.filter(suspect);
    let k = choose|k: int| 0 <= k < filt.map_values(mk).len() && filt.map_values(mk)[k] == v;
    assert(v == mk(filt[k]));
    ds.lemma_filter_pred(suspect, k);
    ds.lemma_filter_contains_rev(suspect, filt[k]);
    lemma_named_def(project.definitions, r.name, filt[k]);
    let pidx = choose|pi: int| 0 <= pi < project.packages.len() && project.packages[pi] == p;
    assert(project.packages[pidx].name == v.violating_pack);
}

proof fn lemma_package_violations_shape(project: ProjectView, p: PackageView, v: ViolationView)
    requires
        package_violations(project, p).contains(v),
        project.packages.contains(p),
    ensures
        violation_shape(project, v),
{
    broadcast use vstd::seq_lib::group_seq_properties;

    let a = privacy_violations(project, p);
    let b = dependency_violations(project, p);
    let k = choose|k: int| 0 <= k < (a + b).len() && (a + b)[k] == v;
    if k < a.len() {
        assert(a[k] == v);
        assert(a.contains(v));
        let refs = refs_in_pack(project.references, p.name);
        let perref = |rr: ReferenceView| privacy_violations_for_ref(project, p, rr);
        lemma_concat_contains(refs.map_values(perref), v);
        let j = choose|j: int|
            0 <= j < refs.map_values(perref).len() && (#[trigger] refs.map_values(perref)[
                j
            ]).contains(v);
        assert(refs.map_values(perref)[j] == perref(refs[j]));
        let rpred = |rr: ReferenceView| rr.package == p.name;
        project.references.lemma_filter_pred(rpred, j);
        lemma_privacy_for_ref_shape(project, p, refs[j], v);
    } else {
        assert(b[k - a.len()] == v);
        assert(b.contains(v));
        let refs = refs_in_pack(project.references, p.name);
        let perref = |rr: ReferenceView| dependency_violations_for_ref(project, p, rr);
        lemma_concat_contains(refs.map_values(perref), v);
        let j = choose|j: int|
            0 <= j < refs.map_values(perref).len() && (#[trigger] refs.map_values(perref)[
                j
            ]).contains(v);
        assert(refs.map_values(perref)[j] == perref(refs[j]));
        let rpred = |rr: ReferenceView| rr.package == p.name;
        project.references.lemma_filter_pred(rpred, j);
        lemma_dependency_for_ref_shape(project, p, refs[j], v);
    }
}

/// Every violation in the validator's output has the shape the two
/// rules prescribe, and none is against the `root` sentinel.
pub proof fn lemma_validate_shape(project: ProjectView, i: int)
    requires
        0 <= i < validate_view(project).len(),
    ensures
        violation_shape(project, validate_view(project)[i]),
        validate_view(project)[i].violated_pack != root_name(),
{
    broadcast use vstd::seq_lib::group_seq_properties;

    let perpack = |p: PackageView| package_violations(project, p);
    let all = concat_seqs(project.packages.map_values(perpack));
    let notroot = |v: ViolationView| v.violated_pack != root_name();
    let out = all.filter(notroot);
    let v = out[i];
    all.lemma_filter_pred(notroot, i);
    all.lemma_filter_contains_rev(notroot, v);
    lemma_concat_contains(project.packages.map_values(perpack), v);
    let j = choose|j: int|
        0 <= j < project.packages.map_values(perpack).len() && (
        #[trigger] project.packages.map_values(perpack)[j]).contains(v);
    assert(project.packages.map_values(perpack)[j] == perpack(project.packages[j]));
    assert(project.packages.contains(project.packages[j]));
    lemma_package_violations_shape(project, project.packages[j], v);
}

/// No violation against the pseudo-package `root` is emitted.
pub proof fn lemma_no_root_violation(project: ProjectView, i: int)
    requires
        0 <= i < validate_view(project).len(),
    ensures
        validate_view(project)[i].violated_pack != root_name(),
{
    lemma_validate_shape(project, i);
}

/// A reference resolving into the referrer's own package never produces
/// a violation: every emitted violation crosses a package boundary.
pub proof fn lemma_intra_package_reference_never_violates(project: ProjectView, i: int)
    requires
        0 <= i < validate_view(project).len(),
    ensures
        validate_view(project)[i].definition.package != validate_view(project)[
            i
        ].reference.package,
        validate_view(project)[i].violating_pack == validate_view(project)[i].reference.package,
        validate_view(project)[i].violated_pack == validate_view(project)[i].definition.package,
{
    lemma_validate_shape(project, i);
}

/// If any definition of a name is public, no privacy violation for that
/// name is emitted.
pub proof fn lemma_public_anywhere_defeats_privacy(project: ProjectView, name: Seq<char>, i: int)
    requires
        0 <= i < validate_view(project).len(),
        any_public(defs_named(project.definitions, name)),
    ensures
        !(validate_view(project)[i].violation_type == ViolationType::Privacy && validate_view(
            project,
        )[i].reference.name == name),
{
    lemma_validate_shape(project, i);
}

/// A defining package that does not enforce dependencies draws no
/// dependency violation, whatever the referrer's manifest says.
pub proof fn lemma_unenforced_dependencies_suppressed(project: ProjectView, i: int)
    requires
        0 <= i < validate_view(project).len(),
        validate_view(project)[i].violation_type == ViolationType::Dependency,
    ensures
        match pack_by_name(project.packages, validate_view(project)[i].violated_pack) {
            Some(q) => q.enforce_dependencies,
            None => false,
        },
{
    lemma_validate_shape(project, i);
}

/// Strict lexicographic ascent.
pub open spec fn strictly_sorted(s: Seq<Seq<char>>) -> bool {
    forall|i: int, j: int| 0 <= i < j < s.len() ==> lex_lt(#[trigger] s[i], #[trigger] s[j])
}

proof fn lemma_sorted_insert_str_contains(s: Seq<Seq<char>>, x: Seq<char>, y: Seq<char>)
    ensures
        sorted_insert_str(s, x).contains(y) == (s.contains(y) || y == x),
    decreases s.len(),
{
    broadcast use vstd::seq_lib::group_seq_properties;

    if s.len() == 0 {
        assert(sorted_insert_str(s, x) =~= seq![x]);
        if y == x {
            assert(seq![x][0] == y);
        }
        if s.contains(y) {
            let k = choose|k: int| 0 <= k < s.len() && s[k] == y;
        }
        if sorted_insert_str(s, x).contains(y) {
            let k = choose|k: int|
                0 <= k < sorted_insert_str(s, x).len() && sorted_insert_str(s, x)[k] == y;
        }
    } else if s.last() == x {
        if y == x {
            assert(s[s.len() - 1] == y);
        }
    } else if lex_lt(s.last(), x) {
        assert(s.push(x).contains(y) == (s.contains(y) || y == x)) by {
            if s.push(x).contains(y) {
                let k = choose|k: int| 0 <= k < s.push(x).len() && s.push(x)[k] == y;
                if k < s.len() {
                    assert(s[k] == y);
                }
            }
            if s.contains(y) {
                let k = choose|k: int| 0 <= k < s.len() && s[k] == y;
                assert(s.push(x)[k] == y);
            }
            if y == x {
                assert(s.push(x)[s.len() as int] == y);
            }
        }
    } else {
        lemma_sorted_insert_str_contains(s.drop_last(), x, y);
        let inner = sorted_insert_str(s.drop_last(), x);
        assert(inner.push(s.last()).contains(y) == (inner.contains(y) || y == s.last())) by {
            if inner.push(s.last()).contains(y) {
                let k = choose|k: int|
                    0 <= k < inner.push(s.last()).len() && inner.push(s.last())[k] == y;
                if k < inner.len() {
                    assert(inner[k] == y);
                }
            }
            if inner.contains(y) {
                let k = choose|k: int| 0 <= k < inner.len() && inner[k] == y;
                assert(inner.push(s.last())[k] == y);
            }
            if y == s.last() {
                assert(inner.push(s.last())[inner.len() as int] == y);
            }
        }
        assert((s.contains(y) || y == x) == (s.drop_last().contains(y) || y == s.last() || y
            == x)) by {
            if s.contains(y) {
                let k = choose|k: int| 0 <= k < s.len() && s[k] == y;
                if k < s.len() - 1 {
                    assert(s.drop_last()[k] == y);
                }
            }
            if s.drop_last().contains(y) {
                let k = choose|k: int| 0 <= k < s.drop_last().len() && s.drop_last()[k] == y;
                assert(s[k] == y);
            }
            if y == s.last() {
                assert(s[s.len() - 1] == y);
            }
        }
    }
}

proof fn lemma_sorted_insert_str_sorted(s: Seq<Seq<char>>, x: Seq<char>)
    requires
        strictly_sorted(s),
    ensures
        strictly_sorted(sorted_insert_str(s, x)),
    decreases s.len(),
{
    if s.len() == 0 {
    } else if s.last() == x {
    } else if lex_lt(s.last(), x) {
        let out = s.push(x);
        assert forall|i: int, j: int| 0 <= i < j < out.len() implies lex_lt(
            #[trigger] out[i],
            #[trigger] out[j],
        ) by {
            if j == s.len() {
                if i < s.len() - 1 {
                    assert(lex_lt(s[i], s[s.len() - 1]));
                    crate::strutil::lemma_lex_lt_trans(s[i], s[s.len() - 1], x);
                }
            }
        }
    } else {
        assert(strictly_sorted(s.drop_last())) by {
            assert forall|i: int, j: int| 0 <= i < j < s.drop_last().len() implies lex_lt(
                #[trigger] s.drop_last()[i],
                #[trigger] s.drop_last()[j],
            ) by {
                assert(lex_lt(s[i], s[j]));
            }
        }
        lemma_sorted_insert_str_sorted(s.drop_last(), x);
        let inner = sorted_insert_str(s.drop_last(), x);
        let out = inner.push(s.last());
        assert forall|i: int, j: int| 0 <= i < j < out.len() implies lex_lt(
            #[trigger] out[i],
            #[trigger] out[j],
        ) by {
            if j == inner.len() {
                assert(inner.contains(inner[i]));
                lemma_sorted_insert_str_contains(s.drop_last(), x, inner[i]);
                if s.drop_last().contains(inner[i]) {
                    let k = choose|k: int|
                        0 <= k < s.drop_last().len() && s.drop_last()[k] == inner[i];
                    assert(lex_lt(s[k], s[s.len() - 1]));
                } else {
                    crate::strutil::lemma_lex_lt_connected(s.last(), x);
                }
            }
        }
    }
}

proof fn lemma_sort_unique_sorted(s: Seq<Seq<char>>)
    ensures
        strictly_sorted(sort_unique_strs(s)),
    decreases s.len(),
{
    if s.len() == 0 {
    } else {
        lemma_sort_unique_sorted(s.drop_last());
        lemma_sorted_insert_str_sorted(sort_unique_strs(s.drop_last()), s.last());
    }
}

/// An ordered deprecation leaf: kinds without duplicates, dependency
/// before privacy, and files strictly sorted.
pub open spec fn leaf_ordered(l: DeprecatedReferenceView) -> bool {
    &&& l.violations.no_duplicates()
    &&& forall|i: int, j: int|
        0 <= i < j < l.violations.len() ==> !(l.violations[i] == ViolationType::Privacy
            && l.violations[j] == ViolationType::Dependency)
    &&& strictly_sorted(l.files)
    &&& l.files.no_duplicates()
}

/// Ordered constant entries: keys strictly ascending, leaves ordered.
pub open spec fn entries_ordered(es: Seq<(Seq<char>, DeprecatedReferenceView)>) -> bool {
    &&& forall|a: int, b: int|
        0 <= a < b < es.len() ==> lex_lt((#[trigger] es[a]).0, (#[trigger] es[b]).0)
    &&& forall|a: int| 0 <= a < es.len() ==> leaf_ordered((#[trigger] es[a]).1)
}

/// An ordered deprecation tree: violated packages strictly ascending,
/// entries ordered.
pub open spec fn tree_ordered(t: Seq<(Seq<char>, Seq<(Seq<char>, DeprecatedReferenceView)>)>) -> bool {
    &&& forall|a: int, b: int|
        0 <= a < b < t.len() ==> lex_lt((#[trigger] t[a]).0, (#[trigger] t[b]).0)
    &&& forall|a: int| 0 <= a < t.len() ==> entries_ordered((#[trigger] t[a]).1)
}

proof fn lemma_strictly_sorted_no_dup(s: Seq<Seq<char>>)
    requires
        strictly_sorted(s),
    ensures
        s.no_duplicates(),
{
    assert forall|i: int, j: int| 0 <= i < s.len() && 0 <= j < s.len() && i != j implies s[i]
        != s[j] by {
        if i < j {
            crate::strutil::lemma_lex_lt_irrefl(s[i], s[j]);
        } else {
            crate::strutil::lemma_lex_lt_irrefl(s[j], s[i]);
        }
    }
}

proof fn lemma_leaf_ordered(ws: Seq<ViolationView>)
    ensures
        leaf_ordered(leaf_for(ws)),
{
    let l = leaf_for(ws);
    lemma_sort_unique_sorted(ws.map_values(|v: ViolationView| ref_file(v)));
    lemma_strictly_sorted_no_dup(l.files);
    assert(l.violations.no_duplicates() && forall|i: int, j: int|
        0 <= i < j < l.violations.len() ==> !(l.violations[i] == ViolationType::Privacy
            && l.violations[j] == ViolationType::Dependency)) by {
        if has_kind(ws, ViolationType::Dependency) && has_kind(ws, ViolationType::Privacy) {
            assert(l.violations =~= seq![ViolationType::Dependency, ViolationType::Privacy]);
        } else if has_kind(ws, ViolationType::Dependency) {
            assert(l.violations =~= seq![ViolationType::Dependency]);
        } else if has_kind(ws, ViolationType::Privacy) {
            assert(l.violations =~= seq![ViolationType::Privacy]);
        } else {
            assert(l.violations =~= Seq::<ViolationType>::empty());
        }
    }
}

proof fn lemma_entries_ordered(vs: Seq<ViolationView>)
    ensures
        entries_ordered(entries_for_pack(vs)),
{
    let es = entries_for_pack(vs);
    let keys = sort_unique_strs(vs.map_values(|v: ViolationView| cname_of(v)));
    lemma_sort_unique_sorted(vs.map_values(|v: ViolationView| cname_of(v)));
    assert forall|a: int| 0 <= a < es.len() implies leaf_ordered((#[trigger] es[a]).1) by {
        lemma_leaf_ordered(vs.filter(|v: ViolationView| cname_of(v) == keys[a]));
    }
}

/// Every deprecation structure the grouper emits is fully ordered:
/// violated packages and constant keys strictly ascending, and each
/// leaf's kind and file lists sorted and duplicate-free.
pub proof fn lemma_deprecation_output_ordered(vs: Seq<ViolationView>, g: int)
    requires
        0 <= g < deprecated_references_view(vs).len(),
    ensures
        tree_ordered(deprecated_references_view(vs)[g].deprecated_references),
{
    let groups = firsts(vs.map_values(|v: ViolationView| v.violating_pack));
    let sub = vs.filter(|v: ViolationView| v.violating_pack == groups[g]);
    let t = tree_for(sub);
    let keys = sort_unique_strs(sub.map_values(|v: ViolationView| v.violated_pack));
    lemma_sort_unique_sorted(sub.map_values(|v: ViolationView| v.violated_pack));
    assert forall|a: int| 0 <= a < t.len() implies entries_ordered((#[trigger] t[a]).1) by {
        lemma_entries_ordered(sub.filter(|v: ViolationView| v.violated_pack == keys[a]));
    }
    assert(deprecated_references_view(vs)[g].deprecated_references == t);
}

/// The grouper is a function of the violation values alone: equal
/// violation sequences yield identical deprecation structures, so a
/// second run over the same violations reproduces its output exactly.
pub proof fn lemma_grouper_deterministic(a: Seq<ViolationView>, b: Seq<ViolationView>)
    requires
        a == b,
    ensures
        deprecated_references_view(a) == deprecated_references_view(b),
{
}

} // verus!
