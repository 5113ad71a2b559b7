//! The package descriptors the analysis runs over, and the pure parts of
//! package discovery: which subtrees are scanned and how a package is
//! named after its root directory.

use crate::pathutil::{path_join, path_join_view, rel_path, rel_path_view};
use vstd::prelude::*;
use vstd::string::StrSliceExecFns;

verus! {

broadcast use crate::seqview::group_dvs;

/// A package: a named subtree of the project with its boundary manifest.
/// `dependencies` is `None` when the manifest declares no dependency list
/// at all, which forbids every outgoing reference just as an empty list
/// does.
#[derive(Clone, Debug)]
pub struct Package {
    pub name: String,
    pub root: String,
    pub enforce_dependencies: bool,
    pub enforce_privacy: bool,
    pub dependencies: Option<Vec<String>>,
}

/// The mathematical value of a `Package`.
pub ghost struct PackageView {
    pub name: Seq<char>,
    pub root: Seq<char>,
    pub enforce_dependencies: bool,
    pub enforce_privacy: bool,
    pub dependencies: Option<Seq<Seq<char>>>,
}

impl DeepView for Package {
    type V = PackageView;

    open spec fn deep_view(&self) -> PackageView {
        PackageView {
            name: self.name@,
            root: self.root@,
            enforce_dependencies: self.enforce_dependencies,
            enforce_privacy: self.enforce_privacy,
            dependencies: self.dependencies.deep_view(),
        }
    }
}

/// The name of the pseudo-package that owns every file outside all
/// declared package roots, and of a package rooted at the project root.
pub open spec fn root_name() -> Seq<char> {
    seq!['r', 'o', 'o', 't']
}

/// The string `root`, the sentinel package name.
pub fn root_string() -> (r: String)
    ensures
        r@ == root_name(),
{
    proof {
        reveal_strlit("root");
    }
    let r = "root".to_owned();
    proof {
        assert(r@ =~= root_name());
    }
    r
}

/// How a package is named: its root directory relative to the project
/// root, with the package at the project root itself named `root`.
pub open spec fn package_name_view(project_root: Seq<char>, package_root: Seq<char>) -> Seq<
    char,
> {
    let rel = rel_path_view(package_root, project_root);
    if rel.len() == 0 {
        root_name()
    } else {
        rel
    }
}

/// Computes `package_name_view`.
pub fn package_name_from_root(project_root: &str, package_root: &str) -> (r: String)
    ensures
        r@ == package_name_view(project_root@, package_root@),
{
    let rel = rel_path(package_root, project_root);
    if rel.as_str().unicode_len() == 0 {
        root_string()
    } else {
        rel
    }
}

/// The directories that discovery walks: the whole project root when no
/// package path is configured, else each configured subtree.
pub fn paths_to_scan(root_path: &str, package_paths: &Vec<String>) -> (r: Vec<String>)
    ensures
        package_paths@.len() == 0 ==> r.deep_view() =~= seq![root_path@],
        package_paths@.len() > 0 ==> r.deep_view() =~= package_paths.deep_view().map_values(
            |p: Seq<char>| path_join_view(root_path@, p),
        ),
{
    let ghost f = |p: Seq<char>| path_join_view(root_path@, p);
    let mut r: Vec<String> = Vec::new();
    if package_paths.len() == 0 {
        r.push(root_path.to_owned());
        r
    } else {
        let mut i: usize = 0;
        while i < package_paths.len()
            invariant
                i <= package_paths.len(),
                r.deep_view() == package_paths.deep_view().take(i as int).map_values(f),
                f == (|p: Seq<char>| path_join_view(root_path@, p)),
            decreases package_paths.len() - i,
        {
            r.push(path_join(root_path, package_paths[i].as_str()));
            proof {
                let pdv = package_paths.deep_view();
                assert(pdv.take(i + 1).map_values(f) =~= pdv.take(i as int).map_values(f).push(
                    f(pdv[i as int]),
                ));
                assert(r.deep_view() =~= pdv.take(i + 1).map_values(f));
            }
            i = i + 1;
        }
        proof {
            let pdv = package_paths.deep_view();
            assert(pdv.take(pdv.len() as int) =~= pdv);
        }
        r
    }
}

} // verus!
