//! A static package-boundary linter core: resolves constant references
//! under lexical-nesting scope rules across a project partitioned into
//! packages, attributes every constant to its owning package, and reports
//! dependency and privacy violations, regrouped into per-package
//! deprecation lists.

pub mod ast;
pub mod config;
pub mod files;
pub mod parser;
pub mod pathutil;
pub mod reference_graph;
pub mod resolver;
pub mod seqview;
pub mod strutil;
pub mod validator;

use crate::ast::{ParsedFile, ParsedFileView};
use crate::files::{Package, PackageView};
use crate::parser::{Project, ProjectView};
use crate::validator::{DeprecatedReferences, DeprecatedReferencesView, Violation};
use vstd::prelude::*;

verus! {

/// The attributed project that given inputs produce.
pub open spec fn project_view_of(
    pfs: Seq<ParsedFileView>,
    packages: Seq<PackageView>,
    public_path: Seq<char>,
    ignore: Seq<Seq<char>>,
) -> ProjectView {
    let defs = resolver::all_definitions(pfs);
    let refs = resolver::all_references(pfs);
    let resolved = resolver::ast_resolver::resolve_view(defs, refs);
    ProjectView {
        packages: packages,
        definitions: parser::kept_definitions(defs, ignore).map_values(
            |d: crate::ast::constant::ConstantView| parser::attr_definition(
                packages,
                public_path,
                d,
            ),
        ),
        references: resolved.map_values(
            |rr: crate::resolver::ResolvedReferenceView| parser::attr_reference(packages, rr),
        ),
    }
}

/// The deprecation structures that given inputs produce: the whole
/// pipeline as one function of its inputs.
pub open spec fn analyze_view(
    pfs: Seq<ParsedFileView>,
    packages: Seq<PackageView>,
    public_path: Seq<char>,
    ignore: Seq<Seq<char>>,
) -> Seq<DeprecatedReferencesView> {
    validator::deprecated_references_view(
        validator::validate_view(project_view_of(pfs, packages, public_path, ignore)),
    )
}

/// Runs the whole analysis: resolves the parsed files' references,
/// attributes everything to packages, validates the two boundary rules,
/// and regroups the violations into per-package deprecation structures.
pub fn analyze(
    parsed_files: Vec<ParsedFile>,
    packages: Vec<Package>,
    public_path: &str,
    ignore_constants: &Vec<String>,
) -> (r: (Project, Vec<Violation>, Vec<DeprecatedReferences>))
    ensures
        r.0.deep_view() == project_view_of(
            parsed_files.deep_view(),
            packages.deep_view(),
            public_path@,
            ignore_constants.deep_view(),
        ),
        r.1.deep_view() == validator::validate_view(r.0.deep_view()),
        r.2.deep_view() == analyze_view(
            parsed_files.deep_view(),
            packages.deep_view(),
            public_path@,
            ignore_constants.deep_view(),
        ),
{
    let ghost pfsdv = parsed_files.deep_view();
    let ghost pksdv = packages.deep_view();
    let (definitions, references) = resolver::resolve_references(parsed_files);
    let project = parser::apply_package_metadata(
        definitions,
        references,
        packages,
        public_path,
        ignore_constants,
    );
    let violations = validator::validate(&project);
    let deprecated = validator::deprecated_references(&violations);
    (project, violations, deprecated)
}

/// The whole pipeline is a function of its input values alone: equal
/// parsed files, packages and configuration yield identical deprecation
/// structures, so a re-run writes byte-identical files.
pub proof fn lemma_pipeline_deterministic(
    pfs1: Seq<ParsedFileView>,
    packages1: Seq<PackageView>,
    public_path1: Seq<char>,
    ignore1: Seq<Seq<char>>,
    pfs2: Seq<ParsedFileView>,
    packages2: Seq<PackageView>,
    public_path2: Seq<char>,
    ignore2: Seq<Seq<char>>,
)
    requires
        pfs1 == pfs2,
        packages1 == packages2,
        public_path1 == public_path2,
        ignore1 == ignore2,
    ensures
        analyze_view(pfs1, packages1, public_path1, ignore1) == analyze_view(
            pfs2,
            packages2,
            public_path2,
            ignore2,
        ),
{
}

} // verus!
