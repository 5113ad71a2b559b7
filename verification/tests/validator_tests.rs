use packlint::ast::constant::{CaretPos, Constant, Loc};
use packlint::ast::ParsedFile;
use packlint::reference_graph::{Loc as GLoc, Node, NodeIndex, NodeType};
use packlint::resolver::ResolvedReference;
use packlint::config::{built_in_ignored_constants, ignored_constants};
use packlint::files::Package;
use packlint::parser::{apply_package_metadata, find_package, Definition, Project, Reference};
use packlint::validator::{
    deprecated_references, deprecations_for_pack, validate, Violation, ViolationType,
};

fn vloc(path: &str, line: usize) -> Loc {
    Loc {
        path: path.to_owned(),
        root_path: "/proj".to_owned(),
        begin: CaretPos { line, column: 1 },
        end: CaretPos { line, column: 1 },
    }
}

fn package(name: &str, enforce_dependencies: bool, enforce_privacy: bool, dependencies: Option<Vec<&str>>) -> Package {
    Package {
        name: name.to_owned(),
        root: format!("/proj/{}", name),
        enforce_dependencies,
        enforce_privacy,
        dependencies: dependencies.map(|d| d.iter().map(|s| s.to_string()).collect()),
    }
}

fn definition(pack: &str, name: &str, public: bool, path: &str) -> Definition {
    Definition {
        package: pack.to_owned(),
        name: name.to_owned(),
        public,
        loc: vloc(path, 1),
    }
}

fn reference(pack: &str, name: &str, path: &str, line: usize) -> Reference {
    Reference { package: pack.to_owned(), name: name.to_owned(), loc: vloc(path, line) }
}

#[test]
fn test_dependency_violation() {
    // p1 declares only p2; p3 enforces dependencies; a reference from p1
    // to a constant of p3 is exactly one dependency violation.
    let project = Project {
        packages: vec![
            package("p1", false, false, Some(vec!["p2"])),
            package("p2", false, false, None),
            package("p3", true, false, None),
        ],
        definitions: vec![definition("p3", "Qux", false, "/proj/p3/app/qux.rb")],
        references: vec![reference("p1", "Qux", "/proj/p1/app/use.rb", 7)],
    };
    let violations = validate(&project);
    assert_eq!(violations.len(), 1);
    assert_eq!(violations[0].violation_type, ViolationType::Dependency);
    assert_eq!(violations[0].violated_pack, "p3");
    assert_eq!(violations[0].violating_pack, "p1");
    assert_eq!(violations[0].definition.name, "Qux");
    assert_eq!(violations[0].reference.name, "Qux");
}

#[test]
fn test_declared_dependency_not_violated() {
    let project = Project {
        packages: vec![
            package("p1", false, false, Some(vec!["p3"])),
            package("p3", true, false, None),
        ],
        definitions: vec![definition("p3", "Qux", false, "/proj/p3/app/qux.rb")],
        references: vec![reference("p1", "Qux", "/proj/p1/app/use.rb", 7)],
    };
    assert!(validate(&project).is_empty());
}

#[test]
fn test_absent_and_empty_dependency_lists_agree() {
    // An absent dependency list forbids outgoing references just as an
    // empty one does.
    for deps in [None, Some(vec![])] {
        let project = Project {
            packages: vec![package("p1", false, false, deps), package("p3", true, false, None)],
            definitions: vec![definition("p3", "Qux", false, "/proj/p3/app/qux.rb")],
            references: vec![reference("p1", "Qux", "/proj/p1/app/use.rb", 7)],
        };
        let violations = validate(&project);
        assert_eq!(violations.len(), 1);
        assert_eq!(violations[0].violation_type, ViolationType::Dependency);
    }
}

#[test]
fn test_unenforced_dependencies_draw_no_violation() {
    let project = Project {
        packages: vec![package("p1", false, false, None), package("p3", false, false, None)],
        definitions: vec![definition("p3", "Qux", false, "/proj/p3/app/qux.rb")],
        references: vec![reference("p1", "Qux", "/proj/p1/app/use.rb", 7)],
    };
    assert!(validate(&project).is_empty());
}

#[test]
fn test_privacy_violation() {
    let project = Project {
        packages: vec![package("p1", false, false, None), package("p2", false, true, None)],
        definitions: vec![definition("p2", "Secret", false, "/proj/p2/app/internal/secret.rb")],
        references: vec![reference("p1", "Secret", "/proj/p1/app/use.rb", 3)],
    };
    let violations = validate(&project);
    assert_eq!(violations.len(), 1);
    assert_eq!(violations[0].violation_type, ViolationType::Privacy);
    assert_eq!(violations[0].violated_pack, "p2");
    assert_eq!(violations[0].violating_pack, "p1");
}

#[test]
fn test_privacy_defeated_by_public_peer() {
    // Shared::Const is public under p2 and private under p3: no privacy
    // violation may be emitted for it, from any package.
    let project = Project {
        packages: vec![
            package("p1", false, false, None),
            package("p2", false, true, None),
            package("p3", false, true, None),
        ],
        definitions: vec![
            definition("p2", "Shared::Const", true, "/proj/p2/app/public/shared/const.rb"),
            definition("p3", "Shared::Const", false, "/proj/p3/app/internal/shared/const.rb"),
        ],
        references: vec![reference("p1", "Shared::Const", "/proj/p1/app/use.rb", 2)],
    };
    let violations = validate(&project);
    assert!(violations.iter().all(|v| v.violation_type != ViolationType::Privacy));
}

#[test]
fn test_intra_package_reference_never_violates() {
    let project = Project {
        packages: vec![package("p1", true, true, None)],
        definitions: vec![definition("p1", "Own", false, "/proj/p1/app/own.rb")],
        references: vec![reference("p1", "Own", "/proj/p1/app/use.rb", 2)],
    };
    assert!(validate(&project).is_empty());
}

#[test]
fn test_root_violations_suppressed() {
    // A "root"-attributed definition draws no violation even when a
    // package named root would enforce its boundary.
    let project = Project {
        packages: vec![package("p1", false, false, None), package("root", true, true, None)],
        definitions: vec![definition("root", "Loose", false, "/proj/loose.rb")],
        references: vec![reference("p1", "Loose", "/proj/p1/app/use.rb", 2)],
    };
    assert!(validate(&project).is_empty());
}

#[test]
fn test_name_collision_fans_out() {
    // The same name in two enforcing packages: one reference yields one
    // violation per definition.
    let project = Project {
        packages: vec![
            package("p1", false, false, None),
            package("p2", true, false, None),
            package("p3", true, false, None),
        ],
        definitions: vec![
            definition("p2", "Dup", false, "/proj/p2/app/dup.rb"),
            definition("p3", "Dup", false, "/proj/p3/app/dup.rb"),
        ],
        references: vec![reference("p1", "Dup", "/proj/p1/app/use.rb", 4)],
    };
    let violations = validate(&project);
    assert_eq!(violations.len(), 2);
    let mut violated: Vec<String> = violations.iter().map(|v| v.violated_pack.clone()).collect();
    violated.sort();
    assert_eq!(violated, vec!["p2", "p3"]);
}

fn grouping_violation(kind: ViolationType, violated: &str, name: &str, file: &str) -> Violation {
    Violation {
        violation_type: kind,
        violated_pack: violated.to_owned(),
        violating_pack: "p1".to_owned(),
        definition: definition(violated, name, false, "/proj/def.rb"),
        reference: Reference {
            package: "p1".to_owned(),
            name: name.to_owned(),
            loc: vloc(file, 1),
        },
    }
}

#[test]
fn test_deprecation_grouping() {
    let violations = vec![
        grouping_violation(ViolationType::Dependency, "p2", "FooBar", "/proj/p1/app/a.rb"),
        grouping_violation(ViolationType::Privacy, "p2", "FooBar", "/proj/p1/app/b.rb"),
        grouping_violation(ViolationType::Dependency, "p3", "Qux", "/proj/p1/app/a.rb"),
    ];
    let grouped = deprecated_references(&violations);
    assert_eq!(grouped.len(), 1);
    assert_eq!(grouped[0].violating_pack, "p1");
    let tree = &grouped[0].deprecated_references;
    assert_eq!(tree.len(), 2);
    assert_eq!(tree[0].0, "p2");
    assert_eq!(tree[1].0, "p3");
    let p2_entries = &tree[0].1;
    assert_eq!(p2_entries.len(), 1);
    assert_eq!(p2_entries[0].0, "::FooBar");
    assert_eq!(
        p2_entries[0].1.violations,
        vec![ViolationType::Dependency, ViolationType::Privacy]
    );
    assert_eq!(p2_entries[0].1.files, vec!["p1/app/a.rb", "p1/app/b.rb"]);
    let p3_entries = &tree[1].1;
    assert_eq!(p3_entries.len(), 1);
    assert_eq!(p3_entries[0].0, "::Qux");
    assert_eq!(p3_entries[0].1.violations, vec![ViolationType::Dependency]);
    assert_eq!(p3_entries[0].1.files, vec!["p1/app/a.rb"]);
}

#[test]
fn test_deprecation_files_deduplicated() {
    let violations = vec![
        grouping_violation(ViolationType::Dependency, "p2", "FooBar", "/proj/p1/app/z.rb"),
        grouping_violation(ViolationType::Dependency, "p2", "FooBar", "/proj/p1/app/a.rb"),
        grouping_violation(ViolationType::Dependency, "p2", "FooBar", "/proj/p1/app/a.rb"),
    ];
    let grouped = deprecated_references(&violations);
    let entry = &grouped[0].deprecated_references[0].1[0].1;
    assert_eq!(entry.violations, vec![ViolationType::Dependency]);
    assert_eq!(entry.files, vec!["p1/app/a.rb", "p1/app/z.rb"]);
}

#[test]
fn test_grouper_rerun_is_identical() {
    let violations = vec![
        grouping_violation(ViolationType::Privacy, "p2", "FooBar", "/proj/p1/app/b.rb"),
        grouping_violation(ViolationType::Dependency, "p3", "Qux", "/proj/p1/app/a.rb"),
    ];
    let first = deprecated_references(&violations);
    let second = deprecated_references(&violations);
    assert_eq!(first.len(), second.len());
    for (x, y) in first.iter().zip(second.iter()) {
        assert_eq!(x.violating_pack, y.violating_pack);
        assert_eq!(x.deprecated_references.len(), y.deprecated_references.len());
        for (ex, ey) in x.deprecated_references.iter().zip(y.deprecated_references.iter()) {
            assert_eq!(ex.0, ey.0);
            assert_eq!(ex.1.len(), ey.1.len());
            for (cx, cy) in ex.1.iter().zip(ey.1.iter()) {
                assert_eq!(cx.0, cy.0);
                assert_eq!(cx.1.violations, cy.1.violations);
                assert_eq!(cx.1.files, cy.1.files);
            }
        }
    }
}

#[test]
fn test_deprecations_for_pack_filters() {
    let mut violations = vec![
        grouping_violation(ViolationType::Dependency, "p2", "FooBar", "/proj/p1/app/a.rb"),
    ];
    let mut other = grouping_violation(ViolationType::Dependency, "p2", "FooBar", "/proj/px/a.rb");
    other.violating_pack = "px".to_owned();
    other.reference.package = "px".to_owned();
    violations.push(other);
    let grouped = deprecated_references(&violations);
    assert_eq!(grouped.len(), 2);
    let only = deprecations_for_pack(grouped, "px");
    assert_eq!(only.len(), 1);
    assert_eq!(only[0].violating_pack, "px");
}

#[test]
fn test_find_package_takes_deepest_root() {
    let packages = vec![
        package("p1", false, false, None),
        Package {
            name: "p1/sub".to_owned(),
            root: "/proj/p1/sub".to_owned(),
            enforce_dependencies: false,
            enforce_privacy: false,
            dependencies: None,
        },
    ];
    let found = find_package("/proj/p1/sub/app/x.rb", &packages);
    assert_eq!(found, Some(("/proj/p1/sub".to_owned(), "p1/sub".to_owned())));
    let shallow = find_package("/proj/p1/app/x.rb", &packages);
    assert_eq!(shallow, Some(("/proj/p1".to_owned(), "p1".to_owned())));
    assert_eq!(find_package("/elsewhere/x.rb", &packages), None);
}

#[test]
fn test_apply_package_metadata() {
    let mk_loc = |path: &str| Loc {
        path: path.to_owned(),
        root_path: "/proj".to_owned(),
        begin: CaretPos { line: 1, column: 1 },
        end: CaretPos { line: 1, column: 1 },
    };
    let definitions = vec![
        Constant {
            scope: Some("Billing".to_owned()),
            name: "Invoice".to_owned(),
            loc: mk_loc("/proj/p1/app/public/billing/invoice.rb"),
        },
        Constant { scope: None, name: "Hidden".to_owned(), loc: mk_loc("/proj/p1/app/models/hidden.rb") },
        Constant { scope: None, name: "Loose".to_owned(), loc: mk_loc("/proj/script.rb") },
        Constant { scope: None, name: "Rails".to_owned(), loc: mk_loc("/proj/p1/app/rails.rb") },
    ];
    let references = vec![ResolvedReference {
        name: "Billing::Invoice".to_owned(),
        loc: mk_loc("/proj/p2/app/use.rb"),
    }];
    let packages = vec![package("p1", true, true, None), package("p2", false, false, None)];
    let ignore = ignored_constants(&Vec::new());
    let project = apply_package_metadata(definitions, references, packages, "app/public", &ignore);

    assert_eq!(project.definitions.len(), 3);
    assert_eq!(project.definitions[0].name, "Billing::Invoice");
    assert_eq!(project.definitions[0].package, "p1");
    assert!(project.definitions[0].public);
    assert_eq!(project.definitions[1].name, "Hidden");
    assert!(!project.definitions[1].public);
    assert_eq!(project.definitions[2].package, "root");
    assert!(!project.definitions[2].public);
    assert_eq!(project.references.len(), 1);
    assert_eq!(project.references[0].package, "p2");
    assert_eq!(project.references[0].name, "Billing::Invoice");
}

#[test]
fn test_ignored_constants_union() {
    let mine = vec!["MyGem".to_owned()];
    let all = ignored_constants(&mine);
    assert!(all.contains(&"MyGem".to_owned()));
    assert!(all.contains(&"Rails".to_owned()));
    assert_eq!(all.len(), 1 + built_in_ignored_constants().len());
}

#[test]
fn test_analyze_pipeline() {
    let mk_loc = |path: &str, line: usize| Loc {
        path: path.to_owned(),
        root_path: "/proj".to_owned(),
        begin: CaretPos { line, column: 1 },
        end: CaretPos { line, column: 1 },
    };
    let parsed_files = vec![
        ParsedFile {
            path: "/proj/p3/app/qux.rb".to_owned(),
            definitions: vec![Constant {
                scope: None,
                name: "Qux".to_owned(),
                loc: mk_loc("/proj/p3/app/qux.rb", 1),
            }],
            references: vec![],
        },
        ParsedFile {
            path: "/proj/p1/app/use.rb".to_owned(),
            definitions: vec![],
            references: vec![Constant {
                scope: None,
                name: "Qux".to_owned(),
                loc: mk_loc("/proj/p1/app/use.rb", 3),
            }],
        },
    ];
    let packages = vec![package("p1", false, false, Some(vec!["p2"])), package("p3", true, false, None)];
    let ignore: Vec<String> = Vec::new();
    let (project, violations, deprecated) =
        packlint::analyze(parsed_files, packages, "app/public", &ignore);
    assert_eq!(project.definitions.len(), 1);
    assert_eq!(project.references.len(), 1);
    assert_eq!(violations.len(), 1);
    assert_eq!(violations[0].violation_type, ViolationType::Dependency);
    assert_eq!(violations[0].violated_pack, "p3");
    assert_eq!(violations[0].violating_pack, "p1");
    assert_eq!(deprecated.len(), 1);
    assert_eq!(deprecated[0].violating_pack, "p1");
    assert_eq!(deprecated[0].deprecated_references[0].0, "p3");
    assert_eq!(deprecated[0].deprecated_references[0].1[0].0, "::Qux");
    assert_eq!(deprecated[0].deprecated_references[0].1[0].1.files, vec!["p1/app/use.rb"]);
}

#[test]
fn test_node_index() {
    let node = |name: &str, ty: NodeType| Node {
        node_type: ty,
        path: "/proj/a.rb".to_owned(),
        name: name.to_owned(),
        loc: GLoc { begin: 0, end: 3 },
    };
    let mut index = NodeIndex::new();
    let a = node("A", NodeType::Definition);
    let b = node("B", NodeType::Reference);
    assert_eq!(index.get_id_for_node(&a), None);
    assert_eq!(index.index(&a), 0);
    assert_eq!(index.index(&b), 1);
    assert_eq!(index.index(&a), 0);
    assert_eq!(index.get_id_for_node(&b), Some(1));
    assert_eq!(index.get_node_for_id(0).unwrap().name, "A");
    assert_eq!(index.get_node_for_id(1).unwrap().name, "B");
    assert!(index.get_node_for_id(2).is_none());
    // same fields but a different node type is a different node
    let a_ref = node("A", NodeType::Reference);
    assert_eq!(index.index(&a_ref), 2);
}

#[test]
fn test_validate_empty_project() {
    let project = Project { packages: vec![], definitions: vec![], references: vec![] };
    assert!(validate(&project).is_empty());
    assert!(deprecated_references(&Vec::new()).is_empty());
}

#[test]
fn test_deprecation_outer_keys_sorted_lexicographically() {
    let violations = vec![
        grouping_violation(ViolationType::Dependency, "b", "N1", "/proj/p1/app/a.rb"),
        grouping_violation(ViolationType::Dependency, "a/x", "N2", "/proj/p1/app/a.rb"),
        grouping_violation(ViolationType::Dependency, "a", "N3", "/proj/p1/app/a.rb"),
    ];
    let grouped = deprecated_references(&violations);
    let keys: Vec<String> =
        grouped[0].deprecated_references.iter().map(|e| e.0.clone()).collect();
    assert_eq!(keys, vec!["a", "a/x", "b"]);
}

#[test]
fn test_pipeline_rerun_identical() {
    let build_inputs = || {
        let mk_loc = |path: &str, line: usize| Loc {
            path: path.to_owned(),
            root_path: "/proj".to_owned(),
            begin: CaretPos { line, column: 1 },
            end: CaretPos { line, column: 1 },
        };
        let parsed_files = vec![
            ParsedFile {
                path: "/proj/p3/app/qux.rb".to_owned(),
                definitions: vec![Constant {
                    scope: None,
                    name: "Qux".to_owned(),
                    loc: mk_loc("/proj/p3/app/qux.rb", 1),
                }],
                references: vec![Constant {
                    scope: None,
                    name: "Qux".to_owned(),
                    loc: mk_loc("/proj/p3/app/qux.rb", 1),
                }],
            },
            ParsedFile {
                path: "/proj/p1/app/use.rb".to_owned(),
                definitions: vec![],
                references: vec![Constant {
                    scope: None,
                    name: "Qux".to_owned(),
                    loc: mk_loc("/proj/p1/app/use.rb", 3),
                }],
            },
        ];
        let packages =
            vec![package("p1", false, false, None), package("p3", true, true, None)];
        (parsed_files, packages)
    };
    let ignore: Vec<String> = Vec::new();
    let (i1, p1) = build_inputs();
    let (i2, p2) = build_inputs();
    let (_, _, first) = packlint::analyze(i1, p1, "app/public", &ignore);
    let (_, _, second) = packlint::analyze(i2, p2, "app/public", &ignore);
    assert_eq!(first.len(), second.len());
    for (x, y) in first.iter().zip(second.iter()) {
        assert_eq!(x.violating_pack, y.violating_pack);
        assert_eq!(x.deprecated_references.len(), y.deprecated_references.len());
        for (ex, ey) in x.deprecated_references.iter().zip(y.deprecated_references.iter()) {
            assert_eq!(ex.0, ey.0);
            for (cx, cy) in ex.1.iter().zip(ey.1.iter()) {
                assert_eq!(cx.0, cy.0);
                assert_eq!(cx.1.violations, cy.1.violations);
                assert_eq!(cx.1.files, cy.1.files);
            }
        }
    }
}
