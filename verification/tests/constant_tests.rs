use packlint::ast::constant::{nest_constants, CaretPos, Constant, Loc};
use packlint::files::{package_name_from_root, paths_to_scan};
use packlint::resolver::ast_resolver::resolve;

fn loc_at(path: &str, line: usize) -> Loc {
    Loc {
        path: path.to_owned(),
        root_path: "./".to_owned(),
        begin: CaretPos { line, column: 1 },
        end: CaretPos { line, column: 1 },
    }
}

fn constant() -> Constant {
    Constant {
        scope: Some("A::B::C".to_owned()),
        name: "InC".to_owned(),
        loc: Loc {
            path: "./fixtures/nested_classes.rb".to_owned(),
            root_path: "./".to_owned(),
            begin: CaretPos { line: 1, column: 1 },
            end: CaretPos { line: 1, column: 1 },
        },
    }
}

#[test]
fn test_qualified() {
    assert_eq!(constant().qualified(), "A::B::C::InC".to_owned());
}

#[test]
fn test_nestings() {
    assert_eq!(constant().nestings(), vec!["A::B::C::InC", "A::B::InC", "A::InC", "InC"].to_owned());
}

#[test]
fn test_nestings_without_scope() {
    let c = Constant { scope: None, name: "Foo".to_owned(), loc: loc_at("./a.rb", 1) };
    assert_eq!(c.nestings(), vec!["Foo"]);
    assert_eq!(c.qualified(), "Foo");
}

fn raw(scope: Option<&str>, name: &str, path: &str, line: usize) -> Constant {
    Constant { scope: scope.map(|s| s.to_owned()), name: name.to_owned(), loc: loc_at(path, line) }
}

#[test]
fn test_nested_classes_definitions() {
    // class A; class B; class C; InC = 1; end; end; end
    // Walking outward from the innermost body, each class prefixes the
    // scope of everything collected inside it.
    let p = "./fixtures/nested_classes.rb";
    let in_c = vec![raw(None, "InC", p, 4)];
    let mut c_level = vec![raw(None, "C", p, 3)];
    c_level.extend(nest_constants("C", in_c));
    let mut b_level = vec![raw(None, "B", p, 2)];
    b_level.extend(nest_constants("B", c_level));
    let mut a_level = vec![raw(None, "A", p, 1)];
    a_level.extend(nest_constants("A", b_level));

    let names: Vec<String> = a_level.iter().map(|c| c.qualified()).collect();
    assert_eq!(names, vec!["A", "A::B", "A::B::C", "A::B::C::InC"]);
}

#[test]
fn test_root_reference_resolution() {
    // class Foo; Bar = 1; end; class Baz; ::Foo::Bar; end
    let p = "./fixtures/root_reference.rb";
    let defs = vec![
        raw(None, "Foo", p, 1),
        raw(Some("Foo"), "Bar", p, 2),
        raw(None, "Baz", p, 4),
    ];
    let refs = vec![raw(Some("Baz"), "::Foo::Bar", p, 5)];
    let resolved = resolve(&defs, &refs);
    assert_eq!(resolved.len(), 1);
    assert_eq!(resolved[0].name, "Foo::Bar");
    assert_eq!(resolved[0].loc.begin.line, 5);
}

#[test]
fn test_rooted_reference_never_matches_outer() {
    // Only Outer::Foo::Bar is defined: a `::Foo::Bar` reference must not
    // resolve to it.
    let p = "./x.rb";
    let defs = vec![
        raw(None, "Outer", p, 1),
        raw(Some("Outer"), "Foo", p, 2),
        raw(Some("Outer::Foo"), "Bar", p, 3),
    ];
    let refs = vec![raw(Some("Elsewhere"), "::Foo::Bar", p, 9)];
    let resolved = resolve(&defs, &refs);
    assert!(resolved.is_empty());
}

#[test]
fn test_nesting_precedence() {
    // module A; X = 1; module B; X = 2; end; end — a reference to X from
    // inside A::B takes A::B::X, not A::X.
    let p = "./precedence.rb";
    let defs = vec![
        raw(None, "A", p, 1),
        raw(Some("A"), "X", p, 2),
        raw(Some("A"), "B", p, 3),
        raw(Some("A::B"), "X", p, 4),
    ];
    let refs = vec![raw(Some("A::B"), "X", p, 8)];
    let resolved = resolve(&defs, &refs);
    assert_eq!(resolved.len(), 1);
    assert_eq!(resolved[0].name, "A::B::X");
}

#[test]
fn test_outer_nesting_used_when_inner_missing() {
    let p = "./precedence.rb";
    let defs = vec![raw(None, "A", p, 1), raw(Some("A"), "X", p, 2)];
    let refs = vec![raw(Some("A::B"), "X", p, 8)];
    let resolved = resolve(&defs, &refs);
    assert_eq!(resolved.len(), 1);
    assert_eq!(resolved[0].name, "A::X");
}

#[test]
fn test_unresolved_reference_dropped() {
    let p = "./drop.rb";
    let defs = vec![raw(None, "A", p, 1)];
    let refs = vec![raw(None, "Missing", p, 2)];
    assert!(resolve(&defs, &refs).is_empty());
}

#[test]
fn test_resolver_output_sorted_by_line() {
    let p = "./sorted.rb";
    let defs = vec![raw(None, "A", p, 1), raw(None, "B", p, 2)];
    let refs = vec![
        raw(None, "B", p, 9),
        raw(None, "A", p, 3),
        raw(None, "A", p, 9),
    ];
    let resolved = resolve(&defs, &refs);
    let lines: Vec<usize> = resolved.iter().map(|r| r.loc.begin.line).collect();
    assert_eq!(lines, vec![3, 9, 9]);
    // equal lines keep their input order
    assert_eq!(resolved[1].name, "B");
    assert_eq!(resolved[2].name, "A");
}

#[test]
fn test_relative_path() {
    let l = Loc {
        path: "/proj/p1/app/models/a.rb".to_owned(),
        root_path: "/proj".to_owned(),
        begin: CaretPos { line: 1, column: 1 },
        end: CaretPos { line: 1, column: 1 },
    };
    assert_eq!(l.relative_path(), "p1/app/models/a.rb");
}

#[test]
fn test_package_name_from_root() {
    assert_eq!(package_name_from_root("/proj", "/proj/packs/billing"), "packs/billing");
    assert_eq!(package_name_from_root("/proj", "/proj"), "root");
}

#[test]
fn test_paths_to_scan() {
    let none: Vec<String> = Vec::new();
    assert_eq!(paths_to_scan("/proj", &none), vec!["/proj"]);
    let some = vec!["packs".to_owned(), "components".to_owned()];
    assert_eq!(paths_to_scan("/proj", &some), vec!["/proj/packs", "/proj/components"]);
}
