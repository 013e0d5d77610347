//! The position probe, the feature walks over the ancestor chain, the
//! protocol bridge, and the one-shot describe workspace.

use phplint::CachedSourceUnit;
use phplint::CallbackProgress;
use phplint::CodeTree;
use phplint::ConcreteType;
use phplint::FileLocation;
use phplint::NodeKind;
use phplint::PHPLanguageServerInstance;
use phplint::PHPLintConfig;
use phplint::PType;
use phplint::ParsedUnit;
use phplint::Point;
use phplint::QueryError;
use phplint::SymbolOccurrence;
use phplint::SymbolTable;
use phplint::SyntaxNode;
use phplint::SyntaxTree;
use phplint::TypeDefinition;
use phplint::Uri;
use phplint::Workspace;

fn node(
    kind: NodeKind,
    start: (u32, u32),
    end: (u32, u32),
    children: Vec<usize>,
) -> SyntaxNode {
    SyntaxNode {
        kind,
        start: Point {
            line: start.0,
            column: start.1,
        },
        end: Point {
            line: end.0,
            column: end.1,
        },
        children,
        symbols: vec![],
        node_type: None,
        description: None,
    }
}

fn foo_class_type() -> TypeDefinition {
    TypeDefinition {
        types: vec![ConcreteType {
            nullable: false,
            ptype: PType::Class("Foo".to_string(), "".to_string()),
        }],
    }
}

/// Root 0 spans lines 0..10; a member call on line 1 resolves symbol
/// "Foo"; inside it a name node carries a type and a description.
fn sample_tree() -> SyntaxTree {
    let mut root = node(NodeKind::Other, (0, 0), (10, 0), vec![1]);
    root.description = Some("the file".to_string());
    let mut call = node(NodeKind::MemberCallExpression, (1, 0), (1, 10), vec![2]);
    call.symbols = vec!["Foo".to_string()];
    call.node_type = Some(foo_class_type());
    let mut name = node(NodeKind::Name, (1, 2), (1, 6), vec![]);
    name.node_type = Some(foo_class_type());
    name.description = Some("name of Foo".to_string());
    SyntaxTree {
        nodes: vec![root, call, name],
    }
}

fn loc(path: &str, line: u32) -> FileLocation {
    FileLocation {
        path: path.to_string(),
        start: Point { line, column: 0 },
        end: Point { line, column: 10 },
    }
}

fn sample_unit(path: &str) -> CachedSourceUnit {
    let mut u = CachedSourceUnit::new(path.to_string());
    u.install_parsed(ParsedUnit {
        tree: sample_tree(),
        declarations: vec![SymbolOccurrence {
            name: "Foo".to_string(),
            location: loc(path, 3),
        }],
        references: vec![],
    });
    u
}

fn sample_instance() -> PHPLanguageServerInstance {
    let mut tree = CodeTree::new("/proj".to_string());
    tree.files.push(sample_unit("/proj/a.php"));
    let mut progress = CallbackProgress::new();
    tree.run_analysis(1, &mut progress).unwrap();
    let mut server = PHPLanguageServerInstance::new();
    server.codetrees.push(tree);
    server
}

fn file_uri(path: &str) -> Uri {
    Uri {
        scheme: "file".to_string(),
        path: path.to_string(),
    }
}

#[test]
fn probe_finds_smallest_enclosing_node_and_chain() {
    let tree = sample_tree();
    let (hit, path) = tree.probe_at(1, 3).unwrap();
    assert_eq!(hit, 2);
    assert_eq!(path, vec![0, 1]);
    // a coordinate inside the call but outside the name stops higher up
    let (hit2, path2) = tree.probe_at(1, 8).unwrap();
    assert_eq!(hit2, 1);
    assert_eq!(path2, vec![0]);
}

#[test]
fn probe_is_idempotent_on_an_unchanged_unit() {
    let tree = sample_tree();
    let first = tree.probe_at(1, 3);
    let second = tree.probe_at(1, 3);
    assert_eq!(first, second);
    let miss_first = tree.probe_at(20, 0);
    let miss_second = tree.probe_at(20, 0);
    assert_eq!(miss_first, miss_second);
}

#[test]
fn probe_without_enclosing_node_is_none_not_an_error() {
    let tree = sample_tree();
    assert_eq!(tree.probe_at(20, 0), None);
    let unit = sample_unit("/proj/a.php");
    let mut scratch = SymbolTable::new();
    // the probe runs the passes and answers quietly with nothing
    assert_eq!(
        unit.analyze_with_probe_at_position(20, 0, &mut scratch),
        Ok(None)
    );
    // the passes still ran: the declaration is in the scratch table
    assert!(scratch.contains(&"Foo".to_string()));
}

#[test]
fn probe_on_unparsed_unit_is_an_error() {
    let unit = CachedSourceUnit::new("/proj/a.php".to_string());
    let mut scratch = SymbolTable::new();
    assert!(unit
        .analyze_with_probe_at_position(1, 1, &mut scratch)
        .is_err());
}

#[test]
fn at_position_rejects_non_file_scheme() {
    let server = sample_instance();
    let uri = Uri {
        scheme: "https".to_string(),
        path: "/proj/a.php".to_string(),
    };
    assert!(matches!(
        server.at_position(&uri, 1, 3),
        Err(QueryError::InvalidScheme)
    ));
}

#[test]
fn at_position_outside_every_registry_is_not_found() {
    let server = sample_instance();
    let uri = file_uri("/other/b.php");
    assert!(matches!(
        server.at_position(&uri, 1, 3),
        Err(QueryError::NotFound)
    ));
}

#[test]
fn at_position_rejects_unrepresentable_coordinates() {
    let server = sample_instance();
    let uri = file_uri("/proj/a.php");
    assert!(matches!(
        server.at_position(&uri, u64::from(u32::MAX) + 1, 0),
        Err(QueryError::OutOfRange)
    ));
}

#[test]
fn at_position_misses_quietly() {
    let server = sample_instance();
    // a contained file the registry does not hold
    let unknown = file_uri("/proj/missing.php");
    assert!(matches!(server.at_position(&unknown, 1, 3), Ok(None)));
    // a coordinate no node encloses
    let known = file_uri("/proj/a.php");
    assert!(matches!(server.at_position(&known, 20, 0), Ok(None)));
}

#[test]
fn hover_definition_and_type_definition_from_one_probe() {
    let server = sample_instance();
    let uri = file_uri("/proj/a.php");
    let hit = server.at_position(&uri, 1, 3).unwrap().unwrap();
    assert_eq!(hit.node, 2);
    assert_eq!(hit.path, vec![0, 1]);
    // hover: the hit node's description
    assert_eq!(server.hover_for(&hit), Some("name of Foo".to_string()));
    // go-to-definition: the enclosing member call resolves Foo
    assert_eq!(
        server.definition_locations_for(&hit),
        vec![loc("/proj/a.php", 3)]
    );
    // go-to-declaration: the chain walk finds the same call node
    assert_eq!(
        server.declaration_locations_for(&hit),
        vec![loc("/proj/a.php", 3)]
    );
    // go-to-type-definition: the walk consults ancestors only; the
    // enclosing call's type names class Foo
    assert_eq!(
        server.type_definition_locations_for(&hit),
        vec![loc("/proj/a.php", 3)]
    );
}

#[test]
fn diagnostics_follow_the_owning_registry() {
    let mut tree = CodeTree::new("/proj".to_string());
    let mut u = CachedSourceUnit::new("/proj/bad.php".to_string());
    u.install_parsed(ParsedUnit {
        tree: SyntaxTree { nodes: vec![] },
        declarations: vec![],
        references: vec![SymbolOccurrence {
            name: "Missing".to_string(),
            location: loc("/proj/bad.php", 4),
        }],
    });
    tree.files.push(u);
    let mut progress = CallbackProgress::new();
    tree.run_analysis(1, &mut progress).unwrap();
    let mut server = PHPLanguageServerInstance::new();
    server.codetrees.push(tree);
    let issues = server.diagnostics_for_uri(&file_uri("/proj/bad.php"));
    assert_eq!(issues.len(), 1);
    assert_eq!(issues[0].message, "unresolved symbol Missing");
    assert!(server
        .diagnostics_for_uri(&file_uri("/elsewhere/x.php"))
        .is_empty());
}

#[test]
fn server_reanalysis_runs_every_root_and_coalesces() {
    let mut server = sample_instance();
    server.codetrees[0].symbol_data = None;
    assert!(server.reanalyze(Some(10)));
    assert!(!server.reanalyze(Some(11)));
    let mut progress = CallbackProgress::new();
    let events = server.reanalyze_run(8, &mut progress);
    assert!(server.codetrees[0].symbol_data.is_some());
    // the one-file root reaches 100 in pass 1; pass 2's percentage is
    // unchanged, so the de-duplicating reporter emits nothing more
    let rendered: Vec<(usize, &str)> = events
        .iter()
        .map(|e| (e.percent, e.category.as_str()))
        .collect();
    assert_eq!(rendered, vec![(100, "pass 1/2")]);
    let (completions, rerun) = server.reanalyze_finish();
    assert_eq!(completions, vec![10, 11]);
    assert!(rerun);
}

#[test]
fn describe_position_validates_and_describes() {
    let config = PHPLintConfig {
        root_folder: "/proj".to_string(),
        threads: 8,
    };
    let mut ws = Workspace::new(config);
    ws.codetree.files.push(sample_unit("/proj/a.php"));
    let file = "/proj/a.php".to_string();
    // one-based coordinates below one are rejected
    assert!(ws.describe_position(&file, 0, 5).is_err());
    assert!(ws.describe_position(&file, 5, 0).is_err());
    // an unregistered file is rejected
    assert!(ws
        .describe_position(&"/proj/missing.php".to_string(), 2, 4)
        .is_err());
    // (2, 4) one-based probes (1, 3) zero-based: the name node
    assert_eq!(
        ws.describe_position(&file, 2, 4),
        Ok(Some("FANT VIA ANALYZE: name of Foo".to_string()))
    );
    // a coordinate nothing encloses describes nothing, without an error
    assert_eq!(ws.describe_position(&file, 21, 1), Ok(None));
}
