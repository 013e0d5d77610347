//! The two-pass scheduler, its round-robin plan, the symbol table, and
//! the diagnostic summary.

use phplint::issue_summary;
use phplint::plan_worker_queues;
use phplint::CachedSourceUnit;
use phplint::CallbackProgress;
use phplint::CodeTree;
use phplint::ConfigError;
use phplint::Diagnostic;
use phplint::FileLocation;
use phplint::ParsedUnit;
use phplint::Point;
use phplint::Severity;
use phplint::SymbolOccurrence;
use phplint::SymbolTable;
use phplint::SyntaxTree;
use phplint::Uri;

fn loc(path: &str, line: u32) -> FileLocation {
    FileLocation {
        path: path.to_string(),
        start: Point { line, column: 0 },
        end: Point { line, column: 10 },
    }
}

fn unit(path: &str, declares: &[(&str, u32)], references: &[(&str, u32)]) -> CachedSourceUnit {
    let mut u = CachedSourceUnit::new(path.to_string());
    u.install_parsed(ParsedUnit {
        tree: SyntaxTree { nodes: vec![] },
        declarations: declares
            .iter()
            .map(|(n, l)| SymbolOccurrence {
                name: n.to_string(),
                location: loc(path, *l),
            })
            .collect(),
        references: references
            .iter()
            .map(|(n, l)| SymbolOccurrence {
                name: n.to_string(),
                location: loc(path, *l),
            })
            .collect(),
    });
    u
}

fn three_file_tree() -> CodeTree {
    let mut tree = CodeTree::new("/proj".to_string());
    tree.files.push(unit("/proj/a.php", &[("Foo", 3)], &[]));
    tree.files.push(unit("/proj/b.php", &[], &[("Foo", 7)]));
    tree.files.push(unit("/proj/c.php", &[], &[("Bar", 9)]));
    tree
}

#[test]
fn zero_workers_is_rejected_before_any_work() {
    let mut tree = three_file_tree();
    let mut progress = CallbackProgress::new();
    assert_eq!(
        tree.run_analysis(0, &mut progress),
        Err(ConfigError::ZeroWorkers)
    );
    assert!(tree.symbol_data.is_none());
    assert!(tree.issues.is_empty());
}

#[test]
fn too_many_workers_is_rejected_before_any_work() {
    let mut tree = three_file_tree();
    let mut progress = CallbackProgress::new();
    for count in [65usize, 66, 1000] {
        assert_eq!(
            tree.run_analysis(count, &mut progress),
            Err(ConfigError::TooManyWorkers)
        );
    }
    assert!(tree.symbol_data.is_none());
    assert!(tree.run_analysis(64, &mut progress).is_ok());
}

#[test]
fn published_result_is_identical_for_every_worker_count() {
    let mut results = vec![];
    for count in [1usize, 2, 7, 64] {
        let mut tree = three_file_tree();
        let mut progress = CallbackProgress::new();
        assert!(tree.run_analysis(count, &mut progress).is_ok());
        let table = tree.symbol_data.as_ref().unwrap();
        let resolved = table.resolve(&"Foo".to_string());
        let issues: Vec<Diagnostic> = tree.issues;
        results.push((resolved, issues));
    }
    for pair in &results[1..] {
        assert_eq!(pair.0, results[0].0);
        assert_eq!(pair.1, results[0].1);
    }
}

#[test]
fn cross_file_reference_resolves_without_diagnostic() {
    let mut tree = three_file_tree();
    let mut progress = CallbackProgress::new();
    assert!(tree.run_analysis(2, &mut progress).is_ok());
    let table = tree.symbol_data.as_ref().unwrap();
    // file B's reference to Foo resolves to file A's declaration
    assert_eq!(table.resolve(&"Foo".to_string()), vec![loc("/proj/a.php", 3)]);
    // the only diagnostic is file C's unresolved Bar; none for B
    assert_eq!(tree.issues.len(), 1);
    assert_eq!(tree.issues[0].location.path, "/proj/c.php");
    assert_eq!(tree.issues[0].message, "unresolved symbol Bar");
    assert_eq!(tree.issues[0].severity, Severity::Error);
}

#[test]
fn unparsed_files_are_skipped_not_fatal() {
    let mut tree = CodeTree::new("/proj".to_string());
    tree.files.push(unit("/proj/a.php", &[("Foo", 1)], &[]));
    tree.files.push(CachedSourceUnit::new("/proj/broken.php".to_string()));
    let mut progress = CallbackProgress::new();
    assert!(tree.run_analysis(1, &mut progress).is_ok());
    assert!(tree.symbol_data.as_ref().unwrap().contains(&"Foo".to_string()));
    assert!(tree.issues.is_empty());
}

#[test]
fn round_robin_plan_interleaves_files() {
    let plan = plan_worker_queues(5, 2);
    assert_eq!(plan, vec![vec![0, 2, 4], vec![1, 3]]);
    let wide = plan_worker_queues(2, 4);
    assert_eq!(wide, vec![vec![0], vec![1], vec![], vec![]]);
}

#[test]
fn symbol_table_declare_and_resolve() {
    let mut t = SymbolTable::new();
    assert!(!t.contains(&"Foo".to_string()));
    t.declare("Foo".to_string(), loc("/a.php", 1));
    t.declare("Foo".to_string(), loc("/b.php", 2));
    t.declare("Bar".to_string(), loc("/c.php", 3));
    assert!(t.contains(&"Foo".to_string()));
    assert_eq!(
        t.resolve(&"Foo".to_string()),
        vec![loc("/a.php", 1), loc("/b.php", 2)]
    );
    assert_eq!(t.resolve(&"Bar".to_string()), vec![loc("/c.php", 3)]);
    assert_eq!(t.resolve(&"Baz".to_string()), vec![]);
}

#[test]
fn first_installed_parse_wins() {
    let mut u = CachedSourceUnit::new("/proj/a.php".to_string());
    assert!(!u.is_parsed());
    u.install_parsed(ParsedUnit {
        tree: SyntaxTree { nodes: vec![] },
        declarations: vec![SymbolOccurrence {
            name: "First".to_string(),
            location: loc("/proj/a.php", 1),
        }],
        references: vec![],
    });
    u.install_parsed(ParsedUnit {
        tree: SyntaxTree { nodes: vec![] },
        declarations: vec![SymbolOccurrence {
            name: "Second".to_string(),
            location: loc("/proj/a.php", 2),
        }],
        references: vec![],
    });
    assert!(u.is_parsed());
    assert_eq!(u.unit.as_ref().unwrap().declarations[0].name, "First");
}

#[test]
fn issues_are_filtered_by_file() {
    let mut tree = three_file_tree();
    let mut progress = CallbackProgress::new();
    tree.run_analysis(1, &mut progress).unwrap();
    let uri_c = Uri {
        scheme: "file".to_string(),
        path: "/proj/c.php".to_string(),
    };
    let uri_b = Uri {
        scheme: "file".to_string(),
        path: "/proj/b.php".to_string(),
    };
    let non_file = Uri {
        scheme: "untitled".to_string(),
        path: "/proj/c.php".to_string(),
    };
    assert_eq!(tree.get_issues_for_uri(&uri_c).len(), 1);
    assert_eq!(tree.get_issues_for_uri(&uri_b).len(), 0);
    assert_eq!(tree.get_issues_for_uri(&non_file).len(), 0);
}

#[test]
fn containment_is_path_prefix_under_file_scheme() {
    let tree = CodeTree::new("/proj".to_string());
    let inside = Uri {
        scheme: "file".to_string(),
        path: "/proj/sub/x.php".to_string(),
    };
    let outside = Uri {
        scheme: "file".to_string(),
        path: "/other/x.php".to_string(),
    };
    let wrong_scheme = Uri {
        scheme: "https".to_string(),
        path: "/proj/x.php".to_string(),
    };
    assert!(tree.contains_file(&inside));
    assert!(!tree.contains_file(&outside));
    assert!(!tree.contains_file(&wrong_scheme));
}

#[test]
fn new_for_url_takes_only_file_identifiers() {
    let tree = CodeTree::new_for_url("file:///proj/src", "proj".to_string()).unwrap();
    assert_eq!(tree.root_folder, "/proj/src");
    assert!(CodeTree::new_for_url("https://example.com/proj", "proj".to_string()).is_none());
    assert!(CodeTree::new_for_url("not a url", "proj".to_string()).is_none());
}

#[test]
fn summary_counts_each_kind() {
    let issues = vec![
        Diagnostic {
            severity: Severity::Error,
            location: loc("/a.php", 1),
            message: "one".to_string(),
            kind: 1,
        },
        Diagnostic {
            severity: Severity::Warning,
            location: loc("/a.php", 2),
            message: "two".to_string(),
            kind: 2,
        },
        Diagnostic {
            severity: Severity::Error,
            location: loc("/b.php", 3),
            message: "three".to_string(),
            kind: 1,
        },
    ];
    let mut summary = issue_summary(&issues);
    summary.sort();
    assert_eq!(summary, vec![(1, 2), (2, 1)]);
}

#[test]
fn position_holds_file_and_line() {
    let p = phplint::Position::new("/proj/a.php".to_string(), 12);
    assert_eq!(p.file, "/proj/a.php");
    assert_eq!(p.lineno, 12);
}

#[test]
fn table_duplicate_is_equal_and_independent() {
    let mut t = SymbolTable::new();
    t.declare("Foo".to_string(), loc("/a.php", 1));
    let copy = t.duplicate();
    t.declare("Bar".to_string(), loc("/b.php", 2));
    assert!(copy.contains(&"Foo".to_string()));
    assert!(!copy.contains(&"Bar".to_string()));
    assert_eq!(copy.resolve(&"Foo".to_string()), vec![loc("/a.php", 1)]);
}

#[test]
fn plan_with_one_worker_is_the_whole_registry() {
    assert_eq!(plan_worker_queues(3, 1), vec![vec![0, 1, 2]]);
    assert_eq!(plan_worker_queues(0, 2), vec![vec![], vec![]]);
}

#[test]
fn summary_of_no_issues_is_empty() {
    assert!(issue_summary(&vec![]).is_empty());
}

#[test]
fn run_reports_progress_per_file_and_pass() {
    let mut tree = three_file_tree();
    let mut progress = CallbackProgress::new();
    let events = tree.run_analysis(2, &mut progress).unwrap();
    let rendered: Vec<(usize, &str)> = events
        .iter()
        .map(|e| (e.percent, e.category.as_str()))
        .collect();
    // one report per file and pass against a bound of three files; the
    // label change restarts the counter for the second pass
    assert_eq!(
        rendered,
        vec![
            (33, "pass 1/2"),
            (66, "pass 1/2"),
            (100, "pass 1/2"),
            (33, "pass 2/2"),
            (66, "pass 2/2"),
            (100, "pass 2/2"),
        ]
    );
}

#[test]
fn repeated_percentages_are_deduplicated_across_a_run() {
    // 200 files at a bound of 200: two files share most percentages, so
    // the stream holds each changed percentage once per pass
    let mut tree = CodeTree::new("/proj".to_string());
    for k in 0..200 {
        tree.files
            .push(unit(&format!("/proj/f{}.php", k), &[], &[]));
    }
    let mut progress = CallbackProgress::new();
    let events = tree.run_analysis(1, &mut progress).unwrap();
    let pass1: Vec<usize> = events
        .iter()
        .filter(|e| e.category == "pass 1/2")
        .map(|e| e.percent)
        .collect();
    assert_eq!(pass1.len(), 100);
    let mut expected: Vec<usize> = (1..=100).collect();
    assert_eq!(pass1, expected.drain(..).collect::<Vec<usize>>());
}
