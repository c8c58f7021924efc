use steampipe::batch::fidelity::Fidelity as Layer;
use steampipe::batch::{default_embedding_provider, Batch, BatchManifest, FileInfo, Symbol, SymbolKind};
use steampipe::batch::resolver::{Fidelity, FidelityError};
use steampipe::commands::find_expand::{
    code_excerpt, expand_candidates, find_matches, render_ambiguity, render_find_text, run_expand, run_find,
    select_candidate, ExpandStep, FindOutput, Selection,
};
use steampipe::commands::ls_show::{display_name, sort_entries, sort_names, str_lex_le, FileEntry};
use steampipe::config::Config;

fn sym(name: &str, kind: SymbolKind, s: usize, e: usize) -> Symbol {
    Symbol { name: name.to_string(), kind, line_start: s, line_end: e, exported: true, signature: None }
}

fn index() -> Vec<FileInfo> {
    vec![
        FileInfo {
            path: "src/lib.rs".to_string(),
            symbols: vec![sym("helper", SymbolKind::Function, 1, 3), sym("Config", SymbolKind::Struct, 5, 9)],
        },
        FileInfo {
            path: "src/util.rs".to_string(),
            symbols: vec![sym("helper", SymbolKind::Function, 2, 4), sym("helpers_mod", SymbolKind::Module, 1, 1)],
        },
    ]
}

#[test]
fn find_lists_substring_matches_in_order() {
    let idx = index();
    let ms = find_matches(&idx, "help");
    let names: Vec<(&str, &str, &str)> =
        ms.iter().map(|m| (m.name.as_str(), m.kind.as_str(), m.file_path.as_str())).collect();
    assert_eq!(
        names,
        vec![
            ("helper", "Function", "src/lib.rs"),
            ("helper", "Function", "src/util.rs"),
            ("helpers_mod", "Module", "src/util.rs")
        ]
    );
    let text = render_find_text("help", &ms);
    assert_eq!(
        text,
        "Found 3 match(es) for 'help':\n  [Function] helper in src/lib.rs (Lines 1-3)\n  [Function] helper in src/util.rs (Lines 2-4)\n  [Module] helpers_mod in src/util.rs (Lines 1-1)\n"
    );
    assert_eq!(render_find_text("zzz", &find_matches(&idx, "zzz")), "Found 0 match(es) for 'zzz':\n");
}

#[test]
fn expand_picks_exact_names() {
    let idx = index();
    assert_eq!(expand_candidates(&idx, "helper"), vec![(0, 0), (1, 0)]);
    assert_eq!(expand_candidates(&idx, "Config"), vec![(0, 1)]);
    assert!(expand_candidates(&idx, "help").is_empty());
    assert_eq!(select_candidate(0, Some(0)), Selection::NotFound);
    assert_eq!(select_candidate(1, Some(5)), Selection::Chosen(0));
    assert_eq!(select_candidate(2, Some(1)), Selection::Chosen(1));
    assert_eq!(select_candidate(2, Some(2)), Selection::InvalidId);
    assert_eq!(select_candidate(2, None), Selection::Ambiguous(2));
    let paths = vec!["src/lib.rs".to_string(), "src/util.rs".to_string()];
    assert_eq!(
        render_ambiguity("helper", &paths),
        "Ambiguous symbol 'helper'. Found 2 matches:\n0: src/lib.rs\n1: src/util.rs\nUse --id <ID> to disambiguate.\n"
    );
}

#[test]
fn excerpts_take_the_symbol_lines() {
    let content = "l1\nl2\nl3\nl4";
    assert_eq!(code_excerpt(content, 2, 3), Some("l2\nl3".to_string()));
    assert_eq!(code_excerpt(content, 0, 1), Some("l1".to_string()));
    assert_eq!(code_excerpt(content, 3, 99), Some("l3\nl4".to_string()));
    assert_eq!(code_excerpt(content, 5, 99), Some("".to_string()));
    assert_eq!(code_excerpt(content, 6, 99), None);
    assert_eq!(code_excerpt(content, 3, 1), None);
}

#[test]
fn listings_are_sorted_and_named() {
    let entries = vec![
        FileEntry { name: "b.rs.dstl".to_string(), is_dir: false },
        FileEntry { name: "a".to_string(), is_dir: true },
        FileEntry { name: "B".to_string(), is_dir: false },
        FileEntry { name: "é.rs".to_string(), is_dir: false },
    ];
    let sorted = sort_entries(&entries);
    let names: Vec<&str> = sorted.iter().map(|e| e.name.as_str()).collect();
    assert_eq!(names, vec!["B", "a", "b.rs.dstl", "é.rs"]);
    assert_eq!(display_name("b.rs.dstl"), "b.rs");
    assert_eq!(display_name("dstl"), "dstl");
    assert_eq!(display_name(".dstl"), "");
    assert_eq!(display_name("main.rs"), "main.rs");
    let layers = vec!["L2_architectural".to_string(), "L0_partial".to_string(), "L1_skeletal".to_string()];
    assert_eq!(sort_names(&layers), vec!["L0_partial", "L1_skeletal", "L2_architectural"]);
    assert!(str_lex_le("ab", "abc"));
    assert!(!str_lex_le("abc", "ab"));
    assert!(str_lex_le("", ""));
}

#[test]
fn batch_layers_and_manifest() {
    let labels: Vec<&str> = Layer::all().iter().map(|f| f.label()).collect();
    assert_eq!(labels, vec!["L0_partial", "L1_skeletal", "L2_architectural"]);
    assert_eq!(default_embedding_provider(), "none");
    let manifest = BatchManifest {
        source: "/repo".to_string(),
        canon: "/out/canon.bin".to_string(),
        created: "2026-01-01T00:00:00Z".to_string(),
        embedding_provider: "openai".to_string(),
    };
    let batch = Batch::from_manifest("/out/batch_x".to_string(), manifest);
    assert_eq!(batch.root, "/out/batch_x");
    assert_eq!(batch.source_root, "/repo");
    assert_eq!(batch.embedding_provider, "openai");
    assert_eq!(SymbolKind::Interface.name(), "Interface");
    assert!(Config::default().last_batch.is_none());
}

#[test]
fn run_find_reports_or_lists() {
    let idx = index();
    match run_find(&idx, "Conf", false) {
        FindOutput::Report(t) => assert_eq!(t, "Found 1 match(es) for 'Conf':\n  [Struct] Config in src/lib.rs (Lines 5-9)\n"),
        FindOutput::Matches(_) => panic!("text was asked for"),
    }
    match run_find(&idx, "help", true) {
        FindOutput::Matches(ms) => assert_eq!(ms.len(), 3),
        FindOutput::Report(_) => panic!("JSON was asked for"),
    }
}

#[test]
fn run_expand_steps() {
    let idx = index();
    assert!(matches!(run_expand(&idx, "nothing", None, None, false), ExpandStep::NotFound));
    assert!(matches!(run_expand(&idx, "Config", None, None, false), ExpandStep::Read(0, 1, Fidelity::Source)));
    assert!(matches!(
        run_expand(&idx, "Config", Some("L1".to_string()), Some(7), false),
        ExpandStep::Read(0, 1, Fidelity::Skeletal)
    ));
    assert!(matches!(run_expand(&idx, "helper", None, None, true), ExpandStep::Ambiguous(2)));
    match run_expand(&idx, "helper", None, None, false) {
        ExpandStep::AmbiguousReport(t) => assert_eq!(
            t,
            "Ambiguous symbol 'helper'. Found 2 matches:\n0: src/lib.rs\n1: src/util.rs\nUse --id <ID> to disambiguate.\n"
        ),
        _ => panic!("two symbols have the name"),
    }
    assert!(matches!(run_expand(&idx, "helper", None, Some(1), false), ExpandStep::Read(1, 0, Fidelity::Source)));
    assert!(matches!(run_expand(&idx, "helper", None, Some(2), false), ExpandStep::InvalidId));
    match run_expand(&idx, "Config", Some("L9".to_string()), None, false) {
        ExpandStep::BadFidelity(FidelityError::UnknownFidelity(name)) => assert_eq!(name, "L9"),
        _ => panic!("L9 is not a level"),
    }
}
