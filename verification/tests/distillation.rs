use steampipe::batch::distillation::canon::{FileInfo, Language, Reference};
use steampipe::batch::distillation::transforms::comments_ast::{remove_comments, CommentRemoval};
use steampipe::batch::distillation::transforms::debug_remover::DebugRemover;
use steampipe::batch::distillation::transforms::import_simplifier::ImportSimplifier;
use steampipe::batch::distillation::transforms::literals::{omitted_note_text, LiteralShrinker};
use steampipe::batch::distillation::transforms::skeleton::{SkeletonMode, Skeletonizer};
use steampipe::batch::distillation::transforms::strategy::{
    has_overlap, hits_in_source, query_ranges, ranges_of_hits, take_candidates, Capture, CompressionStrategy, Edit, QueryHit,
};
use steampipe::batch::distillation::transforms::symbol_pruner::SymbolPruner;
use steampipe::batch::distillation::canon::CanonSymbol;
use steampipe::batch::distillation::graph::{GraphNode, ProjectGraph};
use steampipe::batch::distillation::pipeline::{distill_file, file_edits, layer_file_edits, FileDistillation};
use steampipe::batch::fidelity::Fidelity;
use steampipe::batch::distillation::plan::StrategyKind;

fn grammar(lang: Language) -> tree_sitter::Language {
    match lang {
        Language::Rust => tree_sitter_rust::language(),
        Language::Ruby => tree_sitter_ruby::language(),
        Language::CSharp => tree_sitter_c_sharp::language(),
        Language::Kotlin => tree_sitter_kotlin::language(),
        Language::Swift => tree_sitter_swift::language(),
        _ => panic!("no grammar for {:?}", lang),
    }
}

fn parse(source: &str, lang: Language) -> tree_sitter::Tree {
    let mut p = tree_sitter::Parser::new();
    p.set_language(grammar(lang)).expect("Failed to create parser");
    p.parse(source, None).expect("Failed to parse source")
}

/// Applies non-overlapping edits to the source, last first.
fn apply(source: &str, mut edits: Vec<Edit>) -> String {
    edits.sort_by(|a, b| b.start.cmp(&a.start));
    let mut out = source.to_string();
    for e in edits {
        out.replace_range(e.start..e.end, &e.replacement);
    }
    out
}

fn get_strategy_edits(strategy: &dyn CompressionStrategy, source: &str, lang: Language, info: &FileInfo) -> String {
    let tree = parse(source, lang);
    let edits = strategy.get_edits(source, &tree, &lang, info);
    apply(source, edits)
}

fn no_graph() -> ProjectGraph {
    ProjectGraph { nodes: vec![], edges: vec![] }
}

fn empty_info(lang: Language) -> FileInfo {
    FileInfo {
        path: "test".to_string(),
        language: lang,
        symbols: vec![],
        references: vec![],
        original_tokens: 0,
    }
}

#[test]
fn test_new_languages_distillation() {
    // 1. C# (CSharp) Tests
    {
        let source = "class Program {\n    void Main() {\n        Console.WriteLine(\"Debug log\");\n    }\n}";

        // Test Skeletonizer (ArchitecturalOnly)
        let s_arch = Skeletonizer::new(SkeletonMode::ArchitecturalOnly);
        let res = get_strategy_edits(&s_arch, source, Language::CSharp, &empty_info(Language::CSharp));
        assert!(res.contains("class Program"));
        assert!(!res.contains("Console.WriteLine"));

        // Test DebugRemover
        let debug_rem = DebugRemover;
        let res = get_strategy_edits(&debug_rem, source, Language::CSharp, &empty_info(Language::CSharp));
        assert!(!res.contains("Console.WriteLine"));
    }

    // 2. Kotlin Tests
    {
        let source = "import foo.bar.UsedClass\nimport foo.bar.UnusedClass\nfun test(param: String): Int {\n    println(\"debug log\")\n    return 0\n}";

        // Test ImportSimplifier
        let info = FileInfo {
            path: "test.kt".to_string(),
            language: Language::Kotlin,
            symbols: vec![],
            references: vec![Reference { name: "UsedClass".to_string(), byte_offset: 0 }],
            original_tokens: 0,
        };
        let imp_simp = ImportSimplifier;
        let res = get_strategy_edits(&imp_simp, source, Language::Kotlin, &info);
        assert!(res.contains("import foo.bar.UsedClass"));
        assert!(res.contains("// Unused import foo.bar.UnusedClass pruned"));

        // Test Skeletonizer (TypesAndSignatures)
        let s_types = Skeletonizer::new(SkeletonMode::TypesAndSignatures);
        let res = get_strategy_edits(&s_types, source, Language::Kotlin, &info);
        assert!(res.contains("fun test(param: String): Int") && res.contains("{ ... }"));
    }

    // 3. Swift Tests
    {
        let source = "func hello() {\n    print(\"debug log\")\n}";
        let res = get_strategy_edits(&DebugRemover, source, Language::Swift, &empty_info(Language::Swift));
        assert!(!res.contains("print(\"debug log\")"));
    }

    // 4. Ruby Tests
    {
        let source = "def my_method\n    puts \"debug log\"\nend";

        // Test DebugRemover
        let res = get_strategy_edits(&DebugRemover, source, Language::Ruby, &empty_info(Language::Ruby));
        assert!(!res.contains("puts"));

        // Test Skeletonizer (TypesAndSignatures)
        let s_types = Skeletonizer::new(SkeletonMode::TypesAndSignatures);
        let res = get_strategy_edits(&s_types, source, Language::Ruby, &empty_info(Language::Ruby));
        assert!(res.contains("def my_method") && res.contains("# ...") && res.contains("end"));
    }

    // 5. Test ImportSimplifier multi-import grouping (Rust)
    {
        let source = "use std::path::{Path, PathBuf};\nfn main() { let x: PathBuf = PathBuf::new(); }";
        let info = FileInfo {
            path: "main.rs".to_string(),
            language: Language::Rust,
            symbols: vec![],
            references: vec![Reference { name: "PathBuf".to_string(), byte_offset: 0 }],
            original_tokens: 0,
        };
        let imp_simp = ImportSimplifier;
        let res = get_strategy_edits(&imp_simp, source, Language::Rust, &info);
        // Path is unused but PathBuf is used, so the statement MUST NOT be pruned!
        assert!(res.contains("use std::path::{Path, PathBuf};"));
        assert!(!res.contains("pruned"));
    }

    // 6. Test has_overlap fix
    {
        let edits = vec![Edit { start: 10, end: 25, replacement: "".to_string() }];
        // Check partial overlap [20, 30] which overlaps with [10, 25]
        assert!(has_overlap(&edits, 20, 30));
    }
}

#[test]
fn overlap_checks() {
    let edits = vec![
        Edit { start: 0, end: 5, replacement: String::new() },
        Edit { start: 10, end: 15, replacement: String::new() },
        Edit { start: 20, end: 25, replacement: String::new() },
    ];
    assert!(!has_overlap(&edits, 5, 10));
    assert!(has_overlap(&edits, 4, 6));
    assert!(has_overlap(&edits, 12, 13));
    assert!(has_overlap(&edits, 10, 11));
    assert!(!has_overlap(&edits, 15, 20));
    assert!(has_overlap(&edits, 24, 40));
    assert!(!has_overlap(&edits, 25, 40));
    assert!(!has_overlap(&[], 0, 100));
}

#[test]
fn comments_go_with_their_line_break() {
    let src = "a // one\nb /* two */\r\nc /* three */\rd";
    let tree = parse(src, Language::Rust);
    let out = get_strategy_edits(&CommentRemoval, src, Language::Rust, &empty_info(Language::Rust));
    assert_eq!(out, "a b c d");
    drop(tree);
    // Decisions on given ranges: the newline after a comment goes too.
    let bytes = b"x\n// c\ny";
    let edits = remove_comments(bytes, &[(2, 6), (3, 5)]);
    assert_eq!(edits.len(), 1);
    assert_eq!((edits[0].start, edits[0].end), (2, 7));
}

#[test]
fn debug_calls_are_removed_with_semicolon() {
    let src = "fn main() {\n    println!(\"x\");\n    let y = compute(1);\n    dbg!(y);\n}";
    let out = get_strategy_edits(&DebugRemover, src, Language::Rust, &empty_info(Language::Rust));
    assert!(!out.contains("println"));
    assert!(!out.contains("dbg!"));
    assert!(out.contains("compute(1)"));
    assert!(!out.contains("\"x\");"));
}

#[test]
fn long_literals_are_shrunk() {
    let long = "a".repeat(120);
    let src = format!("fn main() {{ let s = \"{}\"; let t = \"short\"; }}", long);
    let shrinker = LiteralShrinker::new(100);
    let out = get_strategy_edits(&shrinker, &src, Language::Rust, &empty_info(Language::Rust));
    assert!(out.contains(" \"[OMITTED: 122 bytes]\" "));
    assert!(out.contains("\"short\""));
    assert_eq!(omitted_note_text(7), " \"[OMITTED: 7 bytes]\" ");
    assert_eq!(shrinker.shrink_literals(&[(0, 100)]).len(), 0);
    assert_eq!(shrinker.shrink_literals(&[(0, 101)])[0].replacement, " \"[OMITTED: 101 bytes]\" ");
}

#[test]
fn skeleton_modes() {
    let src = "struct P { x: i32, y: i32 }\nfn area(p: P) -> i32 {\n    p.x * p.y\n}\nfn z() {}";
    let arch = get_strategy_edits(&Skeletonizer::new(SkeletonMode::ArchitecturalOnly), src, Language::Rust, &empty_info(Language::Rust));
    assert!(arch.contains("struct P"));
    assert!(!arch.contains("fn area"));
    let types = get_strategy_edits(&Skeletonizer::new(SkeletonMode::TypesAndSignatures), src, Language::Rust, &empty_info(Language::Rust));
    assert!(types.contains("fn area(p: P) -> i32  { ... } "));
    assert!(types.contains("fn z() {}"));
    assert!(types.contains("x: i32"));
    let sigs = get_strategy_edits(&Skeletonizer::new(SkeletonMode::SignaturesOnly), src, Language::Rust, &empty_info(Language::Rust));
    assert!(sigs.contains("struct P ;"));
    assert!(!sigs.contains("x: i32"));
    assert_eq!(Skeletonizer::new(SkeletonMode::ArchitecturalOnly).destructiveness_score(&Language::Rust), 95);
}

#[test]
fn imports_unused_are_pruned() {
    let src = "use {std::collections::HashMap, std::fmt::Write};\nuse {std::fmt::Debug, std::io::Read};\nfn f(m: HashMap<u8, u8>) {}";
    let info = FileInfo {
        path: "lib.rs".to_string(),
        language: Language::Rust,
        symbols: vec![],
        references: vec![Reference { name: "HashMap".to_string(), byte_offset: 0 }],
        original_tokens: 0,
    };
    let out = get_strategy_edits(&ImportSimplifier, src, Language::Rust, &info);
    assert!(out.contains("use {std::collections::HashMap, std::fmt::Write};"));
    assert!(out.contains("// Unused import std::fmt::Debug, std::io::Read pruned\n"), "{:?}", out);
    assert!(ImportSimplifier.get_edits(src, &parse(src, Language::Rust), &Language::Ruby, &info).is_empty());
    assert!(!ImportSimplifier.is_safe_for_lang(&Language::C));
    assert_eq!(ImportSimplifier.destructiveness_score(&Language::Cpp), 80);
    assert_eq!(ImportSimplifier.destructiveness_score(&Language::Go), 5);
}

#[test]
fn rarely_used_functions_are_pruned() {
    let src = "fn used() {}\nfn lonely() { 1; }\nfn unknown() {}";
    let graph = ProjectGraph {
        nodes: vec![
            GraphNode::File("lib.rs".to_string()),
            GraphNode::Symbol { name: "used".to_string(), references: 7 },
            GraphNode::Symbol { name: "lonely".to_string(), references: 3 },
            GraphNode::Other,
            GraphNode::Symbol { name: "lonely".to_string(), references: 1 },
        ],
        edges: vec![],
    };
    let pruner = SymbolPruner::new(&graph);
    assert_eq!(pruner.references_of(&"lonely".to_string()), Some(1));
    assert_eq!(pruner.references_of(&"unknown".to_string()), None);
    let out = get_strategy_edits(&pruner, src, Language::Rust, &empty_info(Language::Rust));
    assert_eq!(out, "fn used() {}\n// Symbol lonely pruned\n\nfn unknown() {}");
}

#[test]
fn file_edits_follow_the_strategy_list() {
    let src = "fn main() {\n    // note\n    println!(\"x\");\n}";
    let tree = parse(src, Language::Rust);
    let pruner = SymbolPruner::new(&no_graph());
    let info = empty_info(Language::Rust);
    let list = [StrategyKind::CommentRemoval, StrategyKind::DebugRemover];
    let edits = file_edits(&list, &pruner, src, &tree, &Language::Rust, &info);
    let out = apply(src, edits);
    assert!(!out.contains("// note"));
    assert!(!out.contains("println"));
    // Import simplification is not safe for Ruby: it contributes nothing.
    let rb = "require 'x'\nputs 1";
    let rtree = parse(rb, Language::Ruby);
    let rinfo = empty_info(Language::Ruby);
    let none = file_edits(&[StrategyKind::ImportSimplifier], &pruner, rb, &rtree, &Language::Ruby, &rinfo);
    assert!(none.is_empty());
    assert!(file_edits(&[], &pruner, src, &tree, &Language::Rust, &info).is_empty());
}

#[test]
fn single_distillation_decides_per_file() {
    let src = "fn main() {\n    // note\n    let v = 1;\n    println!(\"x\");\n}";
    let tree = parse(src, Language::Rust);
    let pruner = SymbolPruner::new(&no_graph());
    let info = empty_info(Language::Rust);
    assert!(matches!(distill_file(true, false, &pruner, src, Some(&tree), &info), FileDistillation::Keep));
    assert!(matches!(distill_file(false, false, &pruner, src, None, &info), FileDistillation::Keep));
    // Importance 5: signatures only, so the body goes.
    match distill_file(false, false, &pruner, src, Some(&tree), &info) {
        FileDistillation::Edit(edits) => {
            assert!(edits.iter().any(|e| src[e.start..e.end].starts_with("// note")));
            assert!(edits.iter().any(|e| e.replacement == " { ... } " && src[e.start..e.end].contains("let v")));
            assert!(edits.iter().all(|e| !src[e.start..e.end].contains("fn main")));
        }
        _ => panic!("the file is distilled"),
    }
    // A focused, much used file keeps everything.
    let busy = FileInfo {
        path: "lib.rs".to_string(),
        language: Language::Rust,
        symbols: vec![CanonSymbol { name: "main".to_string(), references: 50 }],
        references: vec![],
        original_tokens: 0,
    };
    match distill_file(false, true, &pruner, src, Some(&tree), &busy) {
        FileDistillation::Edit(edits) => assert!(edits.is_empty()),
        _ => panic!("the file is distilled with no strategy"),
    }
    // Importance 45 without focus: comments go, code stays.
    match distill_file(false, false, &pruner, src, Some(&tree), &FileInfo {
        symbols: vec![CanonSymbol { name: "main".to_string(), references: 20 }],
        ..busy
    }) {
        FileDistillation::Edit(edits) => {
            let out = apply(src, edits);
            assert!(!out.contains("// note"));
            assert!(out.contains("let v = 1;"));
        }
        _ => panic!("the file is distilled"),
    }
}

#[test]
fn layer_edits_per_file() {
    let src = "fn main() {\n    // note\n    let v = 1;\n}";
    let tree = parse(src, Language::Rust);
    let info = empty_info(Language::Rust);
    assert!(layer_file_edits(Fidelity::L0, true, src, Some(&tree), &info).is_none());
    assert!(layer_file_edits(Fidelity::L0, false, src, None, &info).is_none());
    let l0 = layer_file_edits(Fidelity::L0, false, src, Some(&tree), &info).expect("the comment goes");
    assert_eq!(apply(src, l0), "fn main() {\n        let v = 1;\n}");
    let clean = "fn main() {}";
    let ctree = parse(clean, Language::Rust);
    assert!(layer_file_edits(Fidelity::L0, false, clean, Some(&ctree), &info).is_none());
    let l2 = layer_file_edits(Fidelity::L2, false, src, Some(&tree), &info).expect("the function goes");
    assert!(l2.iter().any(|e| e.replacement.is_empty() && src[e.start..e.end].starts_with("fn main")));
}

fn cand(start: usize, end: usize) -> Option<Edit> {
    Some(Edit { start, end, replacement: String::new() })
}

#[test]
fn ordered_candidates_give_disjoint_edits() {
    let mut taken = Vec::new();
    take_candidates(&mut taken, &vec![cand(0, 5), cand(3, 8), None, cand(5, 9), cand(9, 12), cand(10, 11)]);
    let ranges: Vec<(usize, usize)> = taken.iter().map(|e| (e.start, e.end)).collect();
    assert_eq!(ranges, vec![(0, 5), (5, 9), (9, 12)]);
    // Out of order, the search can miss an overlap: (12, 15) meets (10, 20).
    let mut unordered = Vec::new();
    take_candidates(&mut unordered, &vec![cand(10, 20), cand(0, 5), cand(12, 15)]);
    assert_eq!(unordered.len(), 3);
}

fn capture(name: &str, start: usize, end: usize) -> Capture {
    Capture { name: name.to_string(), start, end }
}

#[test]
fn captures_outside_the_source_are_left_out() {
    let hits = vec![
        QueryHit { captures: vec![capture("a", 1, 3), capture("b", 5, 2), capture("c", 4, 12)] },
        QueryHit { captures: vec![capture("d", 0, 10)] },
    ];
    assert_eq!(ranges_of_hits(&hits, 10), vec![(1, 3), (0, 10)]);
    let kept = hits_in_source(&hits, 10);
    assert_eq!(kept.len(), 2);
    let names: Vec<&str> = kept[0].captures.iter().map(|c| c.name.as_str()).collect();
    assert_eq!(names, vec!["a"]);
    assert_eq!((kept[1].captures[0].start, kept[1].captures[0].end), (0, 10));
    let src = "fn a() {}\nfn b() {}";
    let tree = parse(src, Language::Rust);
    assert_eq!(query_ranges(&tree, src, &["(function_item) @f", "(not_a_node) @x"]), vec![(0, 9), (10, 19)]);
    // An unknown name that runs to the end of the query is an error, not a crash.
    assert_eq!(query_ranges(&tree, src, &["(zzz", "(function_item name: (identifier) @n"]), vec![]);
    assert_eq!(query_ranges(&tree, src, &["(function_item) @f\n"]), vec![(0, 9), (10, 19)]);
}
