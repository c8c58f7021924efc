use steampipe::batch::distillation::canon::{CanonSymbol, FileInfo, Language};
use steampipe::batch::distillation::compression::CompressionLevel;
use steampipe::batch::distillation::plan::{
    apply_token_diff, level_for_file, strategies_for_layer, strategies_for_level, strategies_for_target, StrategyKind,
};
use steampipe::batch::distillation::scoring::{calculate_importance, Importance};
use steampipe::batch::distillation::target_planner::{
    estimate_tokens, plan_steps, tokens_for_bytes, PlannerFile, TargetPlanner, TargetRun,
};
use steampipe::batch::distillation::transforms::skeleton::SkeletonMode;
use steampipe::batch::fidelity::Fidelity;

#[test]
fn compression_levels_from_scores() {
    assert_eq!(CompressionLevel::from_score(0), CompressionLevel::DropEntirely);
    assert_eq!(CompressionLevel::from_score(4), CompressionLevel::DropEntirely);
    assert_eq!(CompressionLevel::from_score(5), CompressionLevel::KeepSignatures);
    assert_eq!(CompressionLevel::from_score(14), CompressionLevel::KeepSignatures);
    assert_eq!(CompressionLevel::from_score(15), CompressionLevel::Skeletonize);
    assert_eq!(CompressionLevel::from_score(29), CompressionLevel::Skeletonize);
    assert_eq!(CompressionLevel::from_score(30), CompressionLevel::StripComments);
    assert_eq!(CompressionLevel::from_score(49), CompressionLevel::StripComments);
    assert_eq!(CompressionLevel::from_score(50), CompressionLevel::PreserveAll);
    assert_eq!(CompressionLevel::from_score(u64::MAX), CompressionLevel::PreserveAll);
    assert_eq!(level_for_file(5, true), CompressionLevel::StripComments);
    assert_eq!(level_for_file(150, true), CompressionLevel::PreserveAll);
    assert_eq!(level_for_file(5, false), CompressionLevel::KeepSignatures);
}

#[test]
fn importance_counts_references() {
    let file = FileInfo {
        path: "a.rs".to_string(),
        language: Language::Rust,
        symbols: vec![
            CanonSymbol { name: "a".to_string(), references: 3 },
            CanonSymbol { name: "b".to_string(), references: 2 },
        ],
        references: vec![],
        original_tokens: 0,
    };
    let imp = calculate_importance(&file, false);
    assert_eq!((imp.structural, imp.user_priority), (15, 0));
    assert_eq!(imp.total(), 15);
    let imp = calculate_importance(&file, true);
    assert_eq!(imp.total(), 115);
    let huge = Importance { structural: u64::MAX, user_priority: 100 };
    assert_eq!(huge.total(), u64::MAX);
}

#[test]
fn strategies_per_layer_and_level() {
    assert_eq!(strategies_for_layer(Fidelity::L0), vec![StrategyKind::CommentRemoval, StrategyKind::DebugRemover, StrategyKind::LiteralShrinker]);
    assert_eq!(
        strategies_for_layer(Fidelity::L1),
        vec![StrategyKind::CommentRemoval, StrategyKind::DebugRemover, StrategyKind::LiteralShrinker, StrategyKind::Skeleton(SkeletonMode::TypesAndSignatures)]
    );
    assert_eq!(
        strategies_for_layer(Fidelity::L2),
        vec![StrategyKind::CommentRemoval, StrategyKind::DebugRemover, StrategyKind::LiteralShrinker, StrategyKind::ImportSimplifier, StrategyKind::Skeleton(SkeletonMode::ArchitecturalOnly)]
    );
    assert!(strategies_for_level(CompressionLevel::PreserveAll).is_empty());
    assert_eq!(
        strategies_for_level(CompressionLevel::StripComments),
        vec![StrategyKind::CommentRemoval, StrategyKind::DebugRemover, StrategyKind::LiteralShrinker, StrategyKind::ImportSimplifier]
    );
    assert_eq!(
        strategies_for_level(CompressionLevel::Skeletonize),
        vec![StrategyKind::CommentRemoval, StrategyKind::DebugRemover, StrategyKind::LiteralShrinker, StrategyKind::ImportSimplifier, StrategyKind::Skeleton(SkeletonMode::TypesAndSignatures)]
    );
    assert_eq!(
        strategies_for_level(CompressionLevel::KeepSignatures),
        vec![
            StrategyKind::CommentRemoval,
            StrategyKind::DebugRemover,
            StrategyKind::LiteralShrinker,
            StrategyKind::ImportSimplifier,
            StrategyKind::Skeleton(SkeletonMode::SignaturesOnly),
            StrategyKind::SymbolPruner
        ]
    );
    assert_eq!(strategies_for_target().len(), 5);
    assert_eq!(StrategyKind::ImportSimplifier.score(&Language::C), 80);
    assert!(!StrategyKind::ImportSimplifier.safe_for(&Language::Ruby));
}

#[test]
fn steps_follow_destructiveness_then_importance() {
    let files = vec![
        PlannerFile { language: Language::Rust, excluded: false, importance: 50 },
        PlannerFile { language: Language::C, excluded: false, importance: 10 },
        PlannerFile { language: Language::Rust, excluded: true, importance: 0 },
    ];
    let strategies = vec![StrategyKind::Skeleton(SkeletonMode::TypesAndSignatures), StrategyKind::CommentRemoval, StrategyKind::ImportSimplifier];
    let steps = plan_steps(&files, &strategies);
    // comment (20) for the less important file first; C skips imports.
    assert_eq!(steps, vec![(0, 2), (1, 1), (0, 1), (1, 0), (0, 0)]);
    let planner = TargetPlanner::new(strategies.clone());
    assert_eq!(planner.steps(&files), steps);
}

#[test]
fn target_runs_stop_at_the_target() {
    let mut run = TargetRun::start(vec![(0, 0), (1, 0), (0, 1)], 100, 60, 2).unwrap();
    assert!(!run.achieved());
    assert_eq!(run.next_step(), Some((0, 0, true)));
    run.record_change(30, 10);
    assert_eq!(run.total_tokens(), 80);
    assert_eq!(run.next_step(), Some((1, 0, true)));
    run.record_change(10, 20);
    assert_eq!(run.total_tokens(), 80);
    assert_eq!(run.next_step(), Some((0, 1, false)));
    run.record_change(50, 0);
    assert_eq!(run.total_tokens(), 30);
    assert!(run.achieved());
    assert_eq!(run.next_step(), None);
    assert!(TargetRun::start(vec![(3, 0)], 1, 1, 2).is_none());
    let mut done = TargetRun::start(vec![(0, 0)], 5, 10, 1).unwrap();
    assert_eq!(done.next_step(), None);
}

#[test]
fn token_helpers() {
    assert_eq!(estimate_tokens("abcdefgh"), 2);
    assert_eq!(estimate_tokens("abc"), 0);
    assert_eq!(tokens_for_bytes(1000), 250);
    assert_eq!(apply_token_diff(10, -3), 7);
    assert_eq!(apply_token_diff(10, -30), 0);
    assert_eq!(apply_token_diff(10, 5), 15);
}
