use vstd::prelude::*;
use crate::batch::distillation::canon::Language;
use crate::batch::distillation::compression::{level_for_score, level_rank, CompressionLevel};
use crate::batch::distillation::transforms::comments_ast::CommentRemoval;
use crate::batch::distillation::transforms::debug_remover::DebugRemover;
use crate::batch::distillation::transforms::import_simplifier::ImportSimplifier;
use crate::batch::distillation::transforms::literals::LiteralShrinker;
use crate::batch::distillation::transforms::skeleton::{SkeletonMode, Skeletonizer};
use crate::batch::distillation::transforms::strategy::CompressionStrategy;
use crate::batch::fidelity::Fidelity;

verus! {

/// The compression strategies a distillation can apply.
#[derive(Debug, Clone, Copy, PartialEq, Eq, Structural)]
pub enum StrategyKind {
    CommentRemoval,
    DebugRemover,
    /// Literals longer than 100 bytes are shrunk.
    LiteralShrinker,
    ImportSimplifier,
    Skeleton(SkeletonMode),
    SymbolPruner,
}

/// How destructive a strategy is on a language, in hundredths.
pub open spec fn strategy_score(k: StrategyKind, lang: Language) -> nat {
    match k {
        StrategyKind::CommentRemoval => 20,
        StrategyKind::DebugRemover => 10,
        StrategyKind::LiteralShrinker => 40,
        StrategyKind::ImportSimplifier => if lang == Language::C || lang == Language::Cpp {
            80
        } else {
            5
        },
        StrategyKind::Skeleton(mode) => match mode {
            SkeletonMode::ArchitecturalOnly => 95,
            SkeletonMode::TypesAndSignatures => 70,
            SkeletonMode::SignaturesOnly => 90,
        },
        StrategyKind::SymbolPruner => 90,
    }
}

/// Whether a strategy may be used on a language: imports are only simplified
/// in Rust, JavaScript, TypeScript, TSX, Python, Java, Go and Kotlin.
pub open spec fn strategy_safe(k: StrategyKind, lang: Language) -> bool {
    match k {
        StrategyKind::ImportSimplifier => lang == Language::Rust || lang == Language::JavaScript || lang
            == Language::TypeScript || lang == Language::Tsx || lang == Language::Python || lang
            == Language::Java || lang == Language::Go || lang == Language::Kotlin,
        _ => true,
    }
}

impl StrategyKind {
    /// How destructive the strategy is on a language, in hundredths.
    pub fn score(&self, lang: &Language) -> (res: u32)
        ensures
            res as nat == strategy_score(*self, *lang),
    {
        match self {
            StrategyKind::CommentRemoval => CommentRemoval.destructiveness_score(lang),
            StrategyKind::DebugRemover => DebugRemover.destructiveness_score(lang),
            StrategyKind::LiteralShrinker => LiteralShrinker::new(100).destructiveness_score(lang),
            StrategyKind::ImportSimplifier => ImportSimplifier.destructiveness_score(lang),
            StrategyKind::Skeleton(mode) => Skeletonizer::new(*mode).destructiveness_score(lang),
            StrategyKind::SymbolPruner => 90,
        }
    }

    /// Whether the strategy may be used on a language.
    pub fn safe_for(&self, lang: &Language) -> (res: bool)
        ensures
            res == strategy_safe(*self, *lang),
    {
        match self {
            StrategyKind::ImportSimplifier => ImportSimplifier.is_safe_for_lang(lang),
            _ => true,
        }
    }
}

/// The strategies of a batch layer: comments, debug output and long literals
/// go in every layer; the skeletal layer also keeps only types and
/// signatures; the architectural layer also prunes unused imports and
/// removes functions whole.
pub open spec fn layer_strategies(f: Fidelity) -> Seq<StrategyKind> {
    match f {
        Fidelity::L0 => seq![StrategyKind::CommentRemoval, StrategyKind::DebugRemover, StrategyKind::LiteralShrinker],
        Fidelity::L1 => seq![
            StrategyKind::CommentRemoval,
            StrategyKind::DebugRemover,
            StrategyKind::LiteralShrinker,
            StrategyKind::Skeleton(SkeletonMode::TypesAndSignatures),
        ],
        Fidelity::L2 => seq![
            StrategyKind::CommentRemoval,
            StrategyKind::DebugRemover,
            StrategyKind::LiteralShrinker,
            StrategyKind::ImportSimplifier,
            StrategyKind::Skeleton(SkeletonMode::ArchitecturalOnly),
        ],
    }
}

/// The strategies of a batch layer, in the order they are applied.
pub fn strategies_for_layer(f: Fidelity) -> (res: Vec<StrategyKind>)
    ensures
        res@ == layer_strategies(f),
{
    match f {
        Fidelity::L0 => vec![StrategyKind::CommentRemoval, StrategyKind::DebugRemover, StrategyKind::LiteralShrinker],
        Fidelity::L1 => vec![
            StrategyKind::CommentRemoval,
            StrategyKind::DebugRemover,
            StrategyKind::LiteralShrinker,
            StrategyKind::Skeleton(SkeletonMode::TypesAndSignatures),
        ],
        Fidelity::L2 => vec![
            StrategyKind::CommentRemoval,
            StrategyKind::DebugRemover,
            StrategyKind::LiteralShrinker,
            StrategyKind::ImportSimplifier,
            StrategyKind::Skeleton(SkeletonMode::ArchitecturalOnly),
        ],
    }
}

/// The level a file is distilled at: from its importance score, and at least
/// `StripComments` when it is focused.
pub open spec fn file_level(score: nat, focused: bool) -> CompressionLevel {
    let l = level_for_score(score);
    if focused && level_rank(l) < level_rank(CompressionLevel::StripComments) {
        CompressionLevel::StripComments
    } else {
        l
    }
}

/// The level a file is distilled at.
pub fn level_for_file(score: u64, focused: bool) -> (res: CompressionLevel)
    ensures
        res == file_level(score as nat, focused),
{
    let l = CompressionLevel::from_score(score);
    if focused && l.rank() < CompressionLevel::StripComments.rank() {
        CompressionLevel::StripComments
    } else {
        l
    }
}

/// The strategies of a single distillation at a level: up to `StripComments`
/// comments, debug output, long literals and unused imports go; at
/// `Skeletonize` bodies go too; up to `KeepSignatures` bodies and fields go and
/// rarely used functions are pruned. (`DropEntirely` empties the file before
/// any strategy.)
pub open spec fn level_strategies(l: CompressionLevel) -> Seq<StrategyKind> {
    let base = if level_rank(l) <= 3 {
        seq![
            StrategyKind::CommentRemoval,
            StrategyKind::DebugRemover,
            StrategyKind::LiteralShrinker,
            StrategyKind::ImportSimplifier,
        ]
    } else {
        seq![]
    };
    let skel = if l == CompressionLevel::Skeletonize {
        base.push(StrategyKind::Skeleton(SkeletonMode::TypesAndSignatures))
    } else {
        base
    };
    if level_rank(l) <= 1 {
        skel.push(StrategyKind::Skeleton(SkeletonMode::SignaturesOnly)).push(StrategyKind::SymbolPruner)
    } else {
        skel
    }
}

/// The strategies of a single distillation at a level, in order.
pub fn strategies_for_level(l: CompressionLevel) -> (res: Vec<StrategyKind>)
    ensures
        res@ == level_strategies(l),
{
    let mut res: Vec<StrategyKind> = Vec::new();
    let r = l.rank();
    if r <= 3 {
        res.push(StrategyKind::CommentRemoval);
        res.push(StrategyKind::DebugRemover);
        res.push(StrategyKind::LiteralShrinker);
        res.push(StrategyKind::ImportSimplifier);
    }
    if l == CompressionLevel::Skeletonize {
        res.push(StrategyKind::Skeleton(SkeletonMode::TypesAndSignatures));
    }
    if r <= 1 {
        res.push(StrategyKind::Skeleton(SkeletonMode::SignaturesOnly));
        res.push(StrategyKind::SymbolPruner);
    }
    assert(res@ =~= level_strategies(l));
    res
}

/// The strategies that a compression target tries, gentlest first by score.
pub open spec fn target_strategies() -> Seq<StrategyKind> {
    seq![
        StrategyKind::CommentRemoval,
        StrategyKind::DebugRemover,
        StrategyKind::LiteralShrinker,
        StrategyKind::Skeleton(SkeletonMode::TypesAndSignatures),
        StrategyKind::Skeleton(SkeletonMode::SignaturesOnly),
    ]
}

/// The strategies that a compression target tries.
pub fn strategies_for_target() -> (res: Vec<StrategyKind>)
    ensures
        res@ == target_strategies(),
{
    vec![
        StrategyKind::CommentRemoval,
        StrategyKind::DebugRemover,
        StrategyKind::LiteralShrinker,
        StrategyKind::Skeleton(SkeletonMode::TypesAndSignatures),
        StrategyKind::Skeleton(SkeletonMode::SignaturesOnly),
    ]
}

/// A less important file never gets a gentler level than a more important
/// one, focus being equal.
pub proof fn law_level_follows_importance(a: nat, b: nat, focused: bool)
    requires
        a <= b,
    ensures
        level_rank(file_level(a, focused)) <= level_rank(file_level(b, focused)),
{
}

/// A focused file keeps at least its comments stripped only: it is never
/// skeletonized, pruned or dropped.
pub proof fn law_focused_files_keep_code(score: nat)
    ensures
        level_rank(file_level(score, true)) >= 3,
        !level_strategies(file_level(score, true)).contains(StrategyKind::SymbolPruner),
        !level_strategies(file_level(score, true)).contains(StrategyKind::Skeleton(SkeletonMode::TypesAndSignatures)),
        !level_strategies(file_level(score, true)).contains(StrategyKind::Skeleton(SkeletonMode::SignaturesOnly)),
{
    let l = file_level(score, true);
    let s = level_strategies(l);
    assert(l == CompressionLevel::StripComments || l == CompressionLevel::PreserveAll);
    if l == CompressionLevel::StripComments {
        assert(s =~= seq![
            StrategyKind::CommentRemoval,
            StrategyKind::DebugRemover,
            StrategyKind::LiteralShrinker,
            StrategyKind::ImportSimplifier,
        ]);
    } else {
        assert(s =~= Seq::<StrategyKind>::empty());
    }
}

/// A token count after a change of `diff` tokens, never below zero.
pub open spec fn token_count_after(total: int, diff: int) -> int {
    if total + diff < 0 {
        0
    } else {
        total + diff
    }
}

/// A layer manifest's token count after patching changed it by `diff`.
pub fn apply_token_diff(total: usize, diff: isize) -> (res: usize)
    requires
        total <= isize::MAX,
        total + diff <= isize::MAX,
    ensures
        res as int == token_count_after(total as int, diff as int),
{
    let t = total as isize + diff;
    if t < 0 {
        0
    } else {
        t as usize
    }
}

/// Every layer applies what the partial layer applies, first; the more
/// compressed layers only add strategies after it.
pub proof fn law_layers_extend_partial(f: Fidelity)
    ensures
        layer_strategies(f).len() >= layer_strategies(Fidelity::L0).len(),
        layer_strategies(f).take(layer_strategies(Fidelity::L0).len() as int) == layer_strategies(Fidelity::L0),
{
    assert(layer_strategies(f).take(3) =~= layer_strategies(Fidelity::L0));
}

} // verus!
