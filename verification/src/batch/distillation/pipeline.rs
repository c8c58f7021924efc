use vstd::prelude::*;
use vstd::string::StringSliceAdditionalSpecFns;
use tree_sitter::Tree;
use crate::batch::distillation::canon::{FileInfo, Language};
use crate::batch::distillation::graph::{symbol_entries, ProjectGraph};
use crate::batch::distillation::compression::CompressionLevel;
use crate::batch::distillation::scoring::{calculate_importance, importance_score};
use crate::batch::fidelity::Fidelity;
use crate::batch::distillation::plan::{
    file_level, layer_strategies, level_for_file, level_strategies, strategies_for_layer, strategies_for_level, strategy_safe,
    StrategyKind,
};
use crate::batch::distillation::transforms::comments_ast::{comment_edits, comment_query_seq, CommentRemoval};
use crate::batch::distillation::transforms::debug_remover::{debug_edits, debug_queries, DebugRemover};
use crate::batch::distillation::transforms::import_simplifier::{import_edits, import_query, reference_names, ImportSimplifier};
use crate::batch::distillation::transforms::literals::{literal_edits, literal_queries, LiteralShrinker};
use crate::batch::distillation::transforms::skeleton::{
    primary_queries, secondary_queries, skeleton_edits, Skeletonizer,
};
use crate::batch::distillation::transforms::strategy::{
    captured_hits, captured_ranges, edits_view, hits_view, hits_within, CompressionStrategy, Edit, EditView, QueryHit,
};
use crate::batch::distillation::transforms::symbol_pruner::{definition_query, prune_edits, SymbolPruner};

verus! {

/// `edits` are what the strategy proposes for the source, from the captures
/// that its own queries for the language find on the tree (the import and
/// definition queries give matches, of which the edits are made).
pub open spec fn proposes(
    kind: StrategyKind,
    refs_of_symbols: Map<Seq<char>, usize>,
    tree: Tree,
    source: Seq<char>,
    src: Seq<u8>,
    lang: Language,
    refs: Seq<Seq<char>>,
    edits: Seq<EditView>,
) -> bool {
    let len = src.len() as int;
    match kind {
        StrategyKind::CommentRemoval => edits == comment_edits(
            src,
            captured_ranges(tree, source, len, comment_query_seq()),
        ),
        StrategyKind::DebugRemover => edits == debug_edits(src, captured_ranges(tree, source, len, debug_queries(lang))),
        StrategyKind::LiteralShrinker => edits == literal_edits(
            100,
            captured_ranges(tree, source, len, literal_queries(lang)),
        ),
        StrategyKind::ImportSimplifier => if import_query(lang).0@.len() == 0 {
            edits.len() == 0
        } else {
            exists|h: Seq<QueryHit>|
                hits_view(h) == captured_hits(tree, source, len, seq![import_query(lang).0]) && hits_within(h, len)
                    && edits == #[trigger] import_edits(src, h, refs)
        },
        StrategyKind::Skeleton(mode) => edits == skeleton_edits(
            mode,
            lang,
            captured_ranges(tree, source, len, primary_queries(mode, lang)),
            captured_ranges(tree, source, len, secondary_queries(mode, lang)),
        ),
        StrategyKind::SymbolPruner => if definition_query(lang)@.len() == 0 {
            edits.len() == 0
        } else {
            exists|h: Seq<QueryHit>|
                hits_view(h) == captured_hits(tree, source, len, seq![definition_query(lang)]) && hits_within(h, len)
                    && edits == #[trigger] prune_edits(refs_of_symbols, src, h)
        },
    }
}

/// The parts one after the other.
pub open spec fn flatten(parts: Seq<Seq<EditView>>) -> Seq<EditView>
    decreases parts.len(),
{
    if parts.len() == 0 {
        seq![]
    } else {
        flatten(parts.drop_last()) + parts.last()
    }
}

/// `edits` are the strategies' proposals for the source, one after the other:
/// each strategy that is safe for the language contributes what it proposes,
/// the others nothing.
pub open spec fn composed(
    strategies: Seq<StrategyKind>,
    refs_of_symbols: Map<Seq<char>, usize>,
    tree: Tree,
    source: Seq<char>,
    src: Seq<u8>,
    lang: Language,
    refs: Seq<Seq<char>>,
    edits: Seq<EditView>,
) -> bool {
    exists|parts: Seq<Seq<EditView>>|
        parts.len() == strategies.len() && edits == #[trigger] flatten(parts) && forall|i: int|
            0 <= i < parts.len() ==> if strategy_safe(strategies[i], lang) {
                proposes(strategies[i], refs_of_symbols, tree, source, src, lang, refs, #[trigger] parts[i])
            } else {
                parts[i].len() == 0
            }
}

/// The edits of one strategy for a file.
pub fn strategy_edits(
    kind: StrategyKind,
    pruner: &SymbolPruner,
    source: &str,
    tree: &Tree,
    lang: &Language,
    info: &FileInfo,
) -> (res: Vec<Edit>)
    ensures
        proposes(kind, pruner@, *tree, source@, source.spec_bytes(), *lang, reference_names(info.references@), edits_view(res@)),
{
    match kind {
        StrategyKind::CommentRemoval => CommentRemoval.get_edits(source, tree, lang, info),
        StrategyKind::DebugRemover => DebugRemover.get_edits(source, tree, lang, info),
        StrategyKind::LiteralShrinker => LiteralShrinker::new(100).get_edits(source, tree, lang, info),
        StrategyKind::ImportSimplifier => ImportSimplifier.get_edits(source, tree, lang, info),
        StrategyKind::Skeleton(mode) => Skeletonizer::new(mode).get_edits(source, tree, lang, info),
        StrategyKind::SymbolPruner => pruner.get_edits(source, tree, lang, info),
    }
}

/// The edits of a file under a list of strategies: each strategy that is safe
/// for the file's language contributes its edits, in the list's order.
pub fn file_edits(
    strategies: &[StrategyKind],
    pruner: &SymbolPruner,
    source: &str,
    tree: &Tree,
    lang: &Language,
    info: &FileInfo,
) -> (res: Vec<Edit>)
    ensures
        composed(strategies@, pruner@, *tree, source@, source.spec_bytes(), *lang, reference_names(info.references@), edits_view(res@)),
{
    let mut edits: Vec<Edit> = Vec::new();
    let ghost mut parts: Seq<Seq<EditView>> = seq![];
    for k in 0..strategies.len()
        invariant
            parts.len() == k,
            edits_view(edits@) == flatten(parts),
            forall|i: int|
                0 <= i < parts.len() ==> if strategy_safe(strategies@[i], *lang) {
                    proposes(strategies@[i], pruner@, *tree, source@, source.spec_bytes(),
                        *lang,
                        reference_names(info.references@),
                        #[trigger] parts[i],
                    )
                } else {
                    parts[i].len() == 0
                },
    {
        let kind = strategies[k];
        let ghost before = edits_view(edits@);
        if kind.safe_for(lang) {
            let more = strategy_edits(kind, pruner, source, tree, lang, info);
            let ghost part = edits_view(more@);
            for j in 0..more.len()
                invariant
                    edits_view(edits@) == before + edits_view(more@).take(j as int),
            {
                let e = &more[j];
                let copy = Edit { start: e.start, end: e.end, replacement: e.replacement.clone() };
                let ghost prev = edits_view(edits@);
                edits.push(copy);
                assert(edits_view(edits@) =~= prev.push(copy@));
                assert(edits_view(more@).take(j + 1) =~= edits_view(more@).take(j as int).push(more@[j as int]@));
            }
            assert(edits_view(more@).take(more@.len() as int) =~= part);
            proof {
                let old_parts = parts;
                parts = parts.push(part);
                assert(parts.drop_last() =~= old_parts);
                assert forall|i: int| 0 <= i < parts.len() implies if strategy_safe(strategies@[i], *lang) {
                    proposes(strategies@[i], pruner@, *tree, source@, source.spec_bytes(), *lang, reference_names(info.references@), #[trigger] parts[i])
                } else {
                    parts[i].len() == 0
                } by {
                    if i < old_parts.len() {
                        assert(parts[i] == old_parts[i]);
                    }
                }
            }
        } else {
            proof {
                let old_parts = parts;
                parts = parts.push(seq![]);
                assert(parts.drop_last() =~= old_parts);
                assert(flatten(parts) =~= flatten(old_parts));
                assert forall|i: int| 0 <= i < parts.len() implies if strategy_safe(strategies@[i], *lang) {
                    proposes(strategies@[i], pruner@, *tree, source@, source.spec_bytes(), *lang, reference_names(info.references@), #[trigger] parts[i])
                } else {
                    parts[i].len() == 0
                } by {
                    if i < old_parts.len() {
                        assert(parts[i] == old_parts[i]);
                    }
                }
            }
        }
    }
    assert(composed(strategies@, pruner@, *tree, source@, source.spec_bytes(), *lang, reference_names(info.references@), edits_view(edits@)));
    edits
}

/// What a single distillation does with a file.
pub enum FileDistillation {
    /// The file stays as it is.
    Keep,
    /// The file is emptied.
    Drop,
    /// These edits are applied to the file.
    Edit(Vec<Edit>),
}

/// What a single distillation without a compression target does with a file:
/// a raw file stays as it is; a file whose level (from its importance and
/// focus) is `DropEntirely` is emptied; a file without a syntax tree stays as
/// it is; any other file gets the edits of its level's strategies.
pub fn distill_file(
    raw: bool,
    focused: bool,
    pruner: &SymbolPruner,
    source: &str,
    tree: Option<&Tree>,
    info: &FileInfo,
) -> (res: FileDistillation)
    ensures
        raw ==> res is Keep,
        !raw ==> {
            let level = file_level(importance_score(*info, focused), focused);
            if level == CompressionLevel::DropEntirely {
                res is Drop
            } else if tree is None {
                res is Keep
            } else {
                res matches FileDistillation::Edit(e) && composed(
                    level_strategies(level),
                    pruner@,
                    *tree.unwrap(),
                    source@,
                    source.spec_bytes(),
                    info.language,
                    reference_names(info.references@),
                    edits_view(e@),
                )
            }
        },
{
    if raw {
        return FileDistillation::Keep;
    }
    let importance = calculate_importance(info, focused);
    let level = level_for_file(importance.total(), focused);
    if level == CompressionLevel::DropEntirely {
        return FileDistillation::Drop;
    }
    match tree {
        None => FileDistillation::Keep,
        Some(t) => {
            let strategies = strategies_for_level(level);
            FileDistillation::Edit(file_edits(strategies.as_slice(), pruner, source, t, &info.language, info))
        },
    }
}

/// The edits of a file in a batch layer: none for a raw file or a file
/// without a syntax tree; otherwise the layer's strategies' edits, when there
/// are any.
pub fn layer_file_edits(fidelity: Fidelity, raw: bool, source: &str, tree: Option<&Tree>, info: &FileInfo) -> (res: Option<Vec<Edit>>)
    ensures
        (raw || tree is None) ==> res is None,
        !raw && tree is Some ==> composed(
            layer_strategies(fidelity),
            Map::empty(),
            *tree.unwrap(),
            source@,
            source.spec_bytes(),
            info.language,
            reference_names(info.references@),
            match res {
                Some(e) => edits_view(e@),
                None => seq![],
            },
        ),
        res matches Some(e) ==> e@.len() > 0,
{
    if raw {
        return None;
    }
    match tree {
        None => None,
        Some(t) => {
            let empty = ProjectGraph { nodes: Vec::new(), edges: Vec::new() };
            let pruner = SymbolPruner::new(&empty);
            assert(symbol_entries(empty.nodes@) =~= Seq::<(String, usize)>::empty());
            assert(pruner@ =~= Map::<Seq<char>, usize>::empty());
            let strategies = strategies_for_layer(fidelity);
            let edits = file_edits(strategies.as_slice(), &pruner, source, t, &info.language, info);
            if edits.len() == 0 {
                assert(edits_view(edits@) =~= Seq::<EditView>::empty());
                None
            } else {
                Some(edits)
            }
        },
    }
}

} // verus!
