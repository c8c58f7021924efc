use vstd::prelude::*;
use vstd::string::StringSliceAdditionalSpecFns;
use tree_sitter::Tree;
use crate::batch::distillation::canon::{FileInfo, Language};
use crate::batch::distillation::transforms::strategy::{
    captured_ranges, queries_found,
    accumulate, edits_view, lemma_accumulate_members, lemma_accumulate_push, query_ranges, ranges_within, take_unless_overlapping,
    CompressionStrategy, Edit, EditView,
};

verus! {

/// Removes comments and docstring statements, each with the line break that follows it.
pub struct CommentRemoval;

/// The queries that find comments, in every language (the last one finds
/// docstring statements).
pub open spec fn comment_query_seq() -> Seq<&'static str> {
    seq![
        "(comment) @c",
        "(line_comment) @c",
        "(block_comment) @c",
        "(doc_comment) @c",
        "(expression_statement (string) @c)",
    ]
}

/// The queries that find comments.
pub fn comment_queries() -> (res: Vec<&'static str>)
    ensures
        res@ == comment_query_seq(),
{
    vec![
        "(comment) @c",
        "(line_comment) @c",
        "(block_comment) @c",
        "(doc_comment) @c",
        "(expression_statement (string) @c)",
    ]
}

/// The end of a removed comment: one line break after it (`\n`, `\r\n` or a
/// lone `\r`) is removed with it.
pub open spec fn comment_end(src: Seq<u8>, end: int) -> int {
    if 0 <= end < src.len() {
        if src[end] == 10 {
            end + 1
        } else if src[end] == 13 {
            if end + 1 < src.len() && src[end + 1] == 10 {
                end + 2
            } else {
                end + 1
            }
        } else {
            end
        }
    } else {
        end
    }
}

/// The edit proposed for a captured comment: remove it and its line break.
pub open spec fn comment_candidate(src: Seq<u8>, r: (usize, usize)) -> Option<EditView> {
    Some(EditView { start: r.0 as int, end: comment_end(src, r.1 as int), replacement: seq![] })
}

/// The edits for the captured comments, in order, skipping overlaps.
pub open spec fn comment_edits(src: Seq<u8>, ranges: Seq<(usize, usize)>) -> Seq<EditView> {
    accumulate(seq![], ranges.map_values(|r: (usize, usize)| comment_candidate(src, r)))
}

/// The edits that remove the captured comments of `source`.
pub fn remove_comments(source: &[u8], ranges: &[(usize, usize)]) -> (res: Vec<Edit>)
    requires
        ranges_within(ranges@, source@.len() as int),
    ensures
        edits_view(res@) == comment_edits(source@, ranges@),
{
    let mut edits: Vec<Edit> = Vec::new();
    let n = source.len();
    for i in 0..ranges.len()
        invariant
            n == source@.len(),
            ranges_within(ranges@, n as int),
            edits_view(edits@) == accumulate(
                seq![],
                ranges@.take(i as int).map_values(|r: (usize, usize)| comment_candidate(source@, r)),
            ),
    {
        let (start, e) = ranges[i];
        assert(ranges@[i as int].0 <= ranges@[i as int].1 <= n);
        let mut end = e;
        if end < n {
            if source[end] == 10u8 {
                end = end + 1;
            } else if source[end] == 13u8 {
                if end + 1 < n && source[end + 1] == 10u8 {
                    end = end + 2;
                } else {
                    end = end + 1;
                }
            }
        }
        let ghost prev = ranges@.take(i as int).map_values(
            |r: (usize, usize)| comment_candidate(source@, r),
        );
        let ghost c = comment_candidate(source@, ranges@[i as int]);
        assert(ranges@.take(i + 1).map_values(|r: (usize, usize)| comment_candidate(source@, r))
            =~= prev.push(c));
        proof {
            lemma_accumulate_push(seq![], prev, c);
        }
        take_unless_overlapping(&mut edits, Edit { start, end, replacement: String::new() });
    }
    assert(ranges@.take(ranges@.len() as int) =~= ranges@);
    edits
}

impl CompressionStrategy for CommentRemoval {
    fn destructiveness_score(&self, lang: &Language) -> (res: u32)
        ensures
            res == 20,
    {
        20
    }

    fn is_safe_for_lang(&self, lang: &Language) -> (res: bool)
        ensures
            res,
    {
        true
    }

    fn get_edits(&self, source: &str, tree: &Tree, lang: &Language, info: &FileInfo) -> (res: Vec<Edit>)
        ensures
            edits_view(res@) == comment_edits(
                source.spec_bytes(),
                captured_ranges(*tree, source@, source.spec_bytes().len() as int, comment_query_seq()),
            ),
    {
        let queries = comment_queries();
        let ranges = query_ranges(tree, source, queries.as_slice());
        let res = remove_comments(source.as_bytes(), ranges.as_slice());
        res
    }
}

/// Each edit of the comment remover removes a captured comment and at most
/// the line break after it, and nothing else.
pub proof fn law_comment_edits_remove_captured_comments(src: Seq<u8>, ranges: Seq<(usize, usize)>, e: EditView)
    requires
        comment_edits(src, ranges).contains(e),
    ensures
        e.replacement.len() == 0,
        exists|i: int| 0 <= i < ranges.len() && e.start == ranges[i].0 && ranges[i].1 <= e.end <= ranges[i].1 + 2,
{
    let cands = ranges.map_values(|r: (usize, usize)| comment_candidate(src, r));
    lemma_accumulate_members(seq![], cands, e);
    let i = choose|i: int| 0 <= i < cands.len() && cands[i] == Some(e);
    assert(cands[i] == comment_candidate(src, ranges[i]));
}

} // verus!
