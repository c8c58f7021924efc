use vstd::prelude::*;
use vstd::string::StringSliceAdditionalSpecFns;
use tree_sitter::Tree;
use crate::batch::distillation::canon::{FileInfo, Language};
use crate::batch::distillation::transforms::strategy::{
    captured_ranges, queries_found,
    accumulate, cands_view, edits_view, lemma_accumulate_members, query_ranges, ranges_within, take_candidates,
    CompressionStrategy, Edit, EditView,
};
use crate::text::{decimal, decimal_string};

verus! {

/// Replaces long literals (strings, arrays, maps) by a note of their size.
pub struct LiteralShrinker {
    pub threshold_bytes: usize,
}

impl LiteralShrinker {
    /// A shrinker for literals longer than `threshold_bytes` bytes.
    pub fn new(threshold_bytes: usize) -> (res: Self)
        ensures
            res.threshold_bytes == threshold_bytes,
    {
        LiteralShrinker { threshold_bytes }
    }
}

/// The queries that find literals, per language.
pub open spec fn literal_queries(lang: Language) -> Seq<&'static str> {
    match lang {
        Language::Rust => seq!["(string_literal) @lit", "(raw_string_literal) @lit", "(array_expression) @lit"],
        Language::Python => seq!["(string) @lit", "(list) @lit", "(dictionary) @lit"],
        Language::JavaScript | Language::TypeScript | Language::Tsx => seq![
            "(string) @lit",
            "(template_string) @lit",
            "(array) @lit",
            "(object) @lit",
        ],
        Language::Java => seq!["(string_literal) @lit", "(array_initializer) @lit"],
        Language::Go => seq!["(string_literal) @lit", "(raw_string_literal) @lit", "(composite_literal) @lit"],
        Language::C | Language::Cpp => seq!["(string_literal) @lit", "(initializer_list) @lit"],
        Language::CSharp => seq!["(string_literal) @lit", "(character_literal) @lit"],
        Language::Kotlin => seq!["(string_literal) @lit", "(character_literal) @lit"],
        Language::Swift => seq!["(line_string_literal) @lit", "(array_literal) @lit", "(dictionary_literal) @lit"],
        Language::Ruby => seq!["(string) @lit", "(array) @lit", "(hash) @lit"],
        Language::Other => seq![],
    }
}

/// The literal queries for a language.
pub fn literal_query_list(lang: &Language) -> (res: Vec<&'static str>)
    ensures
        res@ == literal_queries(*lang),
{
    match lang {
        Language::Rust => vec!["(string_literal) @lit", "(raw_string_literal) @lit", "(array_expression) @lit"],
        Language::Python => vec!["(string) @lit", "(list) @lit", "(dictionary) @lit"],
        Language::JavaScript | Language::TypeScript | Language::Tsx => vec![
            "(string) @lit",
            "(template_string) @lit",
            "(array) @lit",
            "(object) @lit",
        ],
        Language::Java => vec!["(string_literal) @lit", "(array_initializer) @lit"],
        Language::Go => vec!["(string_literal) @lit", "(raw_string_literal) @lit", "(composite_literal) @lit"],
        Language::C | Language::Cpp => vec!["(string_literal) @lit", "(initializer_list) @lit"],
        Language::CSharp => vec!["(string_literal) @lit", "(character_literal) @lit"],
        Language::Kotlin => vec!["(string_literal) @lit", "(character_literal) @lit"],
        Language::Swift => vec!["(line_string_literal) @lit", "(array_literal) @lit", "(dictionary_literal) @lit"],
        Language::Ruby => vec!["(string) @lit", "(array) @lit", "(hash) @lit"],
        Language::Other => vec![],
    }
}

/// The note that stands for an omitted literal of `len` bytes:
/// ` "[OMITTED: <len> bytes]" `.
pub open spec fn omitted_note(len: nat) -> Seq<char> {
    " \"[OMITTED: "@ + decimal(len) + " bytes]\" "@
}

/// The edit proposed for a captured literal: replace it by a note when it is
/// longer than the threshold.
pub open spec fn literal_candidate(threshold: usize, r: (usize, usize)) -> Option<EditView> {
    if r.1 - r.0 > threshold {
        Some(EditView { start: r.0 as int, end: r.1 as int, replacement: omitted_note((r.1 - r.0) as nat) })
    } else {
        None
    }
}

/// The edits for the captured literals, in order, skipping overlaps.
pub open spec fn literal_edits(threshold: usize, ranges: Seq<(usize, usize)>) -> Seq<EditView> {
    accumulate(seq![], ranges.map_values(|r: (usize, usize)| literal_candidate(threshold, r)))
}

/// The note for an omitted literal of `len` bytes.
pub fn omitted_note_text(len: usize) -> (res: String)
    ensures
        res@ == omitted_note(len as nat),
{
    let mut note = String::from_str(" \"[OMITTED: ");
    let digits = decimal_string(len);
    note.append(digits.as_str());
    note.append(" bytes]\" ");
    note
}

impl LiteralShrinker {
    /// The edits that shrink the captured literals longer than the threshold.
    pub fn shrink_literals(&self, ranges: &[(usize, usize)]) -> (res: Vec<Edit>)
        requires
            forall|i: int| 0 <= i < ranges@.len() ==> #[trigger] ranges@[i].0 <= ranges@[i].1,
        ensures
            edits_view(res@) == literal_edits(self.threshold_bytes, ranges@),
    {
        let mut cands: Vec<Option<Edit>> = Vec::new();
        for i in 0..ranges.len()
            invariant
                forall|i: int| 0 <= i < ranges@.len() ==> #[trigger] ranges@[i].0 <= ranges@[i].1,
                cands_view(cands@) == ranges@.take(i as int).map_values(
                    |r: (usize, usize)| literal_candidate(self.threshold_bytes, r),
                ),
        {
            let (start, end) = ranges[i];
            assert(ranges@[i as int].0 <= ranges@[i as int].1);
            let len = end - start;
            let c = if len > self.threshold_bytes {
                Some(Edit { start, end, replacement: omitted_note_text(len) })
            } else {
                None
            };
            let ghost prev = cands@;
            cands.push(c);
            assert(cands_view(cands@) =~= cands_view(prev).push(
                literal_candidate(self.threshold_bytes, ranges@[i as int]),
            ));
            assert(ranges@.take(i + 1).map_values(
                |r: (usize, usize)| literal_candidate(self.threshold_bytes, r),
            ) =~= ranges@.take(i as int).map_values(
                |r: (usize, usize)| literal_candidate(self.threshold_bytes, r),
            ).push(literal_candidate(self.threshold_bytes, ranges@[i as int])));
        }
        assert(ranges@.take(ranges@.len() as int) =~= ranges@);
        let mut edits: Vec<Edit> = Vec::new();
        take_candidates(&mut edits, &cands);
        assert(edits_view(Seq::<Edit>::empty()) =~= Seq::<EditView>::empty());
        edits
    }
}

impl CompressionStrategy for LiteralShrinker {
    fn destructiveness_score(&self, lang: &Language) -> (res: u32)
        ensures
            res == 40,
    {
        40
    }

    fn is_safe_for_lang(&self, lang: &Language) -> (res: bool)
        ensures
            res,
    {
        true
    }

    fn get_edits(&self, source: &str, tree: &Tree, lang: &Language, info: &FileInfo) -> (res: Vec<Edit>)
        ensures
            edits_view(res@) == literal_edits(
                self.threshold_bytes,
                captured_ranges(*tree, source@, source.spec_bytes().len() as int, literal_queries(*lang)),
            ),
    {
        let queries = literal_query_list(lang);
        let ranges = query_ranges(tree, source, queries.as_slice());
        let res = self.shrink_literals(ranges.as_slice());
        res
    }
}

/// Only literals longer than the threshold are replaced, each by the note of
/// its size.
pub proof fn law_only_long_literals_shrink(threshold: usize, ranges: Seq<(usize, usize)>, e: EditView)
    requires
        literal_edits(threshold, ranges).contains(e),
    ensures
        e.end - e.start > threshold,
        e.replacement == omitted_note((e.end - e.start) as nat),
{
    let cands = ranges.map_values(|r: (usize, usize)| literal_candidate(threshold, r));
    lemma_accumulate_members(seq![], cands, e);
    let i = choose|i: int| 0 <= i < cands.len() && cands[i] == Some(e);
    assert(cands[i] == literal_candidate(threshold, ranges[i]));
}

} // verus!
