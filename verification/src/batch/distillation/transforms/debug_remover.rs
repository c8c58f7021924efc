use vstd::prelude::*;
use vstd::string::StringSliceAdditionalSpecFns;
use tree_sitter::Tree;
use crate::batch::distillation::canon::{FileInfo, Language};
use crate::batch::distillation::transforms::strategy::{
    captured_ranges, queries_found,
    accumulate, cands_view, edits_view, lemma_accumulate_members, query_ranges, ranges_within, take_candidates,
    law_candidate_taken_unless_overlapping, lemma_captured_ranges_block, spec_has_overlap,
    CompressionStrategy, Edit, EditView,
};
use crate::text::{bytes_contain, contains_seq, occurs_at};

verus! {

/// Removes debug output calls (printing and logging).
pub struct DebugRemover;

/// The queries that find call expressions that may print or log, per language.
pub open spec fn debug_queries(lang: Language) -> Seq<&'static str> {
    match lang {
        Language::Rust => seq!["(macro_invocation) @debug"],
        Language::Python => seq![
            "(call function: (identifier) @debug) @debug",
            "(call function: (attribute object: (identifier) @obj) @debug) @debug",
        ],
        Language::JavaScript | Language::TypeScript | Language::Tsx => seq![
            "(call_expression function: (member_expression) @debug) @debug",
            "(call_expression function: (identifier) @debug) @debug",
        ],
        Language::Java => seq!["(method_invocation) @debug"],
        Language::Go => seq!["(call_expression) @debug"],
        Language::C | Language::Cpp => seq!["(call_expression) @debug"],
        Language::CSharp => seq!["(invocation_expression) @debug"],
        Language::Kotlin => seq!["(call_expression) @debug"],
        Language::Swift => seq!["(call_expression) @debug"],
        Language::Ruby => seq!["(call) @debug"],
        Language::Other => seq![],
    }
}

/// The debug-call queries for a language.
pub fn debug_query_list(lang: &Language) -> (res: Vec<&'static str>)
    ensures
        res@ == debug_queries(*lang),
{
    match lang {
        Language::Rust => vec!["(macro_invocation) @debug"],
        Language::Python => vec![
            "(call function: (identifier) @debug) @debug",
            "(call function: (attribute object: (identifier) @obj) @debug) @debug",
        ],
        Language::JavaScript | Language::TypeScript | Language::Tsx => vec![
            "(call_expression function: (member_expression) @debug) @debug",
            "(call_expression function: (identifier) @debug) @debug",
        ],
        Language::Java => vec!["(method_invocation) @debug"],
        Language::Go => vec!["(call_expression) @debug"],
        Language::C | Language::Cpp => vec!["(call_expression) @debug"],
        Language::CSharp => vec!["(invocation_expression) @debug"],
        Language::Kotlin => vec!["(call_expression) @debug"],
        Language::Swift => vec!["(call_expression) @debug"],
        Language::Ruby => vec!["(call) @debug"],
        Language::Other => vec![],
    }
}

/// The ASCII bytes of the words that mark a call as debug output:
/// `print`, `log`, `dbg`, `printf` and `cout`.
pub open spec fn debug_words() -> Seq<Seq<u8>> {
    seq![
        seq![112u8, 114u8, 105u8, 110u8, 116u8],
        seq![108u8, 111u8, 103u8],
        seq![100u8, 98u8, 103u8],
        seq![112u8, 114u8, 105u8, 110u8, 116u8, 102u8],
        seq![99u8, 111u8, 117u8, 116u8],
    ]
}

/// The text of a call mentions one of the debug words.
pub open spec fn mentions_debug_word(text: Seq<u8>) -> bool {
    exists|w: int| 0 <= w < debug_words().len() && contains_seq(text, #[trigger] debug_words()[w])
}

/// The end of a removed call: a `;` right after it is removed with it.
pub open spec fn debug_end(src: Seq<u8>, end: int) -> int {
    if 0 <= end < src.len() && src[end] == 59 {
        end + 1
    } else {
        end
    }
}

/// The edit proposed for a captured call: remove it when its text mentions a
/// debug word.
pub open spec fn debug_candidate(src: Seq<u8>, r: (usize, usize)) -> Option<EditView> {
    if mentions_debug_word(src.subrange(r.0 as int, r.1 as int)) {
        Some(EditView { start: r.0 as int, end: debug_end(src, r.1 as int), replacement: seq![] })
    } else {
        None
    }
}

/// The edits for the captured calls, in order, skipping overlaps.
pub open spec fn debug_edits(src: Seq<u8>, ranges: Seq<(usize, usize)>) -> Seq<EditView> {
    accumulate(seq![], ranges.map_values(|r: (usize, usize)| debug_candidate(src, r)))
}

fn debug_word_list() -> (res: Vec<Vec<u8>>)
    ensures
        res@.len() == debug_words().len(),
        forall|i: int| 0 <= i < res@.len() ==> #[trigger] res@[i]@ == debug_words()[i],
{
    let res = vec![
        vec![112u8, 114u8, 105u8, 110u8, 116u8],
        vec![108u8, 111u8, 103u8],
        vec![100u8, 98u8, 103u8],
        vec![112u8, 114u8, 105u8, 110u8, 116u8, 102u8],
        vec![99u8, 111u8, 117u8, 116u8],
    ];
    assert(res@[0]@ =~= debug_words()[0]);
    assert(res@[1]@ =~= debug_words()[1]);
    assert(res@[2]@ =~= debug_words()[2]);
    assert(res@[3]@ =~= debug_words()[3]);
    assert(res@[4]@ =~= debug_words()[4]);
    res
}

/// Whether a call's text mentions a debug word.
pub fn has_debug_word(text: &[u8]) -> (res: bool)
    ensures
        res == mentions_debug_word(text@),
{
    let words = debug_word_list();
    for w in 0..words.len()
        invariant
            words@.len() == debug_words().len(),
            forall|i: int| 0 <= i < words@.len() ==> #[trigger] words@[i]@ == debug_words()[i],
            forall|i: int| 0 <= i < w ==> !contains_seq(text@, #[trigger] debug_words()[i]),
    {
        if bytes_contain(text, words[w].as_slice()) {
            assert(contains_seq(text@, debug_words()[w as int]));
            return true;
        }
    }
    false
}

/// The edits that remove the captured calls of `source` that print or log.
pub fn remove_debug_calls(source: &[u8], ranges: &[(usize, usize)]) -> (res: Vec<Edit>)
    requires
        ranges_within(ranges@, source@.len() as int),
    ensures
        edits_view(res@) == debug_edits(source@, ranges@),
{
    let n = source.len();
    let mut cands: Vec<Option<Edit>> = Vec::new();
    for i in 0..ranges.len()
        invariant
            n == source@.len(),
            ranges_within(ranges@, n as int),
            cands_view(cands@) == ranges@.take(i as int).map_values(
                |r: (usize, usize)| debug_candidate(source@, r),
            ),
    {
        let (start, end) = ranges[i];
        assert(ranges@[i as int].0 <= ranges@[i as int].1 <= n);
        let text = slice_range(source, start, end);
        let c = if has_debug_word(text.as_slice()) {
            let mut stop = end;
            if end < n && source[end] == 59u8 {
                stop = end + 1;
            }
            Some(Edit { start, end: stop, replacement: String::new() })
        } else {
            None
        };
        let ghost prev = cands@;
        cands.push(c);
        assert(cands_view(cands@) =~= cands_view(prev).push(
            debug_candidate(source@, ranges@[i as int]),
        ));
        assert(ranges@.take(i + 1).map_values(|r: (usize, usize)| debug_candidate(source@, r))
            =~= ranges@.take(i as int).map_values(|r: (usize, usize)| debug_candidate(source@, r)).push(
            debug_candidate(source@, ranges@[i as int]),
        ));
    }
    assert(ranges@.take(ranges@.len() as int) =~= ranges@);
    let mut edits: Vec<Edit> = Vec::new();
    take_candidates(&mut edits, &cands);
    assert(edits_view(Seq::<Edit>::empty()) =~= Seq::<EditView>::empty());
    edits
}

/// The bytes `source[start..end]`.
pub fn slice_range(source: &[u8], start: usize, end: usize) -> (res: Vec<u8>)
    requires
        start <= end <= source@.len(),
    ensures
        res@ == source@.subrange(start as int, end as int),
{
    let mut res: Vec<u8> = Vec::new();
    let mut k = start;
    while k < end
        invariant
            start <= k <= end <= source@.len(),
            res@ == source@.subrange(start as int, k as int),
        decreases end - k,
    {
        res.push(source[k]);
        assert(res@ =~= source@.subrange(start as int, k + 1));
        k = k + 1;
    }
    res
}

impl CompressionStrategy for DebugRemover {
    fn destructiveness_score(&self, lang: &Language) -> (res: u32)
        ensures
            res == 10,
    {
        10
    }

    fn is_safe_for_lang(&self, lang: &Language) -> (res: bool)
        ensures
            res,
    {
        true
    }

    fn get_edits(&self, source: &str, tree: &Tree, lang: &Language, info: &FileInfo) -> (res: Vec<Edit>)
        ensures
            edits_view(res@) == debug_edits(
                source.spec_bytes(),
                captured_ranges(*tree, source@, source.spec_bytes().len() as int, debug_queries(*lang)),
            ),
            debug_queries(*lang).len() == 0 ==> res@.len() == 0,
    {
        let queries = debug_query_list(lang);
        let ranges = query_ranges(tree, source, queries.as_slice());
        let res = remove_debug_calls(source.as_bytes(), ranges.as_slice());
        proof {
            if debug_queries(*lang).len() == 0 {
                assert(queries_found(*tree, source@, debug_queries(*lang)) =~= Seq::<Seq<Seq<(Seq<char>, usize, usize)>>>::empty());
                assert(ranges@ =~= Seq::<(usize, usize)>::empty());
                assert(ranges@.map_values(|r: (usize, usize)| debug_candidate(source.spec_bytes(), r)) =~= Seq::<Option<EditView>>::empty());
                assert(debug_edits(source.spec_bytes(), ranges@) =~= Seq::<EditView>::empty());
                assert(edits_view(res@).len() == res@.len());
            }
        }
        res
    }
}

/// Each edit of the debug remover removes a captured call whose text
/// mentions a debug word, with at most the `;` after it.
pub proof fn law_debug_edits_remove_debug_calls(src: Seq<u8>, ranges: Seq<(usize, usize)>, e: EditView)
    requires
        debug_edits(src, ranges).contains(e),
    ensures
        e.replacement.len() == 0,
        exists|i: int|
            0 <= i < ranges.len() && e.start == ranges[i].0 && ranges[i].1 <= e.end <= ranges[i].1 + 1
                && mentions_debug_word(src.subrange(ranges[i].0 as int, ranges[i].1 as int)),
{
    let cands = ranges.map_values(|r: (usize, usize)| debug_candidate(src, r));
    lemma_accumulate_members(seq![], cands, e);
    let i = choose|i: int| 0 <= i < cands.len() && cands[i] == Some(e);
    assert(cands[i] == debug_candidate(src, ranges[i]));
}

/// In JavaScript, TypeScript and TSX, every call that the tree shows with a
/// member-expression callee (`console.log(..)`) or a plain identifier callee,
/// and whose text mentions a debug word, is among the captured calls and is
/// removed with the `;` right after it, unless it overlaps an edit taken for
/// an earlier capture.
pub proof fn law_script_debug_calls_removed(
    tree: Tree,
    source: Seq<char>,
    src: Seq<u8>,
    lang: Language,
    q: &str,
    r: (usize, usize),
)
    requires
        lang == Language::JavaScript || lang == Language::TypeScript || lang == Language::Tsx,
        q@ == "(call_expression function: (member_expression) @debug) @debug"@ || q@
            == "(call_expression function: (identifier) @debug) @debug"@,
        captured_ranges(tree, source, src.len() as int, seq![q]).contains(r),
        mentions_debug_word(src.subrange(r.0 as int, r.1 as int)),
    ensures
        ({
            let ranges = captured_ranges(tree, source, src.len() as int, debug_queries(lang));
            let e = EditView {
                start: r.0 as int,
                end: if r.1 < src.len() && src[r.1 as int] == 59u8 {
                    r.1 + 1
                } else {
                    r.1 as int
                },
                replacement: seq![],
            };
            exists|i: int|
                0 <= i < ranges.len() && ranges[i] == r && (debug_edits(src, ranges).contains(e) || spec_has_overlap(
                    debug_edits(src, ranges.take(i)),
                    e.start,
                    e.end,
                ))
        }),
{
    let len = src.len() as int;
    let queries = debug_queries(lang);
    let j: int = if q@ == "(call_expression function: (member_expression) @debug) @debug"@ {
        0
    } else {
        1
    };
    assert(queries[j]@ == q@);
    lemma_captured_ranges_block(tree, source, len, queries, j, q);
    let pre = captured_ranges(tree, source, len, queries.take(j));
    let own = captured_ranges(tree, source, len, seq![q]);
    let ranges = captured_ranges(tree, source, len, queries);
    let t = choose|t: int| 0 <= t < own.len() && own[t] == r;
    let i = pre.len() + t;
    assert(ranges.subrange(pre.len() as int, (pre.len() + own.len()) as int)[t] == ranges[i]);
    assert(ranges[i] == r);
    let e = EditView {
        start: r.0 as int,
        end: if r.1 < src.len() && src[r.1 as int] == 59u8 {
            r.1 + 1
        } else {
            r.1 as int
        },
        replacement: seq![],
    };
    let cands = ranges.map_values(|x: (usize, usize)| debug_candidate(src, x));
    assert(cands[i] == debug_candidate(src, r));
    assert(cands[i] == Some(e));
    assert(ranges.take(i).map_values(|x: (usize, usize)| debug_candidate(src, x)) =~= cands.take(i));
    law_candidate_taken_unless_overlapping(seq![], cands, i, e);
}

/// Every language but `Other` has debug-call queries, and each of them
/// captures the calls it finds as `@debug`; `Other` has none.
pub proof fn law_debug_queries_capture_calls(lang: Language)
    ensures
        lang == Language::Other <==> debug_queries(lang).len() == 0,
        forall|i: int| 0 <= i < debug_queries(lang).len() ==> contains_seq(#[trigger] debug_queries(lang)[i]@, "@debug"@),
{
    let qs = debug_queries(lang);
    reveal_strlit("@debug");
    match lang {
        Language::Rust => {
            reveal_strlit("(macro_invocation) @debug");
            assert(qs[0]@.subrange(19, 25) =~= "@debug"@);
            assert(occurs_at(qs[0]@, "@debug"@, 19));
        },
        Language::Python => {
            reveal_strlit("(call function: (identifier) @debug) @debug");
            assert(qs[0]@.subrange(29, 35) =~= "@debug"@);
            assert(occurs_at(qs[0]@, "@debug"@, 29));
            reveal_strlit("(call function: (attribute object: (identifier) @obj) @debug) @debug");
            assert(qs[1]@.subrange(54, 60) =~= "@debug"@);
            assert(occurs_at(qs[1]@, "@debug"@, 54));
        },
        Language::JavaScript | Language::TypeScript | Language::Tsx => {
            reveal_strlit("(call_expression function: (member_expression) @debug) @debug");
            assert(qs[0]@.subrange(47, 53) =~= "@debug"@);
            assert(occurs_at(qs[0]@, "@debug"@, 47));
            reveal_strlit("(call_expression function: (identifier) @debug) @debug");
            assert(qs[1]@.subrange(40, 46) =~= "@debug"@);
            assert(occurs_at(qs[1]@, "@debug"@, 40));
        },
        Language::Java => {
            reveal_strlit("(method_invocation) @debug");
            assert(qs[0]@.subrange(20, 26) =~= "@debug"@);
            assert(occurs_at(qs[0]@, "@debug"@, 20));
        },
        Language::Go => {
            reveal_strlit("(call_expression) @debug");
            assert(qs[0]@.subrange(18, 24) =~= "@debug"@);
            assert(occurs_at(qs[0]@, "@debug"@, 18));
        },
        Language::C | Language::Cpp => {
            reveal_strlit("(call_expression) @debug");
            assert(qs[0]@.subrange(18, 24) =~= "@debug"@);
            assert(occurs_at(qs[0]@, "@debug"@, 18));
        },
        Language::CSharp => {
            reveal_strlit("(invocation_expression) @debug");
            assert(qs[0]@.subrange(24, 30) =~= "@debug"@);
            assert(occurs_at(qs[0]@, "@debug"@, 24));
        },
        Language::Kotlin => {
            reveal_strlit("(call_expression) @debug");
            assert(qs[0]@.subrange(18, 24) =~= "@debug"@);
            assert(occurs_at(qs[0]@, "@debug"@, 18));
        },
        Language::Swift => {
            reveal_strlit("(call_expression) @debug");
            assert(qs[0]@.subrange(18, 24) =~= "@debug"@);
            assert(occurs_at(qs[0]@, "@debug"@, 18));
        },
        Language::Ruby => {
            reveal_strlit("(call) @debug");
            assert(qs[0]@.subrange(7, 13) =~= "@debug"@);
            assert(occurs_at(qs[0]@, "@debug"@, 7));
        },
        Language::Other => {},
    }
}

} // verus!
