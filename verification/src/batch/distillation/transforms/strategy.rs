use vstd::prelude::*;
use tree_sitter::Tree;
use vstd::string::StringSliceAdditionalSpecFns;
use crate::batch::distillation::canon::{FileInfo, Language};
use crate::text::{chars_of, contains_seq, occurs_at, str_contains};

verus! {

/// A replacement of the byte range `start..end` of a source text.
pub struct Edit {
    pub start: usize,
    pub end: usize,
    pub replacement: String,
}

/// The mathematical value of an edit.
pub struct EditView {
    pub start: int,
    pub end: int,
    pub replacement: Seq<char>,
}

impl View for Edit {
    type V = EditView;

    open spec fn view(&self) -> EditView {
        EditView { start: self.start as int, end: self.end as int, replacement: self.replacement@ }
    }
}

/// The values of a sequence of edits.
pub open spec fn edits_view(edits: Seq<Edit>) -> Seq<EditView> {
    edits.map_values(|e: Edit| e@)
}

/// Whether the edit's byte range and the range `start..end` intersect.
pub open spec fn overlaps(e: EditView, start: int, end: int) -> bool {
    e.start < end && start < e.end
}

/// The binary search by start byte over `edits[lo..hi]`: `Ok(i)` when a probed
/// edit starts exactly at `start`, otherwise `Err` of the insertion point.
pub open spec fn search_start(edits: Seq<EditView>, start: int, lo: int, hi: int) -> Result<int, int>
    decreases hi - lo,
{
    if 0 <= lo < hi <= edits.len() {
        let mid = lo + (hi - lo) / 2;
        if edits[mid].start < start {
            search_start(edits, start, mid + 1, hi)
        } else if edits[mid].start > start {
            search_start(edits, start, lo, mid)
        } else {
            Ok(mid)
        }
    } else {
        Err(lo)
    }
}

/// What `has_overlap` answers: the last edit overlaps, or the binary search by
/// start byte finds an edit starting at `start`, or one of the two edits around
/// its insertion point overlaps.
pub open spec fn spec_has_overlap(edits: Seq<EditView>, start: int, end: int) -> bool {
    if edits.len() == 0 {
        false
    } else if overlaps(edits.last(), start, end) {
        true
    } else {
        match search_start(edits, start, 0, edits.len() as int) {
            Ok(_) => true,
            Err(idx) => (0 < idx <= edits.len() && overlaps(edits[idx - 1], start, end)) || (0
                <= idx < edits.len() && overlaps(edits[idx], start, end)),
        }
    }
}

/// Edits ordered by start byte.
pub open spec fn sorted_by_start(edits: Seq<EditView>) -> bool {
    forall|i: int, j: int| 0 <= i <= j < edits.len() ==> edits[i].start <= edits[j].start
}

/// Edits ordered by start byte, each non-empty and ending before the next begins.
pub open spec fn disjoint_sorted(edits: Seq<EditView>) -> bool {
    &&& forall|i: int| 0 <= i < edits.len() ==> #[trigger] edits[i].start < edits[i].end
    &&& forall|i: int, j: int| 0 <= i < j < edits.len() ==> edits[i].end <= edits[j].start
}

proof fn lemma_search_sorted(edits: Seq<EditView>, start: int, lo: int, hi: int)
    requires
        sorted_by_start(edits),
        0 <= lo <= hi <= edits.len(),
        forall|j: int| 0 <= j < lo ==> edits[j].start < start,
        forall|j: int| hi <= j < edits.len() ==> edits[j].start > start,
    ensures
        match search_start(edits, start, lo, hi) {
            Ok(i) => 0 <= i < edits.len() && edits[i].start == start,
            Err(p) => 0 <= p <= edits.len() && (forall|j: int| 0 <= j < p ==> edits[j].start
                < start) && (forall|j: int| p <= j < edits.len() ==> edits[j].start > start),
        },
    decreases hi - lo,
{
    if lo < hi {
        let mid = lo + (hi - lo) / 2;
        if edits[mid].start < start {
            lemma_search_sorted(edits, start, mid + 1, hi);
        } else if edits[mid].start > start {
            lemma_search_sorted(edits, start, lo, mid);
        }
    }
}

/// For edits ordered by start byte, non-empty and pairwise disjoint, and a
/// non-empty range, `has_overlap` answers exactly whether some edit intersects
/// the range.
pub proof fn law_has_overlap_exact(edits: Seq<EditView>, start: int, end: int)
    requires
        disjoint_sorted(edits),
        start < end,
    ensures
        spec_has_overlap(edits, start, end) <==> exists|i: int|
            0 <= i < edits.len() && overlaps(#[trigger] edits[i], start, end),
{
    assert(sorted_by_start(edits)) by {
        assert forall|i: int, j: int| 0 <= i <= j < edits.len() implies edits[i].start
            <= edits[j].start by {
            if i < j {
                assert(edits[i].start < edits[i].end);
            }
        }
    }
    if edits.len() > 0 {
        if overlaps(edits.last(), start, end) {
            assert(overlaps(edits[edits.len() - 1], start, end));
        } else {
            lemma_search_sorted(edits, start, 0, edits.len() as int);
            match search_start(edits, start, 0, edits.len() as int) {
                Ok(i) => {
                    assert(edits[i].start < edits[i].end);
                    assert(overlaps(edits[i], start, end));
                },
                Err(p) => {
                    if exists|i: int| 0 <= i < edits.len() && overlaps(#[trigger] edits[i], start, end) {
                        let i = choose|i: int| 0 <= i < edits.len() && overlaps(#[trigger] edits[i], start, end);
                        if i < p - 1 {
                            assert(edits[i].end <= edits[p - 1].start);
                        } else if i > p {
                            assert(edits[p].start <= edits[i].start);
                        }
                    }
                },
            }
        }
    }
}

/// Whether the byte range `start..end` intersects an edit already taken: the
/// last edit is tried first, then the edits around the position that a binary
/// search by start byte finds.
pub fn has_overlap(edits: &[Edit], start: usize, end: usize) -> (res: bool)
    ensures
        res == spec_has_overlap(edits_view(edits@), start as int, end as int),
{
    let len = edits.len();
    if len == 0 {
        return false;
    }
    let ghost v = edits_view(edits@);
    assert(v.len() == len);
    let last = &edits[len - 1];
    assert(v.last() == last@);
    if last.start < end && start < last.end {
        return true;
    }
    let mut lo: usize = 0;
    let mut hi: usize = len;
    while lo < hi
        invariant
            0 <= lo <= hi <= len,
            len == edits@.len(),
            v == edits_view(edits@),
            search_start(edits_view(edits@), start as int, lo as int, hi as int) == search_start(
                edits_view(edits@),
                start as int,
                0,
                len as int,
            ),
        decreases hi - lo,
    {
        let mid = lo + (hi - lo) / 2;
        assert(v[mid as int] == edits@[mid as int]@);
        if edits[mid].start < start {
            lo = mid + 1;
        } else if edits[mid].start > start {
            hi = mid;
        } else {
            return true;
        }
    }
    let idx = lo;
    if idx > 0 {
        let prev = &edits[idx - 1];
        assert(v[idx - 1] == prev@);
        if prev.start < end && start < prev.end {
            return true;
        }
    }
    if idx < len {
        let next = &edits[idx];
        assert(v[idx as int] == next@);
        if next.start < end && start < next.end {
            return true;
        }
    }
    false
}

/// Edits taken from candidates in order: each candidate is taken unless
/// `has_overlap` reports that it meets an edit taken before it.
pub open spec fn accumulate(prev: Seq<EditView>, cands: Seq<Option<EditView>>) -> Seq<EditView>
    decreases cands.len(),
{
    if cands.len() == 0 {
        prev
    } else {
        let acc = accumulate(prev, cands.drop_last());
        match cands.last() {
            Some(e) => if spec_has_overlap(acc, e.start, e.end) {
                acc
            } else {
                acc.push(e)
            },
            None => acc,
        }
    }
}

/// Accumulating one more candidate is one more step.
pub proof fn lemma_accumulate_push(
    prev: Seq<EditView>,
    cands: Seq<Option<EditView>>,
    c: Option<EditView>,
)
    ensures
        accumulate(prev, cands.push(c)) == (match c {
            Some(e) => if spec_has_overlap(accumulate(prev, cands), e.start, e.end) {
                accumulate(prev, cands)
            } else {
                accumulate(prev, cands).push(e)
            },
            None => accumulate(prev, cands),
        }),
{
    assert(cands.push(c).drop_last() =~= cands);
}

/// Takes `cand` unless it meets an edit already taken.
pub fn take_unless_overlapping(edits: &mut Vec<Edit>, cand: Edit)
    ensures
        edits_view(final(edits)@) == (if spec_has_overlap(
            edits_view(old(edits)@),
            cand@.start,
            cand@.end,
        ) {
            edits_view(old(edits)@)
        } else {
            edits_view(old(edits)@).push(cand@)
        }),
{
    let ghost before = edits_view(edits@);
    let ghost c = cand@;
    if !has_overlap(edits.as_slice(), cand.start, cand.end) {
        edits.push(cand);
        assert(edits_view(edits@) =~= before.push(c));
    }
}

/// Byte ranges that lie within a text of `len` bytes.
pub open spec fn ranges_within(ranges: Seq<(usize, usize)>, len: int) -> bool {
    forall|i: int| 0 <= i < ranges.len() ==> #[trigger] ranges[i].0 <= ranges[i].1 <= len
}

/// A strategy that proposes edits shrinking a source file.
pub trait CompressionStrategy {
    /// The edits proposed for `source`, whose syntax tree is `tree`.
    fn get_edits(&self, source: &str, tree: &Tree, lang: &Language, info: &FileInfo) -> Vec<Edit>;

    /// How much of the code the strategy removes, in hundredths (lower is gentler).
    fn destructiveness_score(&self, lang: &Language) -> u32;

    /// Whether the strategy may be used on files of this language.
    fn is_safe_for_lang(&self, lang: &Language) -> bool;
}

#[verifier::external_type_specification]
#[verifier::external_body]
pub struct ExTree(tree_sitter::Tree);

/// One capture of a query match: the capture's name and its node's byte range.
pub struct Capture {
    pub name: String,
    pub start: usize,
    pub end: usize,
}

/// One match of a query: its captures, in the order that tree-sitter gives them.
pub struct QueryHit {
    pub captures: Vec<Capture>,
}

/// A character that ends no name in a query: ASCII, and neither a letter, a
/// digit, `_` nor `-`.
pub open spec fn ends_no_name(c: char) -> bool {
    c <= '\x7f' && !('a' <= c && c <= 'z') && !('A' <= c && c <= 'Z') && !('0' <= c && c <= '9') && c != '_'
        && c != '-'
}

/// The query text as the library runs it: a space is put after a query whose
/// last character could continue a name (whitespace means nothing in a query).
pub open spec fn query_as_run(query: Seq<char>) -> Seq<char> {
    if query.len() > 0 && ends_no_name(query.last()) {
        query
    } else {
        query.push(' ')
    }
}

/// What tree-sitter's query `query` (compiled in the tree's language) matches
/// on `tree` over the text `source`: each match's captures as names and byte
/// ranges, in the order that `QueryCursor::matches` gives them; `None` when
/// the query does not compile for the tree's language.
pub uninterp spec fn tree_query_matches(tree: Tree, source: Seq<char>, query: Seq<char>) -> Option<Seq<Seq<(Seq<char>, usize, usize)>>>;

/// Runs the tree-sitter query `query_str` over `tree` (`tree_sitter::Query::new`
/// in the tree's language, then `QueryCursor::matches` from the root node), and
/// gives each match's captures as names and byte ranges; `None` when the query
/// does not compile for that language. The result is named by
/// `tree_query_matches`. A query without `#` has no text predicates, so
/// tree-sitter never slices `source` by a node's range (which panics where the
/// range goes past `source`). A query whose last character ends no name lets
/// `Query::new` always find the end of an unknown name within the text (where
/// a name runs to the very end of the text, its error path panics).
#[verifier::external_body]
pub(crate) fn query_matches(tree: &Tree, source: &str, query_str: &str) -> (res: Option<Vec<QueryHit>>)
    requires
        !contains_seq(query_str@, seq!['#']),
        query_str@.len() > 0,
        ends_no_name(query_str@.last()),
    ensures
        res is None <==> tree_query_matches(*tree, source@, query_str@) is None,
        res matches Some(v) ==> tree_query_matches(*tree, source@, query_str@) == Some(hits_view(v@)),
{
    let query = tree_sitter::Query::new(tree.language(), query_str).ok()?;
    let names = query.capture_names();
    let mut cursor = tree_sitter::QueryCursor::new();
    let matches = cursor.matches(&query, tree.root_node(), source.as_bytes());
    Some(matches.map(|m| QueryHit {
        captures: m.captures.iter().map(|c| Capture {
            name: names[c.index as usize].clone(),
            start: c.node.start_byte(),
            end: c.node.end_byte(),
        }).collect(),
    }).collect())
}

/// A capture as a value: its name and byte range.
pub open spec fn capture_view(c: Capture) -> (Seq<char>, usize, usize) {
    (c.name@, c.start, c.end)
}

/// A match as a value: its captures, in order.
pub open spec fn hit_view(h: QueryHit) -> Seq<(Seq<char>, usize, usize)> {
    h.captures@.map_values(|c: Capture| capture_view(c))
}

/// The matches as values.
pub open spec fn hits_view(hits: Seq<QueryHit>) -> Seq<Seq<(Seq<char>, usize, usize)>> {
    hits.map_values(|h: QueryHit| hit_view(h))
}

/// What the library takes of a query's matches: tree-sitter's matches, none
/// where the query does not compile, and none for a query with a `#` (a text
/// predicate), which the library does not run.
pub open spec fn query_found(tree: Tree, source: Seq<char>, query: Seq<char>) -> Seq<Seq<(Seq<char>, usize, usize)>> {
    if contains_seq(query, seq!['#']) {
        seq![]
    } else {
        match tree_query_matches(tree, source, query_as_run(query)) {
            Some(v) => v,
            None => seq![],
        }
    }
}

/// The matches taken for each query, query by query.
pub open spec fn queries_found(tree: Tree, source: Seq<char>, queries: Seq<&str>) -> Seq<Seq<Seq<(Seq<char>, usize, usize)>>> {
    queries.map_values(|q: &str| query_found(tree, source, q@))
}

/// The byte ranges, within a text of `len` bytes, of the captures that the
/// queries find on the tree, query by query.
pub open spec fn captured_ranges(tree: Tree, source: Seq<char>, len: int, queries: Seq<&str>) -> Seq<(usize, usize)> {
    found_ranges(queries_found(tree, source, queries), len)
}

/// The matches that the queries find on the tree, query by query, each with
/// only its captures that lie within a text of `len` bytes.
pub open spec fn captured_hits(tree: Tree, source: Seq<char>, len: int, queries: Seq<&str>) -> Seq<Seq<(Seq<char>, usize, usize)>> {
    found_hits(queries_found(tree, source, queries), len)
}

/// The byte ranges of the captures that lie within a text of `len` bytes, in order.
pub open spec fn capture_ranges(caps: Seq<(Seq<char>, usize, usize)>, len: int) -> Seq<(usize, usize)>
    decreases caps.len(),
{
    if caps.len() == 0 {
        seq![]
    } else {
        let prev = capture_ranges(caps.drop_last(), len);
        let c = caps.last();
        if c.1 <= c.2 && c.2 <= len {
            prev.push((c.1, c.2))
        } else {
            prev
        }
    }
}

/// The byte ranges of the captures of the matches, match by match, that lie
/// within a text of `len` bytes.
pub open spec fn hit_ranges(hits: Seq<Seq<(Seq<char>, usize, usize)>>, len: int) -> Seq<(usize, usize)>
    decreases hits.len(),
{
    if hits.len() == 0 {
        seq![]
    } else {
        hit_ranges(hits.drop_last(), len) + capture_ranges(hits.last(), len)
    }
}

/// The byte ranges of the captures of the matches of each query, query by
/// query, that lie within a text of `len` bytes.
pub open spec fn found_ranges(found: Seq<Seq<Seq<(Seq<char>, usize, usize)>>>, len: int) -> Seq<(usize, usize)>
    decreases found.len(),
{
    if found.len() == 0 {
        seq![]
    } else {
        found_ranges(found.drop_last(), len) + hit_ranges(found.last(), len)
    }
}

/// The captures that lie within a text of `len` bytes, in order.
pub open spec fn kept_captures(caps: Seq<(Seq<char>, usize, usize)>, len: int) -> Seq<(Seq<char>, usize, usize)>
    decreases caps.len(),
{
    if caps.len() == 0 {
        seq![]
    } else {
        let prev = kept_captures(caps.drop_last(), len);
        let c = caps.last();
        if c.1 <= c.2 && c.2 <= len {
            prev.push(c)
        } else {
            prev
        }
    }
}

/// Each match, in order, with only its captures that lie within a text of
/// `len` bytes.
pub open spec fn kept_hits(hits: Seq<Seq<(Seq<char>, usize, usize)>>, len: int) -> Seq<Seq<(Seq<char>, usize, usize)>> {
    hits.map_values(|h: Seq<(Seq<char>, usize, usize)>| kept_captures(h, len))
}

/// The matches of each query, query by query, each with only its captures
/// that lie within a text of `len` bytes.
pub open spec fn found_hits(found: Seq<Seq<Seq<(Seq<char>, usize, usize)>>>, len: int) -> Seq<Seq<(Seq<char>, usize, usize)>>
    decreases found.len(),
{
    if found.len() == 0 {
        seq![]
    } else {
        found_hits(found.drop_last(), len) + kept_hits(found.last(), len)
    }
}

/// The byte ranges of the captures of `hits`, match by match, that lie within
/// a text of `len` bytes.
pub fn ranges_of_hits(hits: &[QueryHit], len: usize) -> (res: Vec<(usize, usize)>)
    ensures
        res@ == hit_ranges(hits_view(hits@), len as int),
        ranges_within(res@, len as int),
{
    let ghost hv = hits_view(hits@);
    let mut res: Vec<(usize, usize)> = Vec::new();
    for h in 0..hits.len()
        invariant
            hv == hits_view(hits@),
            res@ == hit_ranges(hv.take(h as int), len as int),
            ranges_within(res@, len as int),
    {
        assert(hv.take(h + 1).drop_last() =~= hv.take(h as int));
        assert(hv.take(h + 1).last() == hit_view(hits@[h as int]));
        let caps = &hits[h].captures;
        let ghost cv = hit_view(hits@[h as int]);
        let ghost base = res@;
        for k in 0..caps.len()
            invariant
                cv == caps@.map_values(|c: Capture| capture_view(c)),
                res@ == base + capture_ranges(cv.take(k as int), len as int),
                ranges_within(res@, len as int),
        {
            assert(cv.take(k + 1).drop_last() =~= cv.take(k as int));
            assert(cv.take(k + 1).last() == capture_view(caps@[k as int]));
            let c = &caps[k];
            let ghost before = res@;
            if c.start <= c.end && c.end <= len {
                res.push((c.start, c.end));
                assert(res@ =~= base + capture_ranges(cv.take(k + 1), len as int));
                assert forall|i: int| 0 <= i < res@.len() implies #[trigger] res@[i].0 <= res@[i].1 <= len by {
                    if i < before.len() {
                        assert(res@[i] == before[i]);
                    }
                }
            }
        }
        assert(cv.take(cv.len() as int) =~= cv);
    }
    assert(hv.take(hv.len() as int) =~= hv);
    res
}

/// The matches the library takes of one query (see `query_found`).
fn matches_of(tree: &Tree, source: &str, query: &str) -> (res: Vec<QueryHit>)
    ensures
        hits_view(res@) == query_found(*tree, source@, query@),
{
    proof {
        reveal_strlit("#");
    }
    if str_contains(query, "#") {
        assert("#"@ =~= seq!['#']);
        let none: Vec<QueryHit> = Vec::new();
        assert(hits_view(none@) =~= Seq::<Seq<(Seq<char>, usize, usize)>>::empty());
        return none;
    }
    assert("#"@ =~= seq!['#']);
    let chars = chars_of(query);
    let mut safe_end = false;
    if chars.len() > 0 {
        let c = chars[chars.len() - 1];
        assert(c == query@.last());
        safe_end = c <= '\x7f' && !('a' <= c && c <= 'z') && !('A' <= c && c <= 'Z') && !('0' <= c && c <= '9')
            && c != '_' && c != '-';
    }
    assert(safe_end == (query@.len() > 0 && ends_no_name(query@.last())));
    let mut run = String::from_str(query);
    if !safe_end {
        run.append(" ");
        proof {
            reveal_strlit(" ");
        }
        assert(run@ =~= query@.push(' '));
    }
    assert(run@ == query_as_run(query@));
    assert(!contains_seq(run@, seq!['#'])) by {
        if contains_seq(run@, seq!['#']) {
            let i = choose|i: int| occurs_at(run@, seq!['#'], i);
            assert(run@.subrange(i, i + 1)[0] == run@[i]);
            assert(run@[i] == '#');
            assert(i < query@.len());
            assert(run@[i] == query@[i]);
            assert(query@.subrange(i, i + 1) =~= seq!['#']);
            assert(occurs_at(query@, seq!['#'], i));
        }
    }
    match query_matches(tree, source, run.as_str()) {
        Some(hits) => hits,
        None => {
            let none: Vec<QueryHit> = Vec::new();
            assert(hits_view(none@) =~= Seq::<Seq<(Seq<char>, usize, usize)>>::empty());
            none
        },
    }
}

/// The byte ranges of all captures of all matches of the queries, query by
/// query, leaving out any range that does not lie within `source`.
pub fn query_ranges(tree: &Tree, source: &str, queries: &[&str]) -> (res: Vec<(usize, usize)>)
    ensures
        ranges_within(res@, source.spec_bytes().len() as int),
        res@ == found_ranges(queries_found(*tree, source@, queries@), source.spec_bytes().len() as int),
{
    let len = source.as_bytes().len();
    let ghost found = queries_found(*tree, source@, queries@);
    let mut res: Vec<(usize, usize)> = Vec::new();
    for q in 0..queries.len()
        invariant
            len == source.spec_bytes().len(),
            found == queries_found(*tree, source@, queries@),
            ranges_within(res@, len as int),
            res@ == found_ranges(found.take(q as int), len as int),
    {
        let ghost prev = res@;
        let hits = matches_of(tree, source, queries[q]);
        let mut more = ranges_of_hits(hits.as_slice(), len);
        let ghost added = more@;
        res.append(&mut more);
        proof {
            assert(found.take(q + 1).drop_last() =~= found.take(q as int));
            assert(found.take(q + 1).last() == found[q as int]);
            assert forall|i: int| 0 <= i < res@.len() implies #[trigger] res@[i].0 <= res@[i].1 <= len by {
                if i < prev.len() {
                    assert(res@[i] == prev[i]);
                } else {
                    assert(res@[i] == added[i - prev.len()]);
                }
            }
        }
    }
    assert(found.take(found.len() as int) =~= found);
    res
}

/// Captures whose byte ranges lie within a text of `len` bytes.
pub open spec fn hits_within(hits: Seq<QueryHit>, len: int) -> bool {
    forall|i: int, j: int|
        0 <= i < hits.len() && 0 <= j < hits[i].captures@.len() ==> #[trigger] hits[i].captures@[j].start
            <= hits[i].captures@[j].end <= len
}

/// Captures that lie within a text of `len` bytes.
pub open spec fn captures_within(caps: Seq<Capture>, len: int) -> bool {
    forall|j: int| 0 <= j < caps.len() ==> #[trigger] caps[j].start <= caps[j].end <= len
}

/// The captures, in order, that lie within a text of `len` bytes.
#[verifier::spinoff_prover]
fn captures_in_source(caps: &Vec<Capture>, len: usize) -> (res: Vec<Capture>)
    ensures
        res@.map_values(|c: Capture| capture_view(c)) == kept_captures(
            caps@.map_values(|c: Capture| capture_view(c)),
            len as int,
        ),
        captures_within(res@, len as int),
{
    let ghost cv = caps@.map_values(|c: Capture| capture_view(c));
    let mut kept: Vec<Capture> = Vec::new();
    for k in 0..caps.len()
        invariant
            cv == caps@.map_values(|c: Capture| capture_view(c)),
            kept@.map_values(|c: Capture| capture_view(c)) == kept_captures(cv.take(k as int), len as int),
            captures_within(kept@, len as int),
    {
        assert(cv.take(k + 1).drop_last() =~= cv.take(k as int));
        assert(cv.take(k + 1).last() == capture_view(caps@[k as int]));
        let c = &caps[k];
        if c.start <= c.end && c.end <= len {
            let ghost before_kept = kept@;
            let copy = Capture { name: c.name.clone(), start: c.start, end: c.end };
            assert(capture_view(copy) == capture_view(*c));
            kept.push(copy);
            assert(kept@.map_values(|c: Capture| capture_view(c)) =~= before_kept.map_values(
                |c: Capture| capture_view(c),
            ).push(capture_view(copy)));
            assert forall|j: int| 0 <= j < kept@.len() implies #[trigger] kept@[j].start <= kept@[j].end <= len by {
                if j < before_kept.len() {
                    assert(kept@[j] == before_kept[j]);
                } else {
                    assert(kept@[j] == copy);
                }
            }
        }
    }
    assert(cv.take(cv.len() as int) =~= cv);
    kept
}

/// The matches, in order, each with only its captures that lie within a text
/// of `len` bytes.
pub fn hits_in_source(hits: &[QueryHit], len: usize) -> (res: Vec<QueryHit>)
    ensures
        hits_view(res@) == kept_hits(hits_view(hits@), len as int),
        hits_within(res@, len as int),
{
    let ghost hv = hits_view(hits@);
    let mut res: Vec<QueryHit> = Vec::new();
    for h in 0..hits.len()
        invariant
            hv == hits_view(hits@),
            hits_view(res@) == kept_hits(hv.take(h as int), len as int),
            hits_within(res@, len as int),
    {
        let ghost cv = hit_view(hits@[h as int]);
        let kept = captures_in_source(&hits[h].captures, len);
        let ghost before = res@;
        let hit = QueryHit { captures: kept };
        res.push(hit);
        assert(hits_view(res@) =~= hits_view(before).push(kept_captures(cv, len as int)));
        assert(hv[h as int] == cv);
        assert(kept_hits(hv.take(h + 1), len as int) =~= kept_hits(hv.take(h as int), len as int).push(
            kept_captures(cv, len as int),
        ));
        assert forall|i: int, j: int|
            0 <= i < res@.len() && 0 <= j < res@[i].captures@.len() implies #[trigger] res@[i].captures@[j].start
                <= res@[i].captures@[j].end <= len by {
            if i < before.len() {
                assert(res@[i] == before[i]);
            }
        }
    }
    assert(hv.take(hv.len() as int) =~= hv);
    res
}

/// All matches of the queries, query by query, each with only its captures
/// that lie within `source`.
pub fn query_hits(tree: &Tree, source: &str, queries: &[&str]) -> (res: Vec<QueryHit>)
    ensures
        hits_within(res@, source.spec_bytes().len() as int),
        hits_view(res@) == found_hits(queries_found(*tree, source@, queries@), source.spec_bytes().len() as int),
{
    let len = source.as_bytes().len();
    let ghost found = queries_found(*tree, source@, queries@);
    let mut res: Vec<QueryHit> = Vec::new();
    for q in 0..queries.len()
        invariant
            len == source.spec_bytes().len(),
            found == queries_found(*tree, source@, queries@),
            hits_within(res@, len as int),
            hits_view(res@) == found_hits(found.take(q as int), len as int),
    {
        let ghost prev = res@;
        let hits = matches_of(tree, source, queries[q]);
        let mut more = hits_in_source(hits.as_slice(), len);
        let ghost added = more@;
        res.append(&mut more);
        proof {
            assert(found.take(q + 1).drop_last() =~= found.take(q as int));
            assert(found.take(q + 1).last() == found[q as int]);
            assert(hits_view(res@) =~= hits_view(prev) + hits_view(added));
            assert forall|i: int, j: int|
                0 <= i < res@.len() && 0 <= j < res@[i].captures@.len() implies #[trigger] res@[i].captures@[j].start
                    <= res@[i].captures@[j].end <= len by {
                if i < prev.len() {
                    assert(res@[i] == prev[i]);
                } else {
                    assert(res@[i] == added[i - prev.len()]);
                    assert(added[i - prev.len()].captures@[j].start <= added[i - prev.len()].captures@[j].end <= len);
                }
            }
        }
    }
    assert(found.take(found.len() as int) =~= found);
    res
}

/// The value of an optional edit.
pub open spec fn opt_view(o: Option<Edit>) -> Option<EditView> {
    match o {
        Some(e) => Some(e@),
        None => None,
    }
}

/// The values of a sequence of optional edits.
pub open spec fn cands_view(cands: Seq<Option<Edit>>) -> Seq<Option<EditView>> {
    cands.map_values(|o: Option<Edit>| opt_view(o))
}

/// Takes the candidates in order, each unless it meets an edit taken before it.
pub fn take_candidates(edits: &mut Vec<Edit>, cands: &Vec<Option<Edit>>)
    ensures
        edits_view(final(edits)@) == accumulate(edits_view(old(edits)@), cands_view(cands@)),
{
    let ghost start_view = edits_view(edits@);
    for i in 0..cands.len()
        invariant
            edits_view(edits@) == accumulate(start_view, cands_view(cands@.take(i as int))),
    {
        let ghost prev = cands_view(cands@.take(i as int));
        assert(cands_view(cands@.take(i + 1)) =~= prev.push(opt_view(cands@[i as int])));
        proof {
            lemma_accumulate_push(start_view, prev, opt_view(cands@[i as int]));
        }
        match &cands[i] {
            Some(e) => {
                let copy = Edit { start: e.start, end: e.end, replacement: e.replacement.clone() };
                assert(copy@ == e@);
                take_unless_overlapping(edits, copy);
            },
            None => {},
        }
    }
    assert(cands@.take(cands@.len() as int) =~= cands@);
}

/// Every edit taken from candidates was taken before or is one of the candidates.
pub proof fn lemma_accumulate_members(prev: Seq<EditView>, cands: Seq<Option<EditView>>, e: EditView)
    requires
        accumulate(prev, cands).contains(e),
    ensures
        prev.contains(e) || exists|i: int| 0 <= i < cands.len() && cands[i] == Some(e),
    decreases cands.len(),
{
    if cands.len() > 0 {
        let acc = accumulate(prev, cands.drop_last());
        if acc.contains(e) {
            lemma_accumulate_members(prev, cands.drop_last(), e);
            if !prev.contains(e) {
                let i = choose|i: int| 0 <= i < cands.drop_last().len() && cands.drop_last()[i] == Some(e);
                assert(cands[i] == Some(e));
            }
        } else {
            assert(cands.last() == Some(e));
            assert(cands[cands.len() - 1] == Some(e));
        }
    }
}

/// Candidates that are non-empty ranges, in order of start byte.
pub open spec fn candidates_in_order(cands: Seq<Option<EditView>>) -> bool {
    &&& forall|i: int| 0 <= i < cands.len() && #[trigger] cands[i] is Some ==> cands[i]->0.start < cands[i]->0.end
    &&& forall|i: int, j: int|
        0 <= i < j < cands.len() && #[trigger] cands[i] is Some && #[trigger] cands[j] is Some
            ==> cands[i]->0.start <= cands[j]->0.start
}

/// When a strategy's candidates come in order of start byte (as a query's
/// captures do), the edits it takes are ordered and pairwise disjoint: no
/// candidate that meets a taken edit slips through.
pub proof fn law_taken_edits_disjoint(cands: Seq<Option<EditView>>)
    requires
        candidates_in_order(cands),
    ensures
        disjoint_sorted(accumulate(seq![], cands)),
    decreases cands.len(),
{
    if cands.len() > 0 {
        let init = cands.drop_last();
        assert(candidates_in_order(init)) by {
            assert forall|i: int, j: int|
                0 <= i < j < init.len() && #[trigger] init[i] is Some && #[trigger] init[j] is Some implies init[i]->0.start
                <= init[j]->0.start by {
                assert(init[i] == cands[i] && init[j] == cands[j]);
            }
            assert forall|i: int| 0 <= i < init.len() && #[trigger] init[i] is Some implies init[i]->0.start
                < init[i]->0.end by {
                assert(init[i] == cands[i]);
            }
        }
        law_taken_edits_disjoint(init);
        let acc = accumulate(seq![], init);
        let last_index = cands.len() - 1;
        assert(cands.last() == cands[last_index]);
        match cands.last() {
            Some(e) => {
                assert(e.start < e.end);
                if !spec_has_overlap(acc, e.start, e.end) {
                    law_has_overlap_exact(acc, e.start, e.end);
                    assert forall|k: int| 0 <= k < acc.len() implies #[trigger] acc[k].start <= e.start by {
                        assert(acc.contains(acc[k]));
                        lemma_accumulate_members(seq![], init, acc[k]);
                        let i = choose|i: int| 0 <= i < init.len() && init[i] == Some(acc[k]);
                        assert(cands[i] == init[i]);
                    }
                    let next = acc.push(e);
                    assert forall|i: int, j: int| 0 <= i < j < next.len() implies next[i].end <= next[j].start by {
                        if j == acc.len() {
                            assert(!overlaps(acc[i], e.start, e.end));
                            assert(acc[i].start < acc[i].end);
                        }
                    }
                    assert forall|i: int| 0 <= i < next.len() implies #[trigger] next[i].start < next[i].end by {}
                }
            },
            None => {},
        }
    }
}

/// Taking more candidates only adds edits after those already taken.
pub proof fn lemma_accumulate_extends(prev: Seq<EditView>, cands: Seq<Option<EditView>>)
    ensures
        accumulate(prev, cands).len() >= prev.len(),
        accumulate(prev, cands).take(prev.len() as int) == prev,
    decreases cands.len(),
{
    if cands.len() > 0 {
        lemma_accumulate_extends(prev, cands.drop_last());
        let acc = accumulate(prev, cands.drop_last());
        match cands.last() {
            Some(e) => {
                if !spec_has_overlap(acc, e.start, e.end) {
                    assert(acc.push(e).take(prev.len() as int) =~= acc.take(prev.len() as int));
                }
            },
            None => {},
        }
    }
}

/// The edits taken from a prefix of the candidates come first among those
/// taken from all of them.
pub proof fn lemma_accumulate_prefix(prev: Seq<EditView>, cands: Seq<Option<EditView>>, k: int)
    requires
        0 <= k <= cands.len(),
    ensures
        accumulate(prev, cands.take(k)).len() <= accumulate(prev, cands).len(),
        accumulate(prev, cands).take(accumulate(prev, cands.take(k)).len() as int) == accumulate(prev, cands.take(k)),
    decreases cands.len(),
{
    if k == cands.len() {
        assert(cands.take(k) =~= cands);
    } else {
        let init = cands.drop_last();
        assert(init.take(k) =~= cands.take(k));
        lemma_accumulate_prefix(prev, init, k);
        let acc = accumulate(prev, init);
        let pre = accumulate(prev, cands.take(k));
        match cands.last() {
            Some(e) => {
                if !spec_has_overlap(acc, e.start, e.end) {
                    assert(acc.push(e).take(pre.len() as int) =~= acc.take(pre.len() as int));
                }
            },
            None => {},
        }
    }
}

/// Every candidate is taken unless it overlaps an edit taken from the
/// candidates before it.
pub proof fn law_candidate_taken_unless_overlapping(prev: Seq<EditView>, cands: Seq<Option<EditView>>, k: int, e: EditView)
    requires
        0 <= k < cands.len(),
        cands[k] == Some(e),
    ensures
        accumulate(prev, cands).contains(e) || spec_has_overlap(accumulate(prev, cands.take(k)), e.start, e.end),
{
    let before = accumulate(prev, cands.take(k));
    assert(cands.take(k + 1) =~= cands.take(k).push(cands[k]));
    lemma_accumulate_push(prev, cands.take(k), cands[k]);
    lemma_accumulate_prefix(prev, cands, k + 1);
    if !spec_has_overlap(before, e.start, e.end) {
        let upto = accumulate(prev, cands.take(k + 1));
        assert(upto == before.push(e));
        let all = accumulate(prev, cands);
        assert(all.take(upto.len() as int)[before.len() as int] == e);
        assert(all[before.len() as int] == e);
    }
}

/// The matches of a prefix of the queries, and then those of the next query,
/// come first among the matches of all the queries.
pub proof fn lemma_found_ranges_prefix(found: Seq<Seq<Seq<(Seq<char>, usize, usize)>>>, len: int, k: int)
    requires
        0 <= k <= found.len(),
    ensures
        found_ranges(found.take(k), len).len() <= found_ranges(found, len).len(),
        found_ranges(found, len).take(found_ranges(found.take(k), len).len() as int) == found_ranges(found.take(k), len),
    decreases found.len(),
{
    if k == found.len() {
        assert(found.take(k) =~= found);
    } else {
        let init = found.drop_last();
        assert(init.take(k) =~= found.take(k));
        lemma_found_ranges_prefix(init, len, k);
        let a = found_ranges(init, len);
        let b = hit_ranges(found.last(), len);
        let pre = found_ranges(found.take(k), len);
        assert((a + b).take(pre.len() as int) =~= a.take(pre.len() as int));
    }
}

/// The ranges captured by the query at position `j` of a list follow, as one
/// block, those captured by the queries before it.
pub proof fn lemma_captured_ranges_block(tree: Tree, source: Seq<char>, len: int, queries: Seq<&str>, j: int, q: &str)
    requires
        0 <= j < queries.len(),
        queries[j]@ == q@,
    ensures
        ({
            let pre = captured_ranges(tree, source, len, queries.take(j));
            let own = captured_ranges(tree, source, len, seq![q]);
            let all = captured_ranges(tree, source, len, queries);
            pre.len() + own.len() <= all.len() && all.subrange(pre.len() as int, (pre.len() + own.len()) as int) == own
        }),
{
    let found = queries_found(tree, source, queries);
    assert(queries_found(tree, source, queries.take(j)) =~= found.take(j));
    assert(queries_found(tree, source, queries.take(j + 1)) =~= found.take(j + 1));
    let one = queries_found(tree, source, seq![q]);
    assert(one.len() == 1);
    assert(one[0] == found[j]);
    assert(one.drop_last() =~= Seq::<Seq<Seq<(Seq<char>, usize, usize)>>>::empty());
    assert(found_ranges(one, len) == found_ranges(one.drop_last(), len) + hit_ranges(one.last(), len));
    assert(found.take(j + 1).drop_last() =~= found.take(j));
    assert(found.take(j + 1).last() == found[j]);
    lemma_found_ranges_prefix(found, len, j + 1);
    let pre = found_ranges(found.take(j), len);
    let own = hit_ranges(found[j], len);
    let upto = found_ranges(found.take(j + 1), len);
    assert(upto == pre + own);
    assert(found_ranges(one, len) =~= own);
    let all = found_ranges(found, len);
    assert(all.subrange(pre.len() as int, (pre.len() + own.len()) as int) =~= own) by {
        assert forall|t: int| 0 <= t < own.len() implies all[pre.len() + t] == own[t] by {
            assert(all.take(upto.len() as int)[pre.len() + t] == upto[pre.len() + t]);
        }
    }
}

} // verus!
