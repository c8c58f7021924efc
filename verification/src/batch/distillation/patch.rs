use vstd::prelude::*;
use crate::batch::distillation::graph::{GraphNode, GraphRelation, GraphEdge, ProjectGraph};
use crate::batch::distillation::plan::{apply_token_diff, token_count_after};
use crate::text::{str_eq, strings_view};

verus! {

/// The node at the other end of `e` from `n`.
pub open spec fn other_end(e: GraphEdge, n: usize) -> usize {
    if e.source == n {
        e.target
    } else {
        e.source
    }
}

/// Edge `i` is an import, either way, between node `f` and a file.
pub open spec fn imported_via(g: ProjectGraph, f: usize, i: int) -> bool {
    &&& 0 <= i < g.edges@.len()
    &&& g.edges@[i].relation == GraphRelation::Imports
    &&& (g.edges@[i].source == f || g.edges@[i].target == f)
    &&& g.file_path(other_end(g.edges@[i], f) as int) is Some
}

/// Edges `i`, `j`, `k` lead from node `f` to a file: `i` is `f` containing a
/// symbol, `j` a call or reference, either way, between that symbol and
/// another symbol, and `k` a file containing the other symbol.
pub open spec fn linked_via(g: ProjectGraph, f: usize, i: int, j: int, k: int) -> bool {
    &&& 0 <= i < g.edges@.len()
    &&& 0 <= j < g.edges@.len()
    &&& 0 <= k < g.edges@.len()
    &&& g.edges@[i].relation == GraphRelation::Contains
    &&& g.edges@[i].source == f
    &&& g.is_symbol(g.edges@[i].target as int)
    &&& (g.edges@[j].relation == GraphRelation::Calls || g.edges@[j].relation == GraphRelation::References)
    &&& (g.edges@[j].source == g.edges@[i].target || g.edges@[j].target == g.edges@[i].target)
    &&& g.is_symbol(other_end(g.edges@[j], g.edges@[i].target) as int)
    &&& g.edges@[k].relation == GraphRelation::Contains
    &&& g.edges@[k].target == other_end(g.edges@[j], g.edges@[i].target)
    &&& g.file_path(g.edges@[k].source as int) is Some
}

/// Whether a change of the file at `changed` (its node being `node`, where the
/// graph has one) affects the file at `p`: the changed file itself, the files
/// it imports or that import it, and the files whose symbols call or refer to
/// its symbols or are called or referred to by them.
pub open spec fn affected(g: ProjectGraph, changed: Seq<char>, node: Option<usize>, p: Seq<char>) -> bool {
    ||| p == changed
    ||| (node matches Some(f) && exists|i: int|
        #[trigger] imported_via(g, f, i) && g.file_path(other_end(g.edges@[i], f) as int) == Some(p))
    ||| (node matches Some(f) && exists|i: int, j: int, k: int|
        #[trigger] linked_via(g, f, i, j, k) && g.file_path(g.edges@[k].source as int) == Some(p))
}

/// Within a graph whose file nodes have distinct paths, a change of one file
/// affects another exactly when a change of the other affects the first:
/// imports count either way, and calls and references between their symbols
/// count from either side.
pub proof fn law_affecting_is_mutual(g: ProjectGraph, a: usize, b: usize, pa: Seq<char>, pb: Seq<char>)
    requires
        g.wf(),
        a < g.nodes@.len(),
        b < g.nodes@.len(),
        g.file_path(a as int) == Some(pa),
        g.file_path(b as int) == Some(pb),
        forall|n: int, m: int|
            0 <= n < g.nodes@.len() && 0 <= m < g.nodes@.len() && #[trigger] g.file_path(n) is Some
                && #[trigger] g.file_path(m) == g.file_path(n) ==> n == m,
        affected(g, pa, Some(a), pb),
    ensures
        affected(g, pb, Some(b), pa),
{
    if pb == pa {
        return;
    }
    if exists|i: int| #[trigger] imported_via(g, a, i) && g.file_path(other_end(g.edges@[i], a) as int) == Some(pb) {
        let i = choose|i: int| #[trigger] imported_via(g, a, i) && g.file_path(other_end(g.edges@[i], a) as int) == Some(pb);
        let c = other_end(g.edges@[i], a);
        assert(c < g.nodes@.len());
        assert(g.file_path(c as int) == g.file_path(b as int));
        assert(c == b);
        assert(other_end(g.edges@[i], b) == a);
        assert(imported_via(g, b, i));
    } else {
        let (i, j, k) = choose|i: int, j: int, k: int|
            #[trigger] linked_via(g, a, i, j, k) && g.file_path(g.edges@[k].source as int) == Some(pb);
        let c = g.edges@[k].source;
        assert(c < g.nodes@.len());
        assert(g.file_path(c as int) == g.file_path(b as int));
        assert(c == b);
        let sym = g.edges@[i].target;
        assert(other_end(g.edges@[j], other_end(g.edges@[j], sym)) == sym);
        assert(linked_via(g, b, k, j, i));
        assert(g.file_path(g.edges@[i].source as int) == Some(pa));
    }
}

/// Adds `p` to a list of distinct paths, unless it is there.
fn add_path(paths: &mut Vec<String>, p: &str)
    requires
        strings_view(old(paths)@).no_duplicates(),
    ensures
        strings_view(final(paths)@).no_duplicates(),
        forall|q: Seq<char>| #[trigger] strings_view(final(paths)@).contains(q) <==> (strings_view(old(paths)@).contains(q) || q == p@),
{
    let ghost before = strings_view(paths@);
    let mut k: usize = 0;
    while k < paths.len()
        invariant
            k <= paths@.len(),
            before == strings_view(paths@),
            before.no_duplicates(),
            forall|m: int| 0 <= m < k ==> #[trigger] before[m] != p@,
        decreases paths@.len() - k,
    {
        if str_eq(paths[k].as_str(), p) {
            assert(before[k as int] == p@);
            return;
        }
        k = k + 1;
    }
    paths.push(String::from_str(p));
    assert(strings_view(paths@) =~= before.push(p@));
    assert forall|q: Seq<char>| #[trigger] strings_view(paths@).contains(q) <==> (before.contains(q) || q == p@) by {
        if strings_view(paths@).contains(q) {
            let m = choose|m: int| 0 <= m < strings_view(paths@).len() && strings_view(paths@)[m] == q;
            if m < before.len() {
                assert(before[m] == q);
            }
        }
        if before.contains(q) {
            let m = choose|m: int| 0 <= m < before.len() && before[m] == q;
            assert(strings_view(paths@)[m] == q);
        }
        if q == p@ {
            assert(strings_view(paths@)[before.len() as int] == q);
        }
    }
}

/// The files that a change of the file at `changed` affects, each once; `node`
/// is the changed file's node in the graph, where it has one.
pub fn affected_paths(graph: &ProjectGraph, changed: &str, node: Option<usize>) -> (res: Vec<String>)
    requires
        graph.wf(),
        node matches Some(f) ==> f < graph.nodes@.len(),
    ensures
        strings_view(res@).no_duplicates(),
        forall|p: Seq<char>| #[trigger] strings_view(res@).contains(p) <==> affected(*graph, changed@, node, p),
{
    let mut res: Vec<String> = Vec::new();
    add_path(&mut res, changed);
    let f = match node {
        None => {
            return res;
        },
        Some(f) => f,
    };
    let n = graph.edges.len();
    for i in 0..n
        invariant
            n == graph.edges@.len(),
            graph.wf(),
            node == Some(f),
            strings_view(res@).no_duplicates(),
            forall|p: Seq<char>| #[trigger] strings_view(res@).contains(p) ==> affected(*graph, changed@, node, p),
            strings_view(res@).contains(changed@),
            forall|i2: int|
                0 <= i2 < i && #[trigger] imported_via(*graph, f, i2) ==> strings_view(res@).contains(
                    graph.file_path(other_end(graph.edges@[i2], f) as int)->0,
                ),
    {
        let e = graph.edges[i];
        if e.relation == GraphRelation::Imports && (e.source == f || e.target == f) {
            let o = if e.source == f {
                e.target
            } else {
                e.source
            };
            match &graph.nodes[o] {
                GraphNode::File(p) => {
                    assert(imported_via(*graph, f, i as int));
                    add_path(&mut res, p.as_str());
                },
                _ => {},
            }
        }
    }
    for i in 0..n
        invariant
            n == graph.edges@.len(),
            graph.wf(),
            node == Some(f),
            strings_view(res@).no_duplicates(),
            forall|p: Seq<char>| #[trigger] strings_view(res@).contains(p) ==> affected(*graph, changed@, node, p),
            strings_view(res@).contains(changed@),
            forall|i2: int|
                0 <= i2 < n && #[trigger] imported_via(*graph, f, i2) ==> strings_view(res@).contains(
                    graph.file_path(other_end(graph.edges@[i2], f) as int)->0,
                ),
            forall|i2: int, j2: int, k2: int|
                0 <= i2 < i && #[trigger] linked_via(*graph, f, i2, j2, k2) ==> strings_view(res@).contains(
                    graph.file_path(graph.edges@[k2].source as int)->0,
                ),
    {
        let ei = graph.edges[i];
        let s = ei.target;
        let contains_symbol = ei.relation == GraphRelation::Contains && ei.source == f && match &graph.nodes[s] {
            GraphNode::Symbol { .. } => true,
            _ => false,
        };
        if contains_symbol {
            for j in 0..n
                invariant
                    n == graph.edges@.len(),
                    graph.wf(),
                    node == Some(f),
                    i < n,
                    ei == graph.edges@[i as int],
                    s == ei.target,
                    ei.relation == GraphRelation::Contains && ei.source == f && graph.is_symbol(s as int),
                    strings_view(res@).no_duplicates(),
                    forall|p: Seq<char>| #[trigger] strings_view(res@).contains(p) ==> affected(*graph, changed@, node, p),
                    strings_view(res@).contains(changed@),
                    forall|i2: int|
                        0 <= i2 < n && #[trigger] imported_via(*graph, f, i2) ==> strings_view(res@).contains(
                            graph.file_path(other_end(graph.edges@[i2], f) as int)->0,
                        ),
                    forall|i2: int, j2: int, k2: int|
                        0 <= i2 < i && #[trigger] linked_via(*graph, f, i2, j2, k2) ==> strings_view(res@).contains(
                            graph.file_path(graph.edges@[k2].source as int)->0,
                        ),
                    forall|j2: int, k2: int|
                        0 <= j2 < j && #[trigger] linked_via(*graph, f, i as int, j2, k2) ==> strings_view(res@).contains(
                            graph.file_path(graph.edges@[k2].source as int)->0,
                        ),
            {
                let ej = graph.edges[j];
                let linked = (ej.relation == GraphRelation::Calls || ej.relation == GraphRelation::References) && (
                ej.source == s || ej.target == s);
                let o = if ej.source == s {
                    ej.target
                } else {
                    ej.source
                };
                let other_is_symbol = linked && match &graph.nodes[o] {
                    GraphNode::Symbol { .. } => true,
                    _ => false,
                };
                if other_is_symbol {
                    for k in 0..n
                        invariant
                            n == graph.edges@.len(),
                            graph.wf(),
                            node == Some(f),
                            i < n,
                            j < n,
                            ei == graph.edges@[i as int],
                            ej == graph.edges@[j as int],
                            s == ei.target,
                            o == other_end(ej, s),
                            ei.relation == GraphRelation::Contains && ei.source == f && graph.is_symbol(s as int),
                            (ej.relation == GraphRelation::Calls || ej.relation == GraphRelation::References),
                            ej.source == s || ej.target == s,
                            graph.is_symbol(o as int),
                            strings_view(res@).no_duplicates(),
                            forall|p: Seq<char>| #[trigger] strings_view(res@).contains(p) ==> affected(*graph, changed@, node, p),
                            strings_view(res@).contains(changed@),
                            forall|i2: int|
                                0 <= i2 < n && #[trigger] imported_via(*graph, f, i2) ==> strings_view(res@).contains(
                                    graph.file_path(other_end(graph.edges@[i2], f) as int)->0,
                                ),
                            forall|i2: int, j2: int, k2: int|
                                0 <= i2 < i && #[trigger] linked_via(*graph, f, i2, j2, k2) ==> strings_view(res@).contains(
                                    graph.file_path(graph.edges@[k2].source as int)->0,
                                ),
                            forall|j2: int, k2: int|
                                0 <= j2 < j && #[trigger] linked_via(*graph, f, i as int, j2, k2) ==> strings_view(res@).contains(
                                    graph.file_path(graph.edges@[k2].source as int)->0,
                                ),
                            forall|k2: int|
                                0 <= k2 < k && #[trigger] linked_via(*graph, f, i as int, j as int, k2) ==> strings_view(res@).contains(
                                    graph.file_path(graph.edges@[k2].source as int)->0,
                                ),
                    {
                        let ek = graph.edges[k];
                        if ek.relation == GraphRelation::Contains && ek.target == o {
                            match &graph.nodes[ek.source] {
                                GraphNode::File(p) => {
                                    assert(linked_via(*graph, f, i as int, j as int, k as int));
                                    add_path(&mut res, p.as_str());
                                },
                                _ => {},
                            }
                        }
                    }
                }
            }
        }
    }
    res
}

/// What patching a layer found for one affected file, with its token counts.
pub enum PatchedFile {
    /// The file is no longer in the project: what it counted leaves the totals.
    Removed { old_original: usize, old_distilled: usize },
    /// The file was read and distilled again.
    Redistilled { old_original: usize, old_distilled: usize, new_original: usize, new_distilled: usize },
    /// The file is in the project but could not be read: the totals stay.
    Unread,
}

/// How a file changes a layer's original and distilled token totals.
pub open spec fn file_diffs(f: PatchedFile) -> (int, int) {
    match f {
        PatchedFile::Removed { old_original, old_distilled } => (-old_original, -old_distilled),
        PatchedFile::Redistilled { old_original, old_distilled, new_original, new_distilled } => (
            new_original - old_original,
            new_distilled - old_distilled,
        ),
        PatchedFile::Unread => (0, 0),
    }
}

/// The changes of the original and distilled totals over the files.
pub open spec fn total_diffs(fs: Seq<PatchedFile>) -> (int, int)
    decreases fs.len(),
{
    if fs.len() == 0 {
        (0, 0)
    } else {
        let prev = total_diffs(fs.drop_last());
        let d = file_diffs(fs.last());
        (prev.0 + d.0, prev.1 + d.1)
    }
}

/// Every count fits in `isize`, and so does each running sum of changes.
pub open spec fn diffs_fit(fs: Seq<PatchedFile>) -> bool {
    &&& forall|k: int|
        0 <= k < fs.len() ==> match #[trigger] fs[k] {
            PatchedFile::Removed { old_original, old_distilled } => old_original <= isize::MAX && old_distilled
                <= isize::MAX,
            PatchedFile::Redistilled { old_original, old_distilled, new_original, new_distilled } => old_original
                <= isize::MAX && old_distilled <= isize::MAX && new_original <= isize::MAX && new_distilled
                <= isize::MAX,
            PatchedFile::Unread => true,
        }
    &&& forall|k: int|
        0 <= k <= fs.len() ==> isize::MIN <= #[trigger] total_diffs(fs.take(k)).0 <= isize::MAX && isize::MIN
            <= total_diffs(fs.take(k)).1 <= isize::MAX
}

/// A layer's original and distilled token totals after patching the files:
/// each total moves by the files' changes and never goes below zero.
pub fn patched_totals(original_tokens: usize, final_tokens: usize, files: &[PatchedFile]) -> (res: (usize, usize))
    requires
        diffs_fit(files@),
        original_tokens <= isize::MAX,
        final_tokens <= isize::MAX,
        original_tokens + total_diffs(files@).0 <= isize::MAX,
        final_tokens + total_diffs(files@).1 <= isize::MAX,
    ensures
        res.0 == token_count_after(original_tokens as int, total_diffs(files@).0),
        res.1 == token_count_after(final_tokens as int, total_diffs(files@).1),
{
    let mut original_diff: isize = 0;
    let mut token_diff: isize = 0;
    for k in 0..files.len()
        invariant
            diffs_fit(files@),
            original_diff == total_diffs(files@.take(k as int)).0,
            token_diff == total_diffs(files@.take(k as int)).1,
    {
        assert(files@.take(k + 1).drop_last() =~= files@.take(k as int));
        assert(files@.take(k + 1).last() == files@[k as int]);
        let ghost bounds = total_diffs(files@.take(k + 1));
        assert(isize::MIN <= bounds.0 <= isize::MAX && isize::MIN <= bounds.1 <= isize::MAX);
        assert(match files@[k as int] {
            PatchedFile::Removed { old_original, old_distilled } => old_original <= isize::MAX && old_distilled
                <= isize::MAX,
            PatchedFile::Redistilled { old_original, old_distilled, new_original, new_distilled } => old_original
                <= isize::MAX && old_distilled <= isize::MAX && new_original <= isize::MAX && new_distilled
                <= isize::MAX,
            PatchedFile::Unread => true,
        });
        match &files[k] {
            PatchedFile::Removed { old_original, old_distilled } => {
                original_diff = original_diff - *old_original as isize;
                token_diff = token_diff - *old_distilled as isize;
            },
            PatchedFile::Redistilled { old_original, old_distilled, new_original, new_distilled } => {
                original_diff = original_diff + (*new_original as isize - *old_original as isize);
                token_diff = token_diff + (*new_distilled as isize - *old_distilled as isize);
            },
            PatchedFile::Unread => {},
        }
    }
    assert(files@.take(files@.len() as int) =~= files@);
    (apply_token_diff(original_tokens, original_diff), apply_token_diff(final_tokens, token_diff))
}

} // verus!
