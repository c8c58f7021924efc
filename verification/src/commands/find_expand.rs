use vstd::prelude::*;
use crate::batch::{kind_name, FileInfo, Symbol};
use crate::batch::resolver::{fidelity_named, lowercase, Fidelity, FidelityError};
use crate::text::{
    contains_seq, decimal, decimal_string, join_lines, join_strings_lines, lines_of, str_contains,
    str_eq, strings_view, text_lines,
};

verus! {

/// A symbol whose name matches a search, with where it is.
pub struct SymbolMatch {
    pub name: String,
    pub kind: String,
    pub file_path: String,
    pub line_start: usize,
    pub line_end: usize,
}

/// The value of a match.
pub struct MatchView {
    pub name: Seq<char>,
    pub kind: Seq<char>,
    pub file_path: Seq<char>,
    pub line_start: usize,
    pub line_end: usize,
}

impl View for SymbolMatch {
    type V = MatchView;

    open spec fn view(&self) -> MatchView {
        MatchView {
            name: self.name@,
            kind: self.kind@,
            file_path: self.file_path@,
            line_start: self.line_start,
            line_end: self.line_end,
        }
    }
}

/// The values of a sequence of matches.
pub open spec fn matches_view(ms: Seq<SymbolMatch>) -> Seq<MatchView> {
    ms.map_values(|m: SymbolMatch| m@)
}

/// The match recorded for a symbol of a file.
pub open spec fn match_of(path: Seq<char>, s: Symbol) -> MatchView {
    MatchView {
        name: s.name@,
        kind: kind_name(s.kind),
        file_path: path,
        line_start: s.line_start,
        line_end: s.line_end,
    }
}

/// The symbols among `syms` whose name contains `query`, in order.
pub open spec fn symbol_matches(path: Seq<char>, syms: Seq<Symbol>, query: Seq<char>) -> Seq<MatchView>
    decreases syms.len(),
{
    if syms.len() == 0 {
        seq![]
    } else {
        let prev = symbol_matches(path, syms.drop_last(), query);
        if contains_seq(syms.last().name@, query) {
            prev.push(match_of(path, syms.last()))
        } else {
            prev
        }
    }
}

/// The symbols of the index whose name contains `query`, file by file, in order.
pub open spec fn index_matches(files: Seq<FileInfo>, query: Seq<char>) -> Seq<MatchView>
    decreases files.len(),
{
    if files.len() == 0 {
        seq![]
    } else {
        index_matches(files.drop_last(), query) + symbol_matches(
            files.last().path@,
            files.last().symbols@,
            query,
        )
    }
}

/// The symbols of the index whose name contains `symbol_name`.
pub fn find_matches(index: &[FileInfo], symbol_name: &str) -> (res: Vec<SymbolMatch>)
    ensures
        matches_view(res@) == index_matches(index@, symbol_name@),
{
    let mut res: Vec<SymbolMatch> = Vec::new();
    for i in 0..index.len()
        invariant
            matches_view(res@) == index_matches(index@.take(i as int), symbol_name@),
    {
        let file = &index[i];
        let ghost base = matches_view(res@);
        assert(index@.take(i + 1).drop_last() =~= index@.take(i as int));
        assert(index@.take(i + 1).last() == *file);
        for j in 0..file.symbols.len()
            invariant
                matches_view(res@) == base + symbol_matches(file.path@, file.symbols@.take(j as int), symbol_name@),
        {
            let sym = &file.symbols[j];
            let ghost before = matches_view(res@);
            assert(file.symbols@.take(j + 1).drop_last() =~= file.symbols@.take(j as int));
            assert(file.symbols@.take(j + 1).last() == *sym);
            if str_contains(sym.name.as_str(), symbol_name) {
                let m = SymbolMatch {
                    name: sym.name.clone(),
                    kind: sym.kind.name(),
                    file_path: file.path.clone(),
                    line_start: sym.line_start,
                    line_end: sym.line_end,
                };
                res.push(m);
                assert(matches_view(res@) =~= before.push(match_of(file.path@, *sym)));
            }
        }
        assert(file.symbols@.take(file.symbols@.len() as int) =~= file.symbols@);
    }
    assert(index@.take(index@.len() as int) =~= index@);
    res
}

spec fn reported_from(path: Seq<char>, syms: Seq<Symbol>, query: Seq<char>, m: MatchView) -> bool {
    exists|j: int| 0 <= j < syms.len() && m == match_of(path, syms[j]) && contains_seq(syms[j].name@, query)
}

proof fn lemma_symbol_matches(path: Seq<char>, syms: Seq<Symbol>, query: Seq<char>)
    ensures
        forall|j: int|
            0 <= j < syms.len() && contains_seq(#[trigger] syms[j].name@, query) ==> symbol_matches(path, syms, query).contains(
                match_of(path, syms[j]),
            ),
        forall|k: int|
            0 <= k < symbol_matches(path, syms, query).len() ==> reported_from(
                path,
                syms,
                query,
                #[trigger] symbol_matches(path, syms, query)[k],
            ),
    decreases syms.len(),
{
    if syms.len() > 0 {
        let init = syms.drop_last();
        lemma_symbol_matches(path, init, query);
        let prev = symbol_matches(path, init, query);
        let cur = symbol_matches(path, syms, query);
        assert forall|j: int| 0 <= j < syms.len() && contains_seq(#[trigger] syms[j].name@, query) implies cur.contains(
            match_of(path, syms[j]),
        ) by {
            if j < init.len() {
                assert(init[j] == syms[j]);
                let k = choose|k: int| 0 <= k < prev.len() && prev[k] == match_of(path, init[j]);
                assert(cur[k] == prev[k]);
            } else {
                assert(syms[j] == syms.last());
                assert(cur[cur.len() - 1] == match_of(path, syms[j]));
            }
        }
        assert forall|k: int| 0 <= k < cur.len() implies reported_from(path, syms, query, #[trigger] cur[k]) by {
            if k < prev.len() {
                assert(cur[k] == prev[k]);
                assert(reported_from(path, init, query, prev[k]));
                let j = choose|j: int|
                    0 <= j < init.len() && prev[k] == match_of(path, init[j]) && contains_seq(init[j].name@, query);
                assert(init[j] == syms[j]);
            } else {
                let j = syms.len() - 1;
                assert(contains_seq(syms.last().name@, query));
                assert(cur[k] == match_of(path, syms.last()));
                assert(syms[j] == syms.last());
                assert(0 <= j < syms.len() && cur[k] == match_of(path, syms[j]) && contains_seq(syms[j].name@, query));
            }
        }
    }
}

/// The search reports a symbol exactly when its name contains the query
/// anywhere (at its start or further in): every symbol of the index whose name
/// contains the query is reported with its file and lines, and every report is
/// such a symbol.
pub proof fn law_find_matches_substrings(files: Seq<FileInfo>, query: Seq<char>)
    ensures
        forall|f: int, j: int|
            0 <= f < files.len() && 0 <= j < files[f].symbols@.len() ==> (index_matches(files, query).contains(
                match_of(files[f].path@, #[trigger] files[f].symbols@[j]),
            ) <==> contains_seq(files[f].symbols@[j].name@, query)),
        forall|k: int|
            0 <= k < index_matches(files, query).len() ==> exists|f: int, j: int|
                0 <= f < files.len() && 0 <= j < files[f].symbols@.len() && #[trigger] index_matches(files, query)[k]
                    == match_of(files[f].path@, files[f].symbols@[j]) && contains_seq(files[f].symbols@[j].name@, query),
    decreases files.len(),
{
    if files.len() > 0 {
        let init = files.drop_last();
        law_find_matches_substrings(init, query);
        let last = files.last();
        lemma_symbol_matches(last.path@, last.symbols@, query);
        let a = index_matches(init, query);
        let b = symbol_matches(last.path@, last.symbols@, query);
        let cur = index_matches(files, query);
        assert(cur == a + b);
        assert forall|k: int| 0 <= k < cur.len() implies exists|f: int, j: int|
            0 <= f < files.len() && 0 <= j < files[f].symbols@.len() && #[trigger] cur[k] == match_of(
                files[f].path@,
                files[f].symbols@[j],
            ) && contains_seq(files[f].symbols@[j].name@, query) by {
            if k < a.len() {
                assert(cur[k] == a[k]);
                let (f, j) = choose|f: int, j: int|
                    0 <= f < init.len() && 0 <= j < init[f].symbols@.len() && #[trigger] a[k] == match_of(
                        init[f].path@,
                        init[f].symbols@[j],
                    ) && contains_seq(init[f].symbols@[j].name@, query);
                assert(init[f] == files[f]);
            } else {
                assert(cur[k] == b[k - a.len()]);
                assert(reported_from(last.path@, last.symbols@, query, b[k - a.len()]));
                let j = choose|j: int|
                    0 <= j < last.symbols@.len() && b[k - a.len()] == match_of(last.path@, last.symbols@[j])
                        && contains_seq(last.symbols@[j].name@, query);
                assert(files[files.len() - 1] == last);
                assert(cur[k] == match_of(files[files.len() - 1].path@, files[files.len() - 1].symbols@[j]));
            }
        }
        assert forall|f: int, j: int|
            0 <= f < files.len() && 0 <= j < files[f].symbols@.len() implies (cur.contains(
                match_of(files[f].path@, #[trigger] files[f].symbols@[j]),
            ) <==> contains_seq(files[f].symbols@[j].name@, query)) by {
            let m = match_of(files[f].path@, files[f].symbols@[j]);
            if contains_seq(files[f].symbols@[j].name@, query) {
                if f < init.len() {
                    assert(init[f] == files[f]);
                    assert(init[f].symbols@[j] == files[f].symbols@[j]);
                    assert(a.contains(m));
                    let k = choose|k: int| 0 <= k < a.len() && a[k] == m;
                    assert(cur[k] == a[k]);
                } else {
                    assert(files[f] == last);
                    assert(last.symbols@[j] == files[f].symbols@[j]);
                    assert(b.contains(m));
                    let k = choose|k: int| 0 <= k < b.len() && b[k] == m;
                    assert(cur[a.len() + k] == b[k]);
                }
            }
            if cur.contains(m) {
                let k = choose|k: int| 0 <= k < cur.len() && cur[k] == m;
                let (g, i) = choose|g: int, i: int|
                    0 <= g < files.len() && 0 <= i < files[g].symbols@.len() && #[trigger] cur[k] == match_of(
                        files[g].path@,
                        files[g].symbols@[i],
                    ) && contains_seq(files[g].symbols@[i].name@, query);
                assert(files[g].symbols@[i].name@ == m.name);
            }
        }
    }
}

proof fn lemma_symbol_matches_order(path: Seq<char>, syms: Seq<Symbol>, query: Seq<char>)
    ensures
        forall|j1: int, j2: int|
            0 <= j1 < j2 < syms.len() && contains_seq(#[trigger] syms[j1].name@, query) && contains_seq(
                #[trigger] syms[j2].name@,
                query,
            ) ==> exists|k1: int, k2: int|
                0 <= k1 < k2 < symbol_matches(path, syms, query).len() && #[trigger] symbol_matches(path, syms, query)[k1]
                    == match_of(path, syms[j1]) && #[trigger] symbol_matches(path, syms, query)[k2] == match_of(path, syms[j2]),
    decreases syms.len(),
{
    if syms.len() > 0 {
        let init = syms.drop_last();
        lemma_symbol_matches_order(path, init, query);
        lemma_symbol_matches(path, init, query);
        let prev = symbol_matches(path, init, query);
        let cur = symbol_matches(path, syms, query);
        assert(cur.len() >= prev.len());
        assert forall|k: int| 0 <= k < prev.len() implies #[trigger] cur[k] == prev[k] by {}
        assert forall|j1: int, j2: int|
            0 <= j1 < j2 < syms.len() && contains_seq(#[trigger] syms[j1].name@, query) && contains_seq(
                #[trigger] syms[j2].name@,
                query,
            ) implies exists|k1: int, k2: int|
            0 <= k1 < k2 < cur.len() && #[trigger] cur[k1] == match_of(path, syms[j1]) && #[trigger] cur[k2] == match_of(
                path,
                syms[j2],
            ) by {
            assert(init[j1] == syms[j1]);
            if j2 < init.len() {
                assert(init[j2] == syms[j2]);
                assert(contains_seq(init[j1].name@, query) && contains_seq(init[j2].name@, query));
                let (k1, k2) = choose|k1: int, k2: int|
                    0 <= k1 < k2 < prev.len() && #[trigger] prev[k1] == match_of(path, init[j1]) && #[trigger] prev[k2]
                        == match_of(path, init[j2]);
                assert(cur[k1] == prev[k1] && cur[k2] == prev[k2]);
            } else {
                assert(contains_seq(init[j1].name@, query));
                assert(prev.contains(match_of(path, init[j1])));
                let k1 = choose|k1: int| 0 <= k1 < prev.len() && prev[k1] == match_of(path, init[j1]);
                assert(syms[j2] == syms.last());
                let k2 = cur.len() - 1;
                assert(cur[k1] == prev[k1]);
                assert(cur[k2] == match_of(path, syms[j2]));
            }
        }
    }
}

/// The search reports symbols in index order: of two symbols whose names
/// contain the query, the one in an earlier file, or earlier in the same
/// file, is reported first.
pub proof fn law_find_matches_in_index_order(files: Seq<FileInfo>, query: Seq<char>)
    ensures
        forall|f1: int, j1: int, f2: int, j2: int|
            0 <= f1 <= f2 < files.len() && 0 <= j1 < files[f1].symbols@.len() && 0 <= j2 < files[f2].symbols@.len() && (f1
                < f2 || j1 < j2) && contains_seq(#[trigger] files[f1].symbols@[j1].name@, query) && contains_seq(
                #[trigger] files[f2].symbols@[j2].name@,
                query,
            ) ==> exists|k1: int, k2: int|
                0 <= k1 < k2 < index_matches(files, query).len() && #[trigger] index_matches(files, query)[k1] == match_of(
                    files[f1].path@,
                    files[f1].symbols@[j1],
                ) && #[trigger] index_matches(files, query)[k2] == match_of(files[f2].path@, files[f2].symbols@[j2]),
    decreases files.len(),
{
    if files.len() > 0 {
        let init = files.drop_last();
        law_find_matches_in_index_order(init, query);
        law_find_matches_substrings(init, query);
        let last = files.last();
        let n = files.len() - 1;
        assert(files[n] == last);
        lemma_symbol_matches(last.path@, last.symbols@, query);
        lemma_symbol_matches_order(last.path@, last.symbols@, query);
        let a = index_matches(init, query);
        let b = symbol_matches(last.path@, last.symbols@, query);
        let cur = index_matches(files, query);
        assert(cur == a + b);
        assert forall|f1: int, j1: int, f2: int, j2: int|
            0 <= f1 <= f2 < files.len() && 0 <= j1 < files[f1].symbols@.len() && 0 <= j2 < files[f2].symbols@.len() && (f1
                < f2 || j1 < j2) && contains_seq(#[trigger] files[f1].symbols@[j1].name@, query) && contains_seq(
                #[trigger] files[f2].symbols@[j2].name@,
                query,
            ) implies exists|k1: int, k2: int|
            0 <= k1 < k2 < cur.len() && #[trigger] cur[k1] == match_of(files[f1].path@, files[f1].symbols@[j1])
                && #[trigger] cur[k2] == match_of(files[f2].path@, files[f2].symbols@[j2]) by {
            let m1 = match_of(files[f1].path@, files[f1].symbols@[j1]);
            let m2 = match_of(files[f2].path@, files[f2].symbols@[j2]);
            if f2 < n {
                assert(init[f1] == files[f1] && init[f2] == files[f2]);
                assert(contains_seq(init[f1].symbols@[j1].name@, query) && contains_seq(init[f2].symbols@[j2].name@, query));
                let (k1, k2) = choose|k1: int, k2: int|
                    0 <= k1 < k2 < a.len() && #[trigger] a[k1] == match_of(init[f1].path@, init[f1].symbols@[j1])
                        && #[trigger] a[k2] == match_of(init[f2].path@, init[f2].symbols@[j2]);
                assert(cur[k1] == a[k1] && cur[k2] == a[k2]);
            } else if f1 < n {
                assert(init[f1] == files[f1]);
                assert(a.contains(match_of(init[f1].path@, init[f1].symbols@[j1])));
                let k1 = choose|k1: int| 0 <= k1 < a.len() && a[k1] == m1;
                assert(last.symbols@[j2] == files[f2].symbols@[j2]);
                assert(contains_seq(last.symbols@[j2].name@, query));
                assert(b.contains(match_of(last.path@, last.symbols@[j2])));
                let t = choose|t: int| 0 <= t < b.len() && b[t] == m2;
                assert(cur[k1] == a[k1] && cur[a.len() + t] == b[t]);
            } else {
                assert(last.symbols@[j1] == files[f1].symbols@[j1] && last.symbols@[j2] == files[f2].symbols@[j2]);
                assert(contains_seq(last.symbols@[j1].name@, query) && contains_seq(last.symbols@[j2].name@, query));
                let (t1, t2) = choose|t1: int, t2: int|
                    0 <= t1 < t2 < b.len() && #[trigger] b[t1] == match_of(last.path@, last.symbols@[j1]) && #[trigger] b[t2]
                        == match_of(last.path@, last.symbols@[j2]);
                assert(cur[a.len() + t1] == b[t1] && cur[a.len() + t2] == b[t2]);
            }
        }
    }
}

/// One line of the search report: `  [<kind>] <name> in <path> (Lines <start>-<end>)`.
pub open spec fn match_line(m: MatchView) -> Seq<char> {
    "  ["@ + m.kind + "] "@ + m.name + " in "@ + m.file_path + " (Lines "@ + decimal(m.line_start as nat)
        + "-"@ + decimal(m.line_end as nat) + ")\n"@
}

/// The report lines of the matches, in order.
pub open spec fn match_lines(ms: Seq<MatchView>) -> Seq<char>
    decreases ms.len(),
{
    if ms.len() == 0 {
        seq![]
    } else {
        match_lines(ms.drop_last()) + match_line(ms.last())
    }
}

/// The search report: `Found <n> match(es) for '<query>':` and one line per match.
pub open spec fn find_report(query: Seq<char>, ms: Seq<MatchView>) -> Seq<char> {
    "Found "@ + decimal(ms.len()) + " match(es) for '"@ + query + "':\n"@ + match_lines(ms)
}

fn push_match_line(out: &mut String, m: &SymbolMatch)
    ensures
        final(out)@ == old(out)@ + match_line(m@),
{
    out.append("  [");
    out.append(m.kind.as_str());
    out.append("] ");
    out.append(m.name.as_str());
    out.append(" in ");
    out.append(m.file_path.as_str());
    out.append(" (Lines ");
    let s = decimal_string(m.line_start);
    out.append(s.as_str());
    out.append("-");
    let e = decimal_string(m.line_end);
    out.append(e.as_str());
    out.append(")\n");
}

/// The plain-text search report.
pub fn render_find_text(symbol_name: &str, matches: &[SymbolMatch]) -> (res: String)
    ensures
        res@ == find_report(symbol_name@, matches_view(matches@)),
{
    let ghost mv = matches_view(matches@);
    let mut out = String::from_str("Found ");
    let n = decimal_string(matches.len());
    out.append(n.as_str());
    out.append(" match(es) for '");
    out.append(symbol_name);
    out.append("':\n");
    let ghost head = out@;
    for i in 0..matches.len()
        invariant
            mv == matches_view(matches@),
            out@ == head + match_lines(mv.take(i as int)),
    {
        assert(mv.take(i + 1).drop_last() =~= mv.take(i as int));
        assert(mv.take(i + 1).last() == matches@[i as int]@);
        push_match_line(&mut out, &matches[i]);
    }
    assert(mv.take(mv.len() as int) =~= mv);
    assert(match_lines(Seq::<MatchView>::empty()) == Seq::<char>::empty());
    out
}

/// The positions (file, symbol) of the symbols named exactly `name` among
/// `syms` of file `f`, in order.
pub open spec fn file_candidates(f: usize, syms: Seq<Symbol>, name: Seq<char>) -> Seq<(usize, usize)>
    decreases syms.len(),
{
    if syms.len() == 0 {
        seq![]
    } else {
        let prev = file_candidates(f, syms.drop_last(), name);
        if syms.last().name@ == name {
            prev.push((f, (syms.len() - 1) as usize))
        } else {
            prev
        }
    }
}

/// The positions (file, symbol) of the index's symbols named exactly `name`,
/// in index order.
pub open spec fn index_candidates(files: Seq<FileInfo>, name: Seq<char>) -> Seq<(usize, usize)>
    decreases files.len(),
{
    if files.len() == 0 {
        seq![]
    } else {
        index_candidates(files.drop_last(), name) + file_candidates(
            (files.len() - 1) as usize,
            files.last().symbols@,
            name,
        )
    }
}

/// Position `a` comes before position `b` in file-then-declaration order.
pub open spec fn before(a: (usize, usize), b: (usize, usize)) -> bool {
    a.0 < b.0 || (a.0 == b.0 && a.1 < b.1)
}

proof fn lemma_file_candidates(f: usize, syms: Seq<Symbol>, name: Seq<char>)
    requires
        syms.len() <= usize::MAX,
    ensures
        forall|k: int|
            0 <= k < file_candidates(f, syms, name).len() ==> {
                let c = #[trigger] file_candidates(f, syms, name)[k];
                c.0 == f && c.1 < syms.len() && syms[c.1 as int].name@ == name
            },
        forall|k1: int, k2: int|
            0 <= k1 < k2 < file_candidates(f, syms, name).len() ==> #[trigger] file_candidates(f, syms, name)[k1].1
                < #[trigger] file_candidates(f, syms, name)[k2].1,
        forall|j: int|
            0 <= j < syms.len() && #[trigger] syms[j].name@ == name ==> file_candidates(f, syms, name).contains(
                (f, j as usize),
            ),
    decreases syms.len(),
{
    if syms.len() > 0 {
        let init = syms.drop_last();
        lemma_file_candidates(f, init, name);
        let prev = file_candidates(f, init, name);
        let cur = file_candidates(f, syms, name);
        assert forall|k: int| 0 <= k < cur.len() implies {
            let c = #[trigger] cur[k];
            c.0 == f && c.1 < syms.len() && syms[c.1 as int].name@ == name
        } by {
            if k < prev.len() {
                assert(cur[k] == prev[k]);
                assert(syms[prev[k].1 as int] == init[prev[k].1 as int]);
            }
        }
        assert forall|k1: int, k2: int| 0 <= k1 < k2 < cur.len() implies #[trigger] cur[k1].1 < #[trigger] cur[k2].1 by {
            assert(cur[k1] == prev[k1]);
            if k2 < prev.len() {
                assert(cur[k2] == prev[k2]);
            } else {
                assert(prev[k1].1 < init.len());
            }
        }
        assert forall|j: int| 0 <= j < syms.len() && #[trigger] syms[j].name@ == name implies cur.contains((f, j as usize)) by {
            if j < init.len() {
                assert(init[j] == syms[j]);
                let k = choose|k: int| 0 <= k < prev.len() && prev[k] == (f, j as usize);
                assert(cur[k] == prev[k]);
            } else {
                assert(cur[cur.len() - 1] == (f, j as usize));
            }
        }
    }
}

/// The candidates of an expansion are exactly the symbols with the name, in
/// file-then-declaration order, each once: so `--id i` picks the i-th of them.
pub proof fn law_candidates_in_order(files: Seq<FileInfo>, name: Seq<char>)
    requires
        files.len() <= usize::MAX,
        forall|i: int| 0 <= i < files.len() ==> #[trigger] files[i].symbols@.len() <= usize::MAX,
    ensures
        forall|k: int|
            0 <= k < index_candidates(files, name).len() ==> {
                let c = #[trigger] index_candidates(files, name)[k];
                c.0 < files.len() && c.1 < files[c.0 as int].symbols@.len() && files[c.0 as int].symbols@[c.1 as int].name@
                    == name
            },
        forall|k1: int, k2: int|
            0 <= k1 < k2 < index_candidates(files, name).len() ==> before(
                #[trigger] index_candidates(files, name)[k1],
                #[trigger] index_candidates(files, name)[k2],
            ),
        forall|f: int, j: int|
            0 <= f < files.len() && 0 <= j < files[f].symbols@.len() && #[trigger] files[f].symbols@[j].name@ == name
                ==> index_candidates(files, name).contains((f as usize, j as usize)),
    decreases files.len(),
{
    if files.len() > 0 {
        let init = files.drop_last();
        assert forall|i: int| 0 <= i < init.len() implies #[trigger] init[i].symbols@.len() <= usize::MAX by {
            assert(init[i] == files[i]);
        }
        law_candidates_in_order(init, name);
        let last = (files.len() - 1) as usize;
        assert(files.last().symbols@.len() <= usize::MAX) by {
            assert(files[files.len() - 1] == files.last());
        }
        lemma_file_candidates(last, files.last().symbols@, name);
        let a = index_candidates(init, name);
        let b = file_candidates(last, files.last().symbols@, name);
        let cur = index_candidates(files, name);
        assert(cur == a + b);
        assert forall|k: int| 0 <= k < cur.len() implies {
            let c = #[trigger] cur[k];
            c.0 < files.len() && c.1 < files[c.0 as int].symbols@.len() && files[c.0 as int].symbols@[c.1 as int].name@
                == name
        } by {
            if k < a.len() {
                assert(cur[k] == a[k]);
                assert(files[a[k].0 as int] == init[a[k].0 as int]);
            } else {
                assert(cur[k] == b[k - a.len()]);
                assert(files[last as int] == files.last());
            }
        }
        assert forall|k1: int, k2: int| 0 <= k1 < k2 < cur.len() implies before(#[trigger] cur[k1], #[trigger] cur[k2]) by {
            if k2 < a.len() {
                assert(cur[k1] == a[k1] && cur[k2] == a[k2]);
            } else if k1 >= a.len() {
                assert(cur[k1] == b[k1 - a.len()] && cur[k2] == b[k2 - a.len()]);
            } else {
                assert(cur[k1] == a[k1] && cur[k2] == b[k2 - a.len()]);
                assert(a[k1].0 < init.len());
            }
        }
        assert forall|f: int, j: int|
            0 <= f < files.len() && 0 <= j < files[f].symbols@.len() && #[trigger] files[f].symbols@[j].name@ == name
                implies cur.contains((f as usize, j as usize)) by {
            if f < init.len() {
                assert(init[f] == files[f]);
                assert(init[f].symbols@[j].name@ == name);
                let k = choose|k: int| 0 <= k < a.len() && a[k] == (f as usize, j as usize);
                assert(cur[k] == a[k]);
            } else {
                assert(files[f] == files.last());
                assert(files.last().symbols@[j].name@ == name);
                let k = choose|k: int| 0 <= k < b.len() && b[k] == (last, j as usize);
                assert(cur[a.len() + k] == b[k]);
            }
        }
    }
}

/// The positions of the symbols named `symbol_name`.
pub fn expand_candidates(index: &[FileInfo], symbol_name: &str) -> (res: Vec<(usize, usize)>)
    ensures
        res@ == index_candidates(index@, symbol_name@),
        forall|k: int|
            0 <= k < res@.len() ==> #[trigger] res@[k].0 < index@.len() && res@[k].1 < index@[res@[k].0 as int].symbols@.len()
                && index@[res@[k].0 as int].symbols@[res@[k].1 as int].name@ == symbol_name@,
{
    let mut res: Vec<(usize, usize)> = Vec::new();
    for i in 0..index.len()
        invariant
            res@ == index_candidates(index@.take(i as int), symbol_name@),
            forall|k: int|
                0 <= k < res@.len() ==> #[trigger] res@[k].0 < index@.len() && res@[k].1 < index@[res@[k].0 as int].symbols@.len()
                    && index@[res@[k].0 as int].symbols@[res@[k].1 as int].name@ == symbol_name@,
    {
        let file = &index[i];
        let ghost base = res@;
        assert(index@.take(i + 1).drop_last() =~= index@.take(i as int));
        assert(index@.take(i + 1).last() == *file);
        for j in 0..file.symbols.len()
            invariant
                i < index@.len(),
                *file == index@[i as int],
                res@ == base + file_candidates(i, file.symbols@.take(j as int), symbol_name@),
                forall|k: int|
                    0 <= k < res@.len() ==> #[trigger] res@[k].0 < index@.len() && res@[k].1 < index@[res@[k].0 as int].symbols@.len()
                        && index@[res@[k].0 as int].symbols@[res@[k].1 as int].name@ == symbol_name@,
        {
            let ghost before = res@;
            assert(file.symbols@.take(j + 1).drop_last() =~= file.symbols@.take(j as int));
            assert(file.symbols@.take(j + 1).last() == file.symbols@[j as int]);
            if str_eq(file.symbols[j].name.as_str(), symbol_name) {
                res.push((i, j));
                assert(res@ =~= before.push((i, j)));
                assert forall|k: int|
                    0 <= k < res@.len() implies #[trigger] res@[k].0 < index@.len() && res@[k].1
                        < index@[res@[k].0 as int].symbols@.len() && index@[res@[k].0 as int].symbols@[res@[k].1 as int].name@
                        == symbol_name@ by {
                    if k < before.len() {
                        assert(res@[k] == before[k]);
                    }
                }
            }
        }
        assert(file.symbols@.take(file.symbols@.len() as int) =~= file.symbols@);
    }
    assert(index@.take(index@.len() as int) =~= index@);
    res
}

/// Which candidate an expansion reads.
#[derive(Debug, PartialEq, Eq, Structural)]
pub enum Selection {
    /// No symbol has the name.
    NotFound,
    /// The candidate at this position.
    Chosen(usize),
    /// The given position is not one of the candidates.
    InvalidId,
    /// Several candidates and no position given: this many.
    Ambiguous(usize),
}

/// The choice among `count` candidates: none when there is none, the only one
/// when there is one, else the one at `id` when it is given and in range.
pub open spec fn selected(count: usize, id: Option<usize>) -> Selection {
    if count == 0 {
        Selection::NotFound
    } else if count == 1 {
        Selection::Chosen(0)
    } else {
        match id {
            Some(i) => if i < count {
                Selection::Chosen(i)
            } else {
                Selection::InvalidId
            },
            None => Selection::Ambiguous(count),
        }
    }
}

/// The choice among `count` candidates.
pub fn select_candidate(count: usize, id: Option<usize>) -> (res: Selection)
    ensures
        res == selected(count, id),
{
    if count == 0 {
        Selection::NotFound
    } else if count == 1 {
        Selection::Chosen(0)
    } else {
        match id {
            Some(i) => if i < count {
                Selection::Chosen(i)
            } else {
                Selection::InvalidId
            },
            None => Selection::Ambiguous(count),
        }
    }
}

/// The numbered candidate lines: `<i>: <path>`.
pub open spec fn numbered_paths(paths: Seq<Seq<char>>) -> Seq<char>
    decreases paths.len(),
{
    if paths.len() == 0 {
        seq![]
    } else {
        numbered_paths(paths.drop_last()) + decimal((paths.len() - 1) as nat) + ": "@ + paths.last()
            + "\n"@
    }
}

/// The report for an ambiguous name: the candidates' files, numbered, and how
/// to choose one.
pub open spec fn ambiguity_report(name: Seq<char>, paths: Seq<Seq<char>>) -> Seq<char> {
    "Ambiguous symbol '"@ + name + "'. Found "@ + decimal(paths.len()) + " matches:\n"@
        + numbered_paths(paths) + "Use --id <ID> to disambiguate.\n"@
}

/// The plain-text report for an ambiguous name with candidates in these files.
pub fn render_ambiguity(symbol_name: &str, paths: &[String]) -> (res: String)
    ensures
        res@ == ambiguity_report(symbol_name@, strings_view(paths@)),
{
    let ghost pv = strings_view(paths@);
    let mut out = String::from_str("Ambiguous symbol '");
    out.append(symbol_name);
    out.append("'. Found ");
    let n = decimal_string(paths.len());
    out.append(n.as_str());
    out.append(" matches:\n");
    let ghost head = out@;
    for i in 0..paths.len()
        invariant
            pv == strings_view(paths@),
            out@ == head + numbered_paths(pv.take(i as int)),
    {
        assert(pv.take(i + 1).drop_last() =~= pv.take(i as int));
        assert(pv.take(i + 1).last() == paths@[i as int]@);
        let d = decimal_string(i);
        out.append(d.as_str());
        out.append(": ");
        out.append(paths[i].as_str());
        out.append("\n");
    }
    assert(pv.take(pv.len() as int) =~= pv);
    out.append("Use --id <ID> to disambiguate.\n");
    out
}

/// The code of a symbol spanning lines `line_start..=line_end` (numbered from
/// 1, the end clipped to the text): those lines joined by line feeds; `None`
/// where the start lies past the clipped end.
pub open spec fn symbol_excerpt(content: Seq<char>, line_start: usize, line_end: usize) -> Option<Seq<char>> {
    let lines = text_lines(content);
    let start = if line_start > 0 {
        line_start - 1
    } else {
        0
    };
    let end = if line_end < lines.len() {
        line_end as int
    } else {
        lines.len() as int
    };
    if start <= end {
        Some(join_lines(lines.subrange(start, end)))
    } else {
        None
    }
}

/// The code of a symbol in `content`.
pub fn code_excerpt(content: &str, line_start: usize, line_end: usize) -> (res: Option<String>)
    ensures
        res matches Some(s) ==> symbol_excerpt(content@, line_start, line_end) == Some(s@),
        res is None ==> symbol_excerpt(content@, line_start, line_end) is None,
{
    let lines = lines_of(content);
    let start = if line_start > 0 {
        line_start - 1
    } else {
        0
    };
    let end = if line_end < lines.len() {
        line_end
    } else {
        lines.len()
    };
    if start > end {
        return None;
    }
    let mut picked: Vec<String> = Vec::new();
    let mut k = start;
    while k < end
        invariant
            start <= k <= end <= lines@.len(),
            strings_view(picked@) == strings_view(lines@).subrange(start as int, k as int),
        decreases end - k,
    {
        let ghost prev = picked@;
        let line = lines[k].clone();
        assert(line@ == lines@[k as int]@);
        picked.push(line);
        assert(picked@ =~= prev.push(line));
        assert(strings_view(picked@) =~= strings_view(prev).push(line@));
        assert(strings_view(picked@) =~= strings_view(lines@).subrange(start as int, k + 1));
        k = k + 1;
    }
    Some(join_strings_lines(picked.as_slice()))
}

/// What a search gives: the matches themselves, to be written as JSON, or the
/// text report.
pub enum FindOutput {
    Matches(Vec<SymbolMatch>),
    Report(String),
}

/// Searches the index for symbols whose name contains `symbol_name`.
pub fn run_find(index: &[FileInfo], symbol_name: &str, json: bool) -> (res: FindOutput)
    ensures
        json ==> (res matches FindOutput::Matches(ms) && matches_view(ms@) == index_matches(index@, symbol_name@)),
        !json ==> (res matches FindOutput::Report(t) && t@ == find_report(
            symbol_name@,
            index_matches(index@, symbol_name@),
        )),
{
    let matches = find_matches(index, symbol_name);
    if json {
        FindOutput::Matches(matches)
    } else {
        FindOutput::Report(render_find_text(symbol_name, matches.as_slice()))
    }
}

/// The files of the candidates, in order.
pub open spec fn candidate_paths(files: Seq<FileInfo>, cands: Seq<(usize, usize)>) -> Seq<Seq<char>> {
    cands.map_values(|c: (usize, usize)| files[c.0 as int].path@)
}

/// What expanding a symbol gives, or needs next.
pub enum ExpandStep {
    /// No symbol has the name.
    NotFound,
    /// The given position is not one of the candidates.
    InvalidId,
    /// Several candidates and no position given: their number, for the JSON answer.
    Ambiguous(usize),
    /// Several candidates and no position given: the text report.
    AmbiguousReport(String),
    /// The level name is not known.
    BadFidelity(FidelityError),
    /// The symbol at (file, symbol) of the index is to be read at this level.
    Read(usize, usize, Fidelity),
}

/// The first part of expanding `symbol_name`: which symbol of the index is
/// read, and at which level (the source unless one is named), or why none is.
pub fn run_expand(
    index: &[FileInfo],
    symbol_name: &str,
    fidelity_str: Option<String>,
    id: Option<usize>,
    json: bool,
) -> (res: ExpandStep)
    ensures
        ({
            let cands = index_candidates(index@, symbol_name@);
            match selected(cands.len() as usize, id) {
                Selection::NotFound => res is NotFound,
                Selection::InvalidId => res is InvalidId,
                Selection::Ambiguous(n) => if json {
                    res == ExpandStep::Ambiguous(n)
                } else {
                    res matches ExpandStep::AmbiguousReport(t) && t@ == ambiguity_report(
                        symbol_name@,
                        candidate_paths(index@, cands),
                    )
                },
                Selection::Chosen(i) => match fidelity_str {
                    None => res == ExpandStep::Read(cands[i as int].0, cands[i as int].1, Fidelity::Source),
                    Some(s) => match fidelity_named(lowercase(s@)) {
                        Some(f) => res == ExpandStep::Read(cands[i as int].0, cands[i as int].1, f),
                        None => (res matches ExpandStep::BadFidelity(FidelityError::UnknownFidelity(e)) && e@ == s@),
                    },
                },
            }
        }),
        res matches ExpandStep::Read(f, s, _) ==> f < index@.len() && s < index@[f as int].symbols@.len()
            && index@[f as int].symbols@[s as int].name@ == symbol_name@,
{
    let cands = expand_candidates(index, symbol_name);
    match select_candidate(cands.len(), id) {
        Selection::NotFound => ExpandStep::NotFound,
        Selection::InvalidId => ExpandStep::InvalidId,
        Selection::Ambiguous(n) => {
            if json {
                ExpandStep::Ambiguous(n)
            } else {
                let mut paths: Vec<String> = Vec::new();
                for k in 0..cands.len()
                    invariant
                        cands@ == index_candidates(index@, symbol_name@),
                        forall|j: int|
                            0 <= j < cands@.len() ==> #[trigger] cands@[j].0 < index@.len(),
                        strings_view(paths@) == candidate_paths(index@, cands@.take(k as int)),
                {
                    let ghost prev = paths@;
                    let p = index[cands[k].0].path.clone();
                    paths.push(p);
                    assert(strings_view(paths@) =~= strings_view(prev).push(p@));
                    assert(candidate_paths(index@, cands@.take(k + 1)) =~= candidate_paths(
                        index@,
                        cands@.take(k as int),
                    ).push(index@[cands@[k as int].0 as int].path@));
                }
                assert(cands@.take(cands@.len() as int) =~= cands@);
                ExpandStep::AmbiguousReport(render_ambiguity(symbol_name, paths.as_slice()))
            }
        },
        Selection::Chosen(i) => {
            let (f, s) = cands[i];
            match fidelity_str {
                None => ExpandStep::Read(f, s, Fidelity::Source),
                Some(name) => match Fidelity::from_str(name.as_str()) {
                    Ok(level) => ExpandStep::Read(f, s, level),
                    Err(e) => ExpandStep::BadFidelity(e),
                },
            }
        },
    }
}

} // verus!
