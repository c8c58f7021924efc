use vstd::prelude::*;
use vstd::string::StringSliceAdditionalSpecFns;
use vstd::utf8::{decode_utf8, valid_utf8};
use tree_sitter::Tree;
use crate::batch::distillation::canon::{FileInfo, Language};
use crate::batch::distillation::graph::{symbol_entries, GraphNode, ProjectGraph};
use crate::batch::distillation::transforms::strategy::{
    captured_hits, hits_view,
    accumulate, cands_view, edits_view, hits_within, law_candidate_taken_unless_overlapping, lemma_accumulate_members,
    spec_has_overlap, opt_view, query_hits, take_candidates, Capture,
    CompressionStrategy, Edit, EditView, QueryHit,
};
use crate::batch::distillation::transforms::debug_remover::slice_range;
use crate::text::{str_eq, utf8_text};

verus! {

/// Removes functions that are referenced at most once in the project.
pub struct SymbolPruner {
    symbol_refs: Vec<(String, usize)>,
}

/// The reference counts by symbol name: a later entry for a name replaces an
/// earlier one.
pub open spec fn refs_map(entries: Seq<(String, usize)>) -> Map<Seq<char>, usize>
    decreases entries.len(),
{
    if entries.len() == 0 {
        Map::empty()
    } else {
        refs_map(entries.drop_last()).insert(entries.last().0@, entries.last().1)
    }
}

/// The reference count of `name`, looked up from the last entry backwards.
pub open spec fn lookup_last(entries: Seq<(String, usize)>, name: Seq<char>) -> Option<usize>
    decreases entries.len(),
{
    if entries.len() == 0 {
        None
    } else if entries.last().0@ == name {
        Some(entries.last().1)
    } else {
        lookup_last(entries.drop_last(), name)
    }
}

proof fn lemma_lookup_last(entries: Seq<(String, usize)>, name: Seq<char>)
    ensures
        lookup_last(entries, name) == (if refs_map(entries).contains_key(name) {
            Some(refs_map(entries)[name])
        } else {
            None
        }),
    decreases entries.len(),
{
    if entries.len() > 0 {
        lemma_lookup_last(entries.drop_last(), name);
    }
}

impl View for SymbolPruner {
    type V = Map<Seq<char>, usize>;

    closed spec fn view(&self) -> Map<Seq<char>, usize> {
        refs_map(self.symbol_refs@)
    }
}

impl SymbolPruner {
    /// A pruner that knows the reference counts of the graph's symbols (a
    /// later symbol of the same name counts over an earlier one).
    pub fn new(graph: &ProjectGraph) -> (res: Self)
        ensures
            res@ == refs_map(symbol_entries(graph.nodes@)),
    {
        let mut entries: Vec<(String, usize)> = Vec::new();
        for i in 0..graph.nodes.len()
            invariant
                entries@ == symbol_entries(graph.nodes@.take(i as int)),
        {
            assert(graph.nodes@.take(i + 1).drop_last() =~= graph.nodes@.take(i as int));
            assert(graph.nodes@.take(i + 1).last() == graph.nodes@[i as int]);
            match &graph.nodes[i] {
                GraphNode::Symbol { name, references } => {
                    entries.push((name.clone(), *references));
                },
                _ => {},
            }
        }
        assert(graph.nodes@.take(graph.nodes@.len() as int) =~= graph.nodes@);
        SymbolPruner { symbol_refs: entries }
    }

    /// The reference count recorded for `name`, if any.
    pub fn references_of(&self, name: &String) -> (res: Option<usize>)
        ensures
            res == (if self@.contains_key(name@) {
                Some(self@[name@])
            } else {
                None
            }),
    {
        proof {
            lemma_lookup_last(self.symbol_refs@, name@);
        }
        let mut i = self.symbol_refs.len();
        assert(self.symbol_refs@.take(i as int) =~= self.symbol_refs@);
        while i > 0
            invariant
                i <= self.symbol_refs@.len(),
                lookup_last(self.symbol_refs@, name@) == lookup_last(self.symbol_refs@.take(i as int), name@),
                lookup_last(self.symbol_refs@, name@) == (if self@.contains_key(name@) {
                    Some(self@[name@])
                } else {
                    None
                }),
            decreases i,
        {
            let ghost pre = self.symbol_refs@.take(i as int);
            assert(pre.drop_last() =~= self.symbol_refs@.take(i - 1));
            assert(pre.last() == self.symbol_refs@[i - 1]);
            if str_eq(self.symbol_refs[i - 1].0.as_str(), name.as_str()) {
                return Some(self.symbol_refs[i - 1].1);
            }
            i = i - 1;
        }
        None
    }
}

/// The byte range of the last capture named `name`, if any.
pub open spec fn last_named(caps: Seq<Capture>, name: Seq<char>) -> Option<(usize, usize)>
    decreases caps.len(),
{
    if caps.len() == 0 {
        None
    } else if caps.last().name@ == name {
        Some((caps.last().start, caps.last().end))
    } else {
        last_named(caps.drop_last(), name)
    }
}

/// The byte range of the last capture named `name`, if any.
pub fn find_last_named(caps: &[Capture], name: &str) -> (res: Option<(usize, usize)>)
    ensures
        res == last_named(caps@, name@),
{
    let mut i = caps.len();
    assert(caps@.take(i as int) =~= caps@);
    while i > 0
        invariant
            i <= caps@.len(),
            last_named(caps@, name@) == last_named(caps@.take(i as int), name@),
        decreases i,
    {
        assert(caps@.take(i as int).drop_last() =~= caps@.take(i - 1));
        assert(caps@.take(i as int).last() == caps@[i - 1]);
        if str_eq(caps[i - 1].name.as_str(), name) {
            return Some((caps[i - 1].start, caps[i - 1].end));
        }
        i = i - 1;
    }
    None
}

/// The queries that find named function definitions, per language.
pub open spec fn definition_query(lang: Language) -> &'static str {
    match lang {
        Language::Rust => "(function_item name: (identifier) @name) @def",
        Language::Python => "(function_definition name: (identifier) @name) @def",
        Language::JavaScript | Language::TypeScript | Language::Tsx => "(function_declaration name: (identifier) @name) @def",
        Language::Java => "(method_declaration name: (identifier) @name) @def",
        Language::Go => "(function_declaration name: (identifier) @name) @def",
        Language::C | Language::Cpp => "(function_definition declarator: (function_declarator declarator: (identifier) @name)) @def",
        Language::CSharp => "(method_declaration name: (identifier) @name) @def",
        Language::Kotlin => "(function_declaration (simple_identifier) @name) @def",
        Language::Swift => "(function_declaration name: (simple_identifier) @name) @def",
        Language::Ruby => "(method name: (identifier) @name) @def",
        Language::Other => "",
    }
}

/// The definition query for a language (empty when it has none).
pub fn definition_query_for(lang: &Language) -> (res: &'static str)
    ensures
        res == definition_query(*lang),
{
    match lang {
        Language::Rust => "(function_item name: (identifier) @name) @def",
        Language::Python => "(function_definition name: (identifier) @name) @def",
        Language::JavaScript | Language::TypeScript | Language::Tsx => "(function_declaration name: (identifier) @name) @def",
        Language::Java => "(method_declaration name: (identifier) @name) @def",
        Language::Go => "(function_declaration name: (identifier) @name) @def",
        Language::C | Language::Cpp => "(function_definition declarator: (function_declarator declarator: (identifier) @name)) @def",
        Language::CSharp => "(method_declaration name: (identifier) @name) @def",
        Language::Kotlin => "(function_declaration (simple_identifier) @name) @def",
        Language::Swift => "(function_declaration name: (simple_identifier) @name) @def",
        Language::Ruby => "(method name: (identifier) @name) @def",
        Language::Other => "",
    }
}

/// The note that replaces a pruned function: `// Symbol <name> pruned` and a line break.
pub open spec fn pruned_note(name: Seq<char>) -> Seq<char> {
    "// Symbol "@ + name + " pruned\n"@
}

/// The edit proposed for a matched definition: when its name is valid text
/// that the project references at most once, the definition is replaced by a note.
pub open spec fn prune_candidate(refs: Map<Seq<char>, usize>, src: Seq<u8>, hit: QueryHit) -> Option<EditView> {
    match (last_named(hit.captures@, "name"@), last_named(hit.captures@, "def"@)) {
        (Some(n), Some(d)) => {
            let bytes = src.subrange(n.0 as int, n.1 as int);
            if valid_utf8(bytes) && refs.contains_key(decode_utf8(bytes)) && refs[decode_utf8(bytes)] <= 1 {
                Some(EditView { start: d.0 as int, end: d.1 as int, replacement: pruned_note(decode_utf8(bytes)) })
            } else {
                None
            }
        },
        _ => None,
    }
}

/// The pruning edits for the matched definitions, in order, skipping overlaps.
pub open spec fn prune_edits(refs: Map<Seq<char>, usize>, src: Seq<u8>, hits: Seq<QueryHit>) -> Seq<EditView> {
    accumulate(seq![], hits.map_values(|h: QueryHit| prune_candidate(refs, src, h)))
}

impl SymbolPruner {
    /// The edits that prune the matched definitions of rarely used functions.
    pub fn prune(&self, source: &[u8], hits: &[QueryHit]) -> (res: Vec<Edit>)
        requires
            hits_within(hits@, source@.len() as int),
        ensures
            edits_view(res@) == prune_edits(self@, source@, hits@),
    {
        let mut cands: Vec<Option<Edit>> = Vec::new();
        for i in 0..hits.len()
            invariant
                hits_within(hits@, source@.len() as int),
                cands_view(cands@) == hits@.take(i as int).map_values(
                    |h: QueryHit| prune_candidate(self@, source@, h),
                ),
        {
            let hit = &hits[i];
            let name_range = find_last_named(hit.captures.as_slice(), "name");
            let def_range = find_last_named(hit.captures.as_slice(), "def");
            let mut c: Option<Edit> = None;
            if let (Some((ns, ne)), Some((ds, de))) = (name_range, def_range) {
                proof {
                    lemma_last_named_within(hit.captures@, "name"@, source@.len() as int, hits@, i as int);
                }
                let bytes = slice_range(source, ns, ne);
                if let Some(name) = utf8_text(bytes.as_slice()) {
                    if let Some(count) = self.references_of(&name) {
                        if count <= 1 {
                            let mut note = String::from_str("// Symbol ");
                            note.append(name.as_str());
                            note.append(" pruned\n");
                            c = Some(Edit { start: ds, end: de, replacement: note });
                        }
                    }
                }
            }
            assert(opt_view(c) == prune_candidate(self@, source@, hits@[i as int]));
            let ghost prev = cands@;
            cands.push(c);
            assert(cands_view(cands@) =~= cands_view(prev).push(opt_view(c)));
            assert(hits@.take(i + 1).map_values(|h: QueryHit| prune_candidate(self@, source@, h))
                =~= hits@.take(i as int).map_values(|h: QueryHit| prune_candidate(self@, source@, h)).push(
                prune_candidate(self@, source@, hits@[i as int]),
            ));
        }
        assert(hits@.take(hits@.len() as int) =~= hits@);
        let mut edits: Vec<Edit> = Vec::new();
        take_candidates(&mut edits, &cands);
        assert(edits_view(Seq::<Edit>::empty()) =~= Seq::<EditView>::empty());
        edits
    }
}

/// A capture found by name lies within the text when all captures do.
pub proof fn lemma_last_named_within(caps: Seq<Capture>, name: Seq<char>, len: int, hits: Seq<QueryHit>, i: int)
    requires
        hits_within(hits, len),
        0 <= i < hits.len(),
        caps == hits[i].captures@,
    ensures
        last_named(caps, name) matches Some(r) ==> r.0 <= r.1 <= len,
    decreases caps.len(),
{
    lemma_last_named_in(caps, name);
    if let Some(r) = last_named(caps, name) {
        let j = choose|j: int| 0 <= j < caps.len() && caps[j].start == r.0 && caps[j].end == r.1;
        assert(hits[i].captures@[j].start <= hits[i].captures@[j].end <= len);
    }
}

proof fn lemma_last_named_in(caps: Seq<Capture>, name: Seq<char>)
    ensures
        last_named(caps, name) matches Some(r) ==> exists|j: int|
            0 <= j < caps.len() && caps[j].start == r.0 && caps[j].end == r.1,
    decreases caps.len(),
{
    if caps.len() > 0 {
        lemma_last_named_in(caps.drop_last(), name);
        if caps.last().name@ != name {
            if let Some(r) = last_named(caps.drop_last(), name) {
                let j = choose|j: int| 0 <= j < caps.drop_last().len() && caps.drop_last()[j].start == r.0 && caps.drop_last()[j].end == r.1;
                assert(caps[j] == caps.drop_last()[j]);
            }
        } else {
            assert(caps[caps.len() - 1] == caps.last());
        }
    }
}

impl CompressionStrategy for SymbolPruner {
    fn destructiveness_score(&self, lang: &Language) -> (res: u32)
        ensures
            res == 90,
    {
        90
    }

    fn is_safe_for_lang(&self, lang: &Language) -> (res: bool)
        ensures
            res,
    {
        true
    }

    fn get_edits(&self, source: &str, tree: &Tree, lang: &Language, info: &FileInfo) -> (res: Vec<Edit>)
        ensures
            definition_query(*lang)@.len() == 0 ==> res@.len() == 0,
            definition_query(*lang)@.len() > 0 ==> exists|hits: Seq<QueryHit>|
                hits_view(hits) == captured_hits(
                    *tree,
                    source@,
                    source.spec_bytes().len() as int,
                    seq![definition_query(*lang)],
                ) && hits_within(hits, source.spec_bytes().len() as int) && edits_view(res@)
                    == #[trigger] prune_edits(self@, source.spec_bytes(), hits),
    {
        let query = definition_query_for(lang);
        if query.is_empty() {
            let res: Vec<Edit> = Vec::new();
            let ghost empty: Seq<QueryHit> = seq![];
            assert(prune_edits(self@, source.spec_bytes(), empty) =~= Seq::<EditView>::empty());
            assert(edits_view(res@) =~= Seq::<EditView>::empty());
            return res;
        }
        let queries = vec![query];
        assert(queries@ =~= seq![definition_query(*lang)]);
        let hits = query_hits(tree, source, queries.as_slice());
        let res = self.prune(source.as_bytes(), hits.as_slice());
        assert(prune_edits(self@, source.spec_bytes(), hits@) == edits_view(res@));
        res
    }
}

/// Only definitions whose name the project references at most once are
/// pruned, each replaced by the note naming it.
pub proof fn law_only_rare_symbols_pruned(refs: Map<Seq<char>, usize>, src: Seq<u8>, hits: Seq<QueryHit>, e: EditView)
    requires
        prune_edits(refs, src, hits).contains(e),
    ensures
        exists|name: Seq<char>| refs.contains_key(name) && refs[name] <= 1 && e.replacement == pruned_note(name),
{
    let cands = hits.map_values(|h: QueryHit| prune_candidate(refs, src, h));
    lemma_accumulate_members(seq![], cands, e);
    let i = choose|i: int| 0 <= i < cands.len() && cands[i] == Some(e);
    assert(cands[i] == prune_candidate(refs, src, hits[i]));
    let n = last_named(hits[i].captures@, "name"@)->0;
    let name = decode_utf8(src.subrange(n.0 as int, n.1 as int));
    assert(refs.contains_key(name) && refs[name] <= 1 && e.replacement == pruned_note(name));
}

/// Every matched definition whose name the project references at most once
/// (never, or once) is replaced by the note naming it, unless it overlaps an
/// edit taken for an earlier match.
pub proof fn law_rare_definitions_pruned(
    refs: Map<Seq<char>, usize>,
    src: Seq<u8>,
    hits: Seq<QueryHit>,
    k: int,
    n: (usize, usize),
    d: (usize, usize),
)
    requires
        0 <= k < hits.len(),
        last_named(hits[k].captures@, "name"@) == Some(n),
        last_named(hits[k].captures@, "def"@) == Some(d),
        valid_utf8(src.subrange(n.0 as int, n.1 as int)),
        refs.contains_key(decode_utf8(src.subrange(n.0 as int, n.1 as int))),
        refs[decode_utf8(src.subrange(n.0 as int, n.1 as int))] <= 1,
    ensures
        ({
            let name = decode_utf8(src.subrange(n.0 as int, n.1 as int));
            let e = EditView { start: d.0 as int, end: d.1 as int, replacement: "// Symbol "@ + name + " pruned\n"@ };
            prune_edits(refs, src, hits).contains(e) || spec_has_overlap(prune_edits(refs, src, hits.take(k)), e.start, e.end)
        }),
{
    let name = decode_utf8(src.subrange(n.0 as int, n.1 as int));
    let e = EditView { start: d.0 as int, end: d.1 as int, replacement: "// Symbol "@ + name + " pruned\n"@ };
    let cands = hits.map_values(|h: QueryHit| prune_candidate(refs, src, h));
    assert(cands[k] == prune_candidate(refs, src, hits[k]));
    assert(cands[k] == Some(e));
    assert(hits.take(k).map_values(|h: QueryHit| prune_candidate(refs, src, h)) =~= cands.take(k));
    law_candidate_taken_unless_overlapping(seq![], cands, k, e);
}

} // verus!
