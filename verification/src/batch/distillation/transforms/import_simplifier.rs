use vstd::prelude::*;
use vstd::string::StringSliceAdditionalSpecFns;
use vstd::utf8::{decode_utf8, valid_utf8};
use tree_sitter::Tree;
use crate::batch::distillation::canon::{FileInfo, Language, Reference};
use crate::batch::distillation::transforms::strategy::{
    captured_hits, hits_view,
    edits_view, hits_within, query_hits, CompressionStrategy, Edit, EditView, QueryHit,
};
use crate::batch::distillation::transforms::debug_remover::slice_range;
use crate::batch::distillation::transforms::symbol_pruner::{
    find_last_named, last_named, lemma_last_named_within,
};
use crate::batch::distillation::plan::{strategy_safe, StrategyKind};
use crate::text::{chars_of, contains_seq, join_with, last_piece, last_split_piece, occurs_at, utf8_text};

verus! {

/// Replaces import statements none of whose imported names is referenced.
pub struct ImportSimplifier;

/// The import query of a language and the name of the capture that holds an
/// imported name (both empty where imports are not simplified).
pub open spec fn import_query(lang: Language) -> (&'static str, &'static str) {
    match lang {
        Language::Rust => ("(use_declaration (use_list (scoped_identifier) @name)) @import", "name"),
        Language::JavaScript | Language::TypeScript | Language::Tsx => (
            "(import_clause (named_imports (import_specifier name: (identifier) @name))) @import",
            "name",
        ),
        Language::Python => ("(import_from_statement name: (dotted_name) @name) @import", "name"),
        Language::Java => ("(import_declaration (scoped_identifier) @name) @import", "name"),
        Language::Go => ("(import_spec (identifier) @name) @import", "name"),
        Language::Kotlin => ("(import_header (identifier) @name) @import", "name"),
        _ => ("", ""),
    }
}

/// The import query of a language and its name capture.
pub fn import_query_for(lang: &Language) -> (res: (&'static str, &'static str))
    ensures
        res == import_query(*lang),
{
    match lang {
        Language::Rust => ("(use_declaration (use_list (scoped_identifier) @name)) @import", "name"),
        Language::JavaScript | Language::TypeScript | Language::Tsx => (
            "(import_clause (named_imports (import_specifier name: (identifier) @name))) @import",
            "name",
        ),
        Language::Python => ("(import_from_statement name: (dotted_name) @name) @import", "name"),
        Language::Java => ("(import_declaration (scoped_identifier) @name) @import", "name"),
        Language::Go => ("(import_spec (identifier) @name) @import", "name"),
        Language::Kotlin => ("(import_header (identifier) @name) @import", "name"),
        _ => ("", ""),
    }
}

/// The imports of one statement: its byte range and the names it imports.
pub struct ImportGroup {
    pub start: usize,
    pub end: usize,
    pub names: Vec<String>,
}

/// The value of an import group.
pub struct GroupView {
    pub start: int,
    pub end: int,
    pub names: Seq<Seq<char>>,
}

impl View for ImportGroup {
    type V = GroupView;

    open spec fn view(&self) -> GroupView {
        GroupView {
            start: self.start as int,
            end: self.end as int,
            names: self.names@.map_values(|s: String| s@),
        }
    }
}

/// The values of a sequence of import groups.
pub open spec fn groups_view(g: Seq<ImportGroup>) -> Seq<GroupView> {
    g.map_values(|x: ImportGroup| x@)
}

/// The first group with the byte range `start..end`.
pub open spec fn find_group(g: Seq<GroupView>, start: int, end: int) -> Option<int>
    decreases g.len(),
{
    if g.len() == 0 {
        None
    } else {
        match find_group(g.drop_last(), start, end) {
            Some(k) => Some(k),
            None => if g.last().start == start && g.last().end == end {
                Some(g.len() - 1)
            } else {
                None
            },
        }
    }
}

proof fn lemma_find_group_prefix(g: Seq<GroupView>, start: int, end: int, k: int)
    requires
        0 <= k <= g.len(),
        find_group(g.take(k), start, end) is Some,
    ensures
        find_group(g, start, end) == find_group(g.take(k), start, end),
    decreases g.len() - k,
{
    if k < g.len() {
        assert(g.take(k + 1).drop_last() =~= g.take(k));
        lemma_find_group_prefix(g, start, end, k + 1);
    } else {
        assert(g.take(k) =~= g);
    }
}

proof fn lemma_find_group_some(g: Seq<GroupView>, start: int, end: int)
    ensures
        find_group(g, start, end) matches Some(k) ==> 0 <= k < g.len() && g[k].start == start
            && g[k].end == end,
    decreases g.len(),
{
    if g.len() > 0 {
        lemma_find_group_some(g.drop_last(), start, end);
    }
}

/// Adds the imported name (if any) to the group of the statement `start..end`,
/// starting that group when the statement has none yet.
pub open spec fn add_import(g: Seq<GroupView>, start: int, end: int, name: Option<Seq<char>>) -> Seq<GroupView> {
    match find_group(g, start, end) {
        Some(k) => match name {
            Some(n) => g.update(k, GroupView { start: g[k].start, end: g[k].end, names: g[k].names.push(n) }),
            None => g,
        },
        None => g.push(
            GroupView {
                start,
                end,
                names: match name {
                    Some(n) => seq![n],
                    None => seq![],
                },
            },
        ),
    }
}

/// The imported name of a match: the text of its last `name` capture, when
/// that is valid UTF-8.
pub open spec fn hit_name(src: Seq<u8>, hit: QueryHit) -> Option<Seq<char>> {
    match last_named(hit.captures@, "name"@) {
        Some(n) => {
            let bytes = src.subrange(n.0 as int, n.1 as int);
            if valid_utf8(bytes) {
                Some(decode_utf8(bytes))
            } else {
                None
            }
        },
        None => None,
    }
}

/// The import statements of the matches, grouped by byte range in order of
/// first appearance, each with the names it imports.
pub open spec fn import_groups(src: Seq<u8>, hits: Seq<QueryHit>) -> Seq<GroupView>
    decreases hits.len(),
{
    if hits.len() == 0 {
        seq![]
    } else {
        let g = import_groups(src, hits.drop_last());
        match last_named(hits.last().captures@, "import"@) {
            Some(i) => add_import(g, i.0 as int, i.1 as int, hit_name(src, hits.last())),
            None => g,
        }
    }
}

/// The part of an imported name that code refers to: after the last `.`, then
/// after the last `::`.
pub open spec fn last_segment(name: Seq<char>) -> Seq<char> {
    last_piece(last_piece(name, seq!['.']), seq![':', ':'])
}

/// None of the names is referenced by its last segment, and there is one at least.
pub open spec fn all_unused(names: Seq<Seq<char>>, refs: Seq<Seq<char>>) -> bool {
    names.len() > 0 && forall|j: int| 0 <= j < names.len() ==> !refs.contains(#[trigger] last_segment(names[j]))
}

/// The note that replaces a pruned import: `// Unused import <names> pruned`
/// and a line break.
pub open spec fn import_note(names: Seq<Seq<char>>) -> Seq<char> {
    "// Unused import "@ + join_with(names, ", "@) + " pruned\n"@
}

/// One edit per import group all of whose names are unused, in group order.
pub open spec fn prune_groups(groups: Seq<GroupView>, refs: Seq<Seq<char>>) -> Seq<EditView>
    decreases groups.len(),
{
    if groups.len() == 0 {
        seq![]
    } else {
        let prev = prune_groups(groups.drop_last(), refs);
        let g = groups.last();
        if all_unused(g.names, refs) {
            prev.push(EditView { start: g.start, end: g.end, replacement: import_note(g.names) })
        } else {
            prev
        }
    }
}

/// The import edits for the matches, given the names the file references.
pub open spec fn import_edits(src: Seq<u8>, hits: Seq<QueryHit>, refs: Seq<Seq<char>>) -> Seq<EditView> {
    prune_groups(import_groups(src, hits), refs)
}

/// The names of the references.
pub open spec fn reference_names(refs: Seq<Reference>) -> Seq<Seq<char>> {
    refs.map_values(|r: Reference| r.name@)
}

/// The index of the first group with the byte range `start..end`.
fn group_index(groups: &Vec<ImportGroup>, start: usize, end: usize) -> (res: Option<usize>)
    ensures
        res matches Some(k) ==> find_group(groups_view(groups@), start as int, end as int) == Some(k as int),
        res is None ==> find_group(groups_view(groups@), start as int, end as int) is None,
{
    let ghost gv = groups_view(groups@);
    for k in 0..groups.len()
        invariant
            gv == groups_view(groups@),
            find_group(gv.take(k as int), start as int, end as int) is None,
    {
        assert(gv.take(k + 1).drop_last() =~= gv.take(k as int));
        assert(gv[k as int] == groups@[k as int]@);
        if groups[k].start == start && groups[k].end == end {
            proof {
                lemma_find_group_prefix(gv, start as int, end as int, k + 1);
            }
            return Some(k);
        }
    }
    assert(gv.take(gv.len() as int) =~= gv);
    None
}

/// Groups the matched imports by statement.
pub fn group_imports(source: &[u8], hits: &[QueryHit]) -> (res: Vec<ImportGroup>)
    requires
        hits_within(hits@, source@.len() as int),
    ensures
        groups_view(res@) == import_groups(source@, hits@),
{
    let mut groups: Vec<ImportGroup> = Vec::new();
    for i in 0..hits.len()
        invariant
            hits_within(hits@, source@.len() as int),
            groups_view(groups@) == import_groups(source@, hits@.take(i as int)),
    {
        let ghost pre = hits@.take(i + 1);
        assert(pre.drop_last() =~= hits@.take(i as int));
        assert(pre.last() == hits@[i as int]);
        let hit = &hits[i];
        let import_range = find_last_named(hit.captures.as_slice(), "import");
        if let Some((is, ie)) = import_range {
            let name_range = find_last_named(hit.captures.as_slice(), "name");
            let mut name: Option<String> = None;
            if let Some((ns, ne)) = name_range {
                proof {
                    lemma_last_named_within(hit.captures@, "name"@, source@.len() as int, hits@, i as int);
                }
                let bytes = slice_range(source, ns, ne);
                name = utf8_text(bytes.as_slice());
            }
            let ghost name_view = match &name {
                Some(n) => Some(n@),
                None => None,
            };
            assert(name_view == hit_name(source@, hits@[i as int]));
            let ghost before = groups_view(groups@);
            match group_index(&groups, is, ie) {
                Some(k) => {
                    proof {
                        lemma_find_group_some(before, is as int, ie as int);
                    }
                    if let Some(n) = name {
                        let ghost nv = n@;
                        let ghost old_names = groups@[k as int].names@;
                        let mut g = groups.remove(k);
                        assert(g.names@ == old_names);
                        g.names.push(n);
                        assert(g.names@.map_values(|s: String| s@) =~= old_names.map_values(|s: String| s@).push(nv));
                        groups.insert(k, g);
                        assert(groups_view(groups@) =~= before.update(
                            k as int,
                            GroupView { start: before[k as int].start, end: before[k as int].end, names: before[k as int].names.push(nv) },
                        ));
                    }
                },
                None => {
                    let names: Vec<String> = match name {
                        Some(n) => vec![n],
                        None => Vec::new(),
                    };
                    let g = ImportGroup { start: is, end: ie, names };
                    assert(g@.names =~= match name_view {
                        Some(n) => seq![n],
                        None => Seq::<Seq<char>>::empty(),
                    });
                    groups.push(g);
                    assert(groups_view(groups@) =~= before.push(g@));
                },
            }
        }
    }
    assert(hits@.take(hits@.len() as int) =~= hits@);
    groups
}

/// Whether a reference names `segment`.
fn is_referenced(refs: &[Reference], segment: &Vec<char>) -> (res: bool)
    ensures
        res == reference_names(refs@).contains(segment@),
{
    for k in 0..refs.len()
        invariant
            forall|j: int| 0 <= j < k ==> refs@[j].name@ != segment@,
    {
        let name = chars_of(refs[k].name.as_str());
        if name.len() == segment.len() {
            let mut same = true;
            let mut c: usize = 0;
            while c < name.len()
                invariant
                    name@.len() == segment@.len(),
                    c <= name@.len(),
                    same == (forall|j: int| 0 <= j < c ==> name@[j] == segment@[j]),
                decreases name@.len() - c,
            {
                if name[c] != segment[c] {
                    same = false;
                }
                c = c + 1;
            }
            if same {
                assert(name@ =~= segment@);
                assert(reference_names(refs@)[k as int] == segment@);
                return true;
            }
        }
    }
    assert forall|j: int| 0 <= j < reference_names(refs@).len() implies reference_names(refs@)[j] != segment@ by {
        assert(reference_names(refs@)[j] == refs@[j].name@);
    }
    false
}

/// The last segment of an imported name.
pub fn name_segment(name: &String) -> (res: Vec<char>)
    ensures
        res@ == last_segment(name@),
{
    let chars = chars_of(name.as_str());
    let dot = vec!['.'];
    let after_dot = last_split_piece(chars.as_slice(), dot.as_slice());
    let colons = vec![':', ':'];
    assert(dot@ =~= seq!['.']);
    assert(colons@ =~= seq![':', ':']);
    last_split_piece(after_dot.as_slice(), colons.as_slice())
}

/// The names joined by `, `.
fn join_names(names: &Vec<String>) -> (res: String)
    ensures
        res@ == join_with(names@.map_values(|s: String| s@), ", "@),
{
    let ghost parts = names@.map_values(|s: String| s@);
    let mut res = String::new();
    for j in 0..names.len()
        invariant
            parts == names@.map_values(|s: String| s@),
            res@ == join_with(parts.take(j as int), ", "@),
    {
        assert(parts.take(j + 1).drop_last() =~= parts.take(j as int));
        assert(parts.take(j + 1).last() == names@[j as int]@);
        if j > 0 {
            res.append(", ");
        } else {
            assert(parts.take(0) =~= Seq::<Seq<char>>::empty());
            assert(res@ =~= Seq::<char>::empty());
        }
        res.append(names[j].as_str());
        proof {
            if j == 0 {
                assert(join_with(parts.take(1), ", "@) == parts.take(1)[0]);
                assert(res@ =~= names@[0]@);
            }
        }
    }
    assert(parts.take(parts.len() as int) =~= parts);
    res
}

/// The edits that replace the import statements whose names are all unused.
pub fn prune_unused_imports(groups: &Vec<ImportGroup>, refs: &[Reference]) -> (res: Vec<Edit>)
    ensures
        edits_view(res@) == prune_groups(groups_view(groups@), reference_names(refs@)),
{
    let ghost gv = groups_view(groups@);
    let ghost rn = reference_names(refs@);
    let mut edits: Vec<Edit> = Vec::new();
    for k in 0..groups.len()
        invariant
            gv == groups_view(groups@),
            rn == reference_names(refs@),
            edits_view(edits@) == prune_groups(gv.take(k as int), rn),
    {
        let g = &groups[k];
        assert(gv.take(k + 1).drop_last() =~= gv.take(k as int));
        assert(gv.take(k + 1).last() == g@);
        let ghost names = g@.names;
        let mut unused = g.names.len() > 0;
        let mut j: usize = 0;
        while j < g.names.len()
            invariant
                names == g@.names,
                rn == reference_names(refs@),
                j <= g.names@.len(),
                unused == (g.names@.len() > 0 && forall|m: int| 0 <= m < j ==> !rn.contains(#[trigger] last_segment(names[m]))),
            decreases g.names@.len() - j,
        {
            let seg = name_segment(&g.names[j]);
            assert(names[j as int] == g.names@[j as int]@);
            if is_referenced(refs, &seg) {
                unused = false;
            }
            j = j + 1;
        }
        assert(unused == all_unused(names, rn));
        if unused {
            let mut note = String::from_str("// Unused import ");
            let joined = join_names(&g.names);
            note.append(joined.as_str());
            note.append(" pruned\n");
            let ghost before = edits_view(edits@);
            edits.push(Edit { start: g.start, end: g.end, replacement: note });
            assert(edits_view(edits@) =~= before.push(
                EditView { start: g@.start, end: g@.end, replacement: import_note(names) },
            ));
        }
    }
    assert(gv.take(gv.len() as int) =~= gv);
    edits
}

impl CompressionStrategy for ImportSimplifier {
    /// Pruning imports is a last resort in C and C++, harmless elsewhere.
    fn destructiveness_score(&self, lang: &Language) -> (res: u32)
        ensures
            res == (if *lang == Language::C || *lang == Language::Cpp {
                80u32
            } else {
                5u32
            }),
    {
        match lang {
            Language::C | Language::Cpp => 80,
            _ => 5,
        }
    }

    fn is_safe_for_lang(&self, lang: &Language) -> (res: bool)
        ensures
            res == (*lang == Language::Rust || *lang == Language::JavaScript || *lang
                == Language::TypeScript || *lang == Language::Tsx || *lang == Language::Python
                || *lang == Language::Java || *lang == Language::Go || *lang == Language::Kotlin),
    {
        match lang {
            Language::Rust | Language::JavaScript | Language::TypeScript | Language::Tsx
            | Language::Python | Language::Java | Language::Go | Language::Kotlin => true,
            _ => false,
        }
    }

    fn get_edits(&self, source: &str, tree: &Tree, lang: &Language, info: &FileInfo) -> (res: Vec<Edit>)
        ensures
            import_query(*lang).0@.len() == 0 ==> res@.len() == 0,
            import_query(*lang).0@.len() > 0 ==> exists|hits: Seq<QueryHit>|
                hits_view(hits) == captured_hits(
                    *tree,
                    source@,
                    source.spec_bytes().len() as int,
                    seq![import_query(*lang).0],
                ) && hits_within(hits, source.spec_bytes().len() as int) && edits_view(res@)
                    == #[trigger] import_edits(source.spec_bytes(), hits, reference_names(info.references@)),
    {
        let (query, _name_capture) = import_query_for(lang);
        if query.is_empty() {
            let res: Vec<Edit> = Vec::new();
            let ghost empty: Seq<QueryHit> = seq![];
            assert(import_edits(source.spec_bytes(), empty, reference_names(info.references@)) =~= Seq::<EditView>::empty());
            assert(edits_view(res@) =~= Seq::<EditView>::empty());
            return res;
        }
        let queries = vec![query];
        assert(queries@ =~= seq![import_query(*lang).0]);
        let hits = query_hits(tree, source, queries.as_slice());
        let groups = group_imports(source.as_bytes(), hits.as_slice());
        let res = prune_unused_imports(&groups, info.references.as_slice());
        assert(import_edits(source.spec_bytes(), hits@, reference_names(info.references@)) == edits_view(res@));
        res
    }
}

/// An import statement is replaced only when it imports at least one name and
/// none of its names is referenced; the note lists its names.
pub proof fn law_used_imports_kept(groups: Seq<GroupView>, refs: Seq<Seq<char>>, e: EditView)
    requires
        prune_groups(groups, refs).contains(e),
    ensures
        exists|k: int|
            0 <= k < groups.len() && groups[k].start == e.start && groups[k].end == e.end && all_unused(
                #[trigger] groups[k].names,
                refs,
            ) && e.replacement == import_note(groups[k].names),
    decreases groups.len(),
{
    if groups.len() > 0 {
        let prev = prune_groups(groups.drop_last(), refs);
        if prev.contains(e) {
            law_used_imports_kept(groups.drop_last(), refs, e);
            let k = choose|k: int|
                0 <= k < groups.drop_last().len() && groups.drop_last()[k].start == e.start
                    && groups.drop_last()[k].end == e.end && all_unused(#[trigger] groups.drop_last()[k].names, refs)
                    && e.replacement == import_note(groups.drop_last()[k].names);
            assert(groups[k] == groups.drop_last()[k]);
        } else {
            assert(groups[groups.len() - 1] == groups.last());
        }
    }
}

proof fn lemma_captures_at(q: Seq<char>, n: int, i: int)
    requires
        0 <= n && n + 5 <= q.len() && q.subrange(n, n + 5) == "@name"@,
        0 <= i && i + 7 <= q.len() && q.subrange(i, i + 7) == "@import"@,
    ensures
        contains_seq(q, "@name"@),
        contains_seq(q, "@import"@),
{
    reveal_strlit("@name");
    reveal_strlit("@import");
    assert(occurs_at(q, "@name"@, n));
    assert(occurs_at(q, "@import"@, i));
}

/// Imports are queried in exactly the languages the simplifier is safe for
/// (Rust, JavaScript, TypeScript, TSX, Python, Java, Go, Kotlin): there the
/// query is not empty, captures the statement as `@import` and the imported
/// name as `@name`, and the name capture is `name`.
pub proof fn law_import_query_for_safe_languages(lang: Language)
    ensures
        strategy_safe(StrategyKind::ImportSimplifier, lang) <==> import_query(lang).0@.len() > 0,
        strategy_safe(StrategyKind::ImportSimplifier, lang) ==> contains_seq(import_query(lang).0@, "@import"@)
            && contains_seq(import_query(lang).0@, "@name"@) && import_query(lang).1@ == "name"@,
{
    let q = import_query(lang).0@;
    reveal_strlit("");
    reveal_strlit("name");
    reveal_strlit("@name");
    reveal_strlit("@import");
    match lang {
        Language::Rust => {
            reveal_strlit("(use_declaration (use_list (scoped_identifier) @name)) @import");
            assert(q.subrange(47, 52) =~= "@name"@);
            assert(q.subrange(55, 62) =~= "@import"@);
            lemma_captures_at(q, 47, 55);
        },
        Language::JavaScript | Language::TypeScript | Language::Tsx => {
            reveal_strlit("(import_clause (named_imports (import_specifier name: (identifier) @name))) @import");
            assert(q.subrange(67, 72) =~= "@name"@);
            assert(q.subrange(76, 83) =~= "@import"@);
            lemma_captures_at(q, 67, 76);
        },
        Language::Python => {
            reveal_strlit("(import_from_statement name: (dotted_name) @name) @import");
            assert(q.subrange(43, 48) =~= "@name"@);
            assert(q.subrange(50, 57) =~= "@import"@);
            lemma_captures_at(q, 43, 50);
        },
        Language::Java => {
            reveal_strlit("(import_declaration (scoped_identifier) @name) @import");
            assert(q.subrange(40, 45) =~= "@name"@);
            assert(q.subrange(47, 54) =~= "@import"@);
            lemma_captures_at(q, 40, 47);
        },
        Language::Go => {
            reveal_strlit("(import_spec (identifier) @name) @import");
            assert(q.subrange(26, 31) =~= "@name"@);
            assert(q.subrange(33, 40) =~= "@import"@);
            lemma_captures_at(q, 26, 33);
        },
        Language::Kotlin => {
            reveal_strlit("(import_header (identifier) @name) @import");
            assert(q.subrange(28, 33) =~= "@name"@);
            assert(q.subrange(35, 42) =~= "@import"@);
            lemma_captures_at(q, 28, 35);
        },
        _ => {},
    }
}

proof fn lemma_find_group_same_ranges(g1: Seq<GroupView>, g2: Seq<GroupView>, start: int, end: int)
    requires
        g1.len() == g2.len(),
        forall|i: int| 0 <= i < g1.len() ==> #[trigger] g1[i].start == g2[i].start && g1[i].end == g2[i].end,
    ensures
        find_group(g1, start, end) == find_group(g2, start, end),
    decreases g1.len(),
{
    if g1.len() > 0 {
        assert(g1.last() == g1[g1.len() - 1] && g2.last() == g2[g2.len() - 1]);
        assert forall|i: int| 0 <= i < g1.drop_last().len() implies #[trigger] g1.drop_last()[i].start
            == g2.drop_last()[i].start && g1.drop_last()[i].end == g2.drop_last()[i].end by {
            assert(g1.drop_last()[i] == g1[i] && g2.drop_last()[i] == g2[i]);
        }
        lemma_find_group_same_ranges(g1.drop_last(), g2.drop_last(), start, end);
    }
}

/// `n` is the imported name of a match whose import statement spans `start..end`.
pub open spec fn imported_by(src: Seq<u8>, hits: Seq<QueryHit>, start: int, end: int, n: Seq<char>) -> bool {
    exists|h: int|
        0 <= h < hits.len() && (#[trigger] last_named(hits[h].captures@, "import"@) matches Some(i) && i.0 == start && i.1
            == end) && hit_name(src, hits[h]) == Some(n)
}

proof fn lemma_import_groups(src: Seq<u8>, hits: Seq<QueryHit>)
    ensures
        forall|h: int|
            0 <= h < hits.len() && (#[trigger] last_named(hits[h].captures@, "import"@)) is Some ==> find_group(
                import_groups(src, hits),
                (last_named(hits[h].captures@, "import"@)->0).0 as int,
                (last_named(hits[h].captures@, "import"@)->0).1 as int,
            ) is Some,
        forall|m: int, t: int|
            0 <= m < import_groups(src, hits).len() && 0 <= t < import_groups(src, hits)[m].names.len() ==> imported_by(
                src,
                hits,
                import_groups(src, hits)[m].start,
                import_groups(src, hits)[m].end,
                #[trigger] import_groups(src, hits)[m].names[t],
            ),
        forall|h: int|
            0 <= h < hits.len() && (#[trigger] last_named(hits[h].captures@, "import"@)) is Some && hit_name(src, hits[h]) is Some
                ==> import_groups(src, hits)[find_group(
                import_groups(src, hits),
                (last_named(hits[h].captures@, "import"@)->0).0 as int,
                (last_named(hits[h].captures@, "import"@)->0).1 as int,
            )->0].names.contains(hit_name(src, hits[h])->0),
    decreases hits.len(),
{
    if hits.len() > 0 {
        let init = hits.drop_last();
        lemma_import_groups(src, init);
        let gp = import_groups(src, init);
        let g = import_groups(src, hits);
        let x = hits.last();
        let last = hits.len() - 1;
        assert(hits[last] == x);
        assert forall|h: int| 0 <= h < init.len() implies #[trigger] init[h] == hits[h] by {}
        assert forall|h: int|
            0 <= h < init.len() && (#[trigger] last_named(hits[h].captures@, "import"@)) is Some implies find_group(
            gp,
            (last_named(hits[h].captures@, "import"@)->0).0 as int,
            (last_named(hits[h].captures@, "import"@)->0).1 as int,
        ) is Some && (hit_name(src, hits[h]) is Some ==> gp[find_group(
            gp,
            (last_named(hits[h].captures@, "import"@)->0).0 as int,
            (last_named(hits[h].captures@, "import"@)->0).1 as int,
        )->0].names.contains(hit_name(src, hits[h])->0)) by {
            assert(init[h] == hits[h]);
            assert(last_named(init[h].captures@, "import"@) is Some);
        }
        assert forall|s: int, e: int, n: Seq<char>| imported_by(src, init, s, e, n) implies imported_by(src, hits, s, e, n) by {
            let h = choose|h: int|
                0 <= h < init.len() && (#[trigger] last_named(init[h].captures@, "import"@) matches Some(i) && i.0 == s
                    && i.1 == e) && hit_name(src, init[h]) == Some(n);
            assert(init[h] == hits[h]);
        }
        match last_named(x.captures@, "import"@) {
            None => {
                assert(g == gp);
                assert forall|h: int|
                    0 <= h < hits.len() && (#[trigger] last_named(hits[h].captures@, "import"@)) is Some implies find_group(
                    g,
                    (last_named(hits[h].captures@, "import"@)->0).0 as int,
                    (last_named(hits[h].captures@, "import"@)->0).1 as int,
                ) is Some && (hit_name(src, hits[h]) is Some ==> g[find_group(
                    g,
                    (last_named(hits[h].captures@, "import"@)->0).0 as int,
                    (last_named(hits[h].captures@, "import"@)->0).1 as int,
                )->0].names.contains(hit_name(src, hits[h])->0)) by {
                    assert(h != last);
                }
            },
            Some(i) => {
                let name = hit_name(src, x);
                lemma_find_group_some(gp, i.0 as int, i.1 as int);
                match find_group(gp, i.0 as int, i.1 as int) {
                    Some(k) => {
                        assert forall|q: int| 0 <= q < g.len() implies #[trigger] g[q].start == gp[q].start && g[q].end
                            == gp[q].end by {}
                        assert forall|s: int, e: int| find_group(g, s, e) == find_group(gp, s, e) by {
                            lemma_find_group_same_ranges(g, gp, s, e);
                        }
                        assert forall|h: int|
                            0 <= h < hits.len() && (#[trigger] last_named(hits[h].captures@, "import"@)) is Some implies find_group(
                            g,
                            (last_named(hits[h].captures@, "import"@)->0).0 as int,
                            (last_named(hits[h].captures@, "import"@)->0).1 as int,
                        ) is Some by {
                            let r = last_named(hits[h].captures@, "import"@)->0;
                            assert(find_group(g, r.0 as int, r.1 as int) == find_group(gp, r.0 as int, r.1 as int));
                        }
                        assert forall|m: int, t: int| 0 <= m < g.len() && 0 <= t < g[m].names.len() implies imported_by(
                            src,
                            hits,
                            g[m].start,
                            g[m].end,
                            #[trigger] g[m].names[t],
                        ) by {
                            if m == k && t == gp[k].names.len() {
                                assert(name is Some);
                                assert(g[m].names[t] == name->0);
                                assert(last_named(hits[last].captures@, "import"@) == Some(i));
                            } else {
                                assert(g[m].names[t] == gp[m].names[t]);
                                assert(imported_by(src, init, gp[m].start, gp[m].end, gp[m].names[t]));
                            }
                        }
                        assert forall|h: int|
                            0 <= h < hits.len() && (#[trigger] last_named(hits[h].captures@, "import"@)) is Some && hit_name(
                                src,
                                hits[h],
                            ) is Some implies g[find_group(
                            g,
                            (last_named(hits[h].captures@, "import"@)->0).0 as int,
                            (last_named(hits[h].captures@, "import"@)->0).1 as int,
                        )->0].names.contains(hit_name(src, hits[h])->0) by {
                            let r = last_named(hits[h].captures@, "import"@)->0;
                            if h < init.len() {
                                assert(init[h] == hits[h]);
                                lemma_find_group_some(gp, r.0 as int, r.1 as int);
                                assert(find_group(g, r.0 as int, r.1 as int) == find_group(gp, r.0 as int, r.1 as int));
                                let f = find_group(gp, r.0 as int, r.1 as int)->0;
                                let n = hit_name(src, hits[h])->0;
                                assert(gp[f].names.contains(n));
                                let t = choose|t: int| 0 <= t < gp[f].names.len() && gp[f].names[t] == n;
                                match name {
                                    Some(nn) => {
                                        assert(g == gp.update(
                                            k,
                                            GroupView { start: gp[k].start, end: gp[k].end, names: gp[k].names.push(nn) },
                                        ));
                                        if f == k {
                                            assert(g[f].names[t] == gp[f].names[t]);
                                        } else {
                                            assert(g[f] == gp[f]);
                                        }
                                    },
                                    None => {
                                        assert(g == gp);
                                    },
                                }
                                assert(g[f].names[t] == n);
                            } else {
                                assert(h == last);
                                assert(g[k].names.last() == name->0);
                                assert(g[k].names[g[k].names.len() - 1] == name->0);
                            }
                        }
                    },
                    None => {
                        assert(g.drop_last() =~= gp);
                        assert forall|s: int, e: int| #[trigger] find_group(gp, s, e) is Some implies find_group(g, s, e)
                            == find_group(gp, s, e) by {}
                        assert(find_group(g, i.0 as int, i.1 as int) == Some(gp.len() as int));
                        assert forall|h: int|
                            0 <= h < hits.len() && (#[trigger] last_named(hits[h].captures@, "import"@)) is Some implies find_group(
                            g,
                            (last_named(hits[h].captures@, "import"@)->0).0 as int,
                            (last_named(hits[h].captures@, "import"@)->0).1 as int,
                        ) is Some by {
                            let r = last_named(hits[h].captures@, "import"@)->0;
                            if h < init.len() {
                                assert(find_group(gp, r.0 as int, r.1 as int) is Some);
                            }
                        }
                        assert forall|m: int, t: int| 0 <= m < g.len() && 0 <= t < g[m].names.len() implies imported_by(
                            src,
                            hits,
                            g[m].start,
                            g[m].end,
                            #[trigger] g[m].names[t],
                        ) by {
                            if m == gp.len() {
                                assert(name is Some);
                                assert(g[m].names[t] == name->0);
                                assert(last_named(hits[last].captures@, "import"@) == Some(i));
                            } else {
                                assert(g[m] == gp[m]);
                                assert(imported_by(src, init, gp[m].start, gp[m].end, gp[m].names[t]));
                            }
                        }
                        assert forall|h: int|
                            0 <= h < hits.len() && (#[trigger] last_named(hits[h].captures@, "import"@)) is Some && hit_name(
                                src,
                                hits[h],
                            ) is Some implies g[find_group(
                            g,
                            (last_named(hits[h].captures@, "import"@)->0).0 as int,
                            (last_named(hits[h].captures@, "import"@)->0).1 as int,
                        )->0].names.contains(hit_name(src, hits[h])->0) by {
                            let r = last_named(hits[h].captures@, "import"@)->0;
                            if h < init.len() {
                                assert(init[h] == hits[h]);
                                assert(find_group(gp, r.0 as int, r.1 as int) is Some);
                                let f = find_group(gp, r.0 as int, r.1 as int)->0;
                                lemma_find_group_some(gp, r.0 as int, r.1 as int);
                                assert(find_group(g, r.0 as int, r.1 as int) == Some(f));
                                assert(g[f] == gp[f]);
                            } else {
                                assert(h == last);
                                assert(g[gp.len() as int].names[0] == name->0);
                            }
                        }
                    },
                }
            },
        }
    }
}

proof fn lemma_prune_groups_complete(groups: Seq<GroupView>, refs: Seq<Seq<char>>, m: int)
    requires
        0 <= m < groups.len(),
        all_unused(groups[m].names, refs),
    ensures
        prune_groups(groups, refs).contains(
            EditView { start: groups[m].start, end: groups[m].end, replacement: import_note(groups[m].names) },
        ),
    decreases groups.len(),
{
    let e = EditView { start: groups[m].start, end: groups[m].end, replacement: import_note(groups[m].names) };
    if m < groups.len() - 1 {
        assert(groups.drop_last()[m] == groups[m]);
        lemma_prune_groups_complete(groups.drop_last(), refs, m);
        let prev = prune_groups(groups.drop_last(), refs);
        let k = choose|k: int| 0 <= k < prev.len() && prev[k] == e;
        assert(prune_groups(groups, refs)[k] == e);
    } else {
        assert(groups.last() == groups[m]);
        let cur = prune_groups(groups, refs);
        assert(cur[cur.len() - 1] == e);
    }
}

/// An import statement none of whose imported names the file references is
/// replaced by the note listing its names: the edit spans the statement, and
/// the names it lists are those the statement imports.
pub proof fn law_unused_import_statements_pruned(
    src: Seq<u8>,
    hits: Seq<QueryHit>,
    refs: Seq<Seq<char>>,
    k: int,
    imp: (usize, usize),
)
    requires
        0 <= k < hits.len(),
        last_named(hits[k].captures@, "import"@) == Some(imp),
        hit_name(src, hits[k]) is Some,
        forall|h: int|
            0 <= h < hits.len() && #[trigger] last_named(hits[h].captures@, "import"@) == Some(imp) && hit_name(src, hits[h])
                is Some ==> !refs.contains(last_segment(hit_name(src, hits[h])->0)),
    ensures
        exists|names: Seq<Seq<char>>|
            names.contains(hit_name(src, hits[k])->0) && (forall|t: int|
                0 <= t < names.len() ==> imported_by(src, hits, imp.0 as int, imp.1 as int, #[trigger] names[t]))
                && import_edits(src, hits, refs).contains(
                EditView { start: imp.0 as int, end: imp.1 as int, replacement: import_note(names) },
            ),
{
    lemma_import_groups(src, hits);
    let g = import_groups(src, hits);
    assert(last_named(hits[k].captures@, "import"@) is Some);
    let m = find_group(g, imp.0 as int, imp.1 as int)->0;
    lemma_find_group_some(g, imp.0 as int, imp.1 as int);
    let names = g[m].names;
    assert(names.contains(hit_name(src, hits[k])->0));
    assert forall|t: int| 0 <= t < names.len() implies !refs.contains(#[trigger] last_segment(names[t])) by {
        assert(imported_by(src, hits, g[m].start, g[m].end, g[m].names[t]));
        let h = choose|h: int|
            0 <= h < hits.len() && (#[trigger] last_named(hits[h].captures@, "import"@) matches Some(i) && i.0 == g[m].start
                && i.1 == g[m].end) && hit_name(src, hits[h]) == Some(names[t]);
        let i = last_named(hits[h].captures@, "import"@)->0;
        assert(i == imp);
    }
    assert(all_unused(names, refs));
    lemma_prune_groups_complete(g, refs, m);
    assert forall|t: int| 0 <= t < names.len() implies imported_by(src, hits, imp.0 as int, imp.1 as int, #[trigger] names[t]) by {
        assert(imported_by(src, hits, g[m].start, g[m].end, g[m].names[t]));
    }
}

} // verus!
