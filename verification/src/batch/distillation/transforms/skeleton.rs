use vstd::prelude::*;
use vstd::string::StringSliceAdditionalSpecFns;
use tree_sitter::Tree;
use crate::batch::distillation::canon::{FileInfo, Language};
use crate::batch::distillation::transforms::strategy::{
    captured_ranges, lemma_accumulate_extends, lemma_accumulate_members, queries_found,
    law_candidate_taken_unless_overlapping, lemma_captured_ranges_block, spec_has_overlap,
    accumulate, cands_view, edits_view, opt_view, query_ranges, ranges_within, take_candidates,
    CompressionStrategy, Edit, EditView,
};
use crate::text::{contains_seq, occurs_at};

verus! {

/// How much of a file's structure the skeleton keeps.
#[derive(Debug, Clone, Copy, PartialEq, Eq, Structural)]
pub enum SkeletonMode {
    /// Functions and methods are removed whole.
    ArchitecturalOnly,
    /// Bodies are elided; types and signatures stay.
    TypesAndSignatures,
    /// Bodies and fields are elided; signatures stay.
    SignaturesOnly,
}

/// Reduces files to their declarations.
pub struct Skeletonizer {
    pub mode: SkeletonMode,
}

impl Skeletonizer {
    /// A skeletonizer working in the given mode.
    pub fn new(mode: SkeletonMode) -> (res: Self)
        ensures
            res.mode == mode,
    {
        Skeletonizer { mode }
    }
}

/// The queries that find whole functions, per language.
pub open spec fn function_queries(lang: Language) -> Seq<&'static str> {
    match lang {
        Language::Rust => seq!["(function_item) @func", "(impl_item) @func"],
        Language::Python => seq!["(function_definition) @func"],
        Language::JavaScript | Language::TypeScript | Language::Tsx => seq![
            "(function_declaration) @func",
            "(method_definition) @func",
            "(arrow_function) @func",
        ],
        Language::Java => seq!["(method_declaration) @func", "(constructor_declaration) @func"],
        Language::Go => seq!["(function_declaration) @func", "(method_declaration) @func"],
        Language::C | Language::Cpp => seq!["(function_definition) @func"],
        Language::CSharp => seq!["(method_declaration) @func", "(constructor_declaration) @func"],
        Language::Kotlin => seq!["(function_declaration) @func"],
        Language::Swift => seq![
            "(function_declaration) @func",
            "(initializer_declaration) @func",
            "(deinitializer_declaration) @func",
        ],
        Language::Ruby => seq!["(method) @func"],
        Language::Other => seq![],
    }
}

/// The function queries for a language.
pub fn function_query_list(lang: &Language) -> (res: Vec<&'static str>)
    ensures
        res@ == function_queries(*lang),
{
    match lang {
        Language::Rust => vec!["(function_item) @func", "(impl_item) @func"],
        Language::Python => vec!["(function_definition) @func"],
        Language::JavaScript | Language::TypeScript | Language::Tsx => vec![
            "(function_declaration) @func",
            "(method_definition) @func",
            "(arrow_function) @func",
        ],
        Language::Java => vec!["(method_declaration) @func", "(constructor_declaration) @func"],
        Language::Go => vec!["(function_declaration) @func", "(method_declaration) @func"],
        Language::C | Language::Cpp => vec!["(function_definition) @func"],
        Language::CSharp => vec!["(method_declaration) @func", "(constructor_declaration) @func"],
        Language::Kotlin => vec!["(function_declaration) @func"],
        Language::Swift => vec![
            "(function_declaration) @func",
            "(initializer_declaration) @func",
            "(deinitializer_declaration) @func",
        ],
        Language::Ruby => vec!["(method) @func"],
        Language::Other => vec![],
    }
}

/// The queries that find function bodies, per language.
pub open spec fn body_queries(lang: Language) -> Seq<&'static str> {
    match lang {
        Language::Rust => seq!["(function_item (block) @body)", "(function_item body: (block) @body)"],
        Language::Python => seq!["(function_definition (block) @body)", "(class_definition (block) @body)"],
        Language::JavaScript | Language::TypeScript | Language::Tsx => seq![
            "(statement_block) @body",
            "(function_declaration body: (statement_block) @body)",
            "(method_definition body: (statement_block) @body)",
            "(arrow_function body: (statement_block) @body)",
        ],
        Language::Java => seq!["(method_declaration (block) @body)", "(constructor_declaration (block) @body)"],
        Language::Go => seq!["(function_declaration (block) @body)", "(method_declaration (block) @body)"],
        Language::C | Language::Cpp => seq!["(function_definition (compound_statement) @body)"],
        Language::CSharp => seq!["(method_declaration (block) @body)", "(constructor_declaration (block) @body)"],
        Language::Kotlin => seq!["(function_declaration (function_body) @body)"],
        Language::Swift => seq!["(function_declaration (code_block) @body)"],
        Language::Ruby => seq!["(method (body_statement) @body)"],
        Language::Other => seq![],
    }
}

/// The body queries for a language.
pub fn body_query_list(lang: &Language) -> (res: Vec<&'static str>)
    ensures
        res@ == body_queries(*lang),
{
    match lang {
        Language::Rust => vec!["(function_item (block) @body)", "(function_item body: (block) @body)"],
        Language::Python => vec!["(function_definition (block) @body)", "(class_definition (block) @body)"],
        Language::JavaScript | Language::TypeScript | Language::Tsx => vec![
            "(statement_block) @body",
            "(function_declaration body: (statement_block) @body)",
            "(method_definition body: (statement_block) @body)",
            "(arrow_function body: (statement_block) @body)",
        ],
        Language::Java => vec!["(method_declaration (block) @body)", "(constructor_declaration (block) @body)"],
        Language::Go => vec!["(function_declaration (block) @body)", "(method_declaration (block) @body)"],
        Language::C | Language::Cpp => vec!["(function_definition (compound_statement) @body)"],
        Language::CSharp => vec!["(method_declaration (block) @body)", "(constructor_declaration (block) @body)"],
        Language::Kotlin => vec!["(function_declaration (function_body) @body)"],
        Language::Swift => vec!["(function_declaration (code_block) @body)"],
        Language::Ruby => vec!["(method (body_statement) @body)"],
        Language::Other => vec![],
    }
}

/// The queries that find fields of types, per language.
pub open spec fn field_queries(lang: Language) -> Seq<&'static str> {
    match lang {
        Language::Rust => seq!["(struct_item (field_declaration_list) @fields)"],
        Language::TypeScript | Language::Tsx | Language::JavaScript => seq!["(class_body (public_field_definition) @field)"],
        Language::Java => seq!["(field_declaration) @field"],
        Language::CSharp => seq!["(class_declaration (class_body (field_declaration) @field))"],
        Language::Kotlin => seq!["(class_body (property_declaration) @field)"],
        Language::Swift => seq!["(member_decl_block (variable_declaration) @field)"],
        _ => seq![],
    }
}

/// The field queries for a language.
pub fn field_query_list(lang: &Language) -> (res: Vec<&'static str>)
    ensures
        res@ == field_queries(*lang),
{
    match lang {
        Language::Rust => vec!["(struct_item (field_declaration_list) @fields)"],
        Language::TypeScript | Language::Tsx | Language::JavaScript => vec!["(class_body (public_field_definition) @field)"],
        Language::Java => vec!["(field_declaration) @field"],
        Language::CSharp => vec!["(class_declaration (class_body (field_declaration) @field))"],
        Language::Kotlin => vec!["(class_body (property_declaration) @field)"],
        Language::Swift => vec!["(member_decl_block (variable_declaration) @field)"],
        _ => vec![],
    }
}

/// The queries whose captures a skeleton mode removes or elides: whole
/// functions in `ArchitecturalOnly` mode, bodies otherwise.
pub open spec fn primary_queries(mode: SkeletonMode, lang: Language) -> Seq<&'static str> {
    if mode == SkeletonMode::ArchitecturalOnly {
        function_queries(lang)
    } else {
        body_queries(lang)
    }
}

/// The queries whose captures a skeleton mode elides after the bodies: fields
/// in `SignaturesOnly` mode, none otherwise.
pub open spec fn secondary_queries(mode: SkeletonMode, lang: Language) -> Seq<&'static str> {
    if mode == SkeletonMode::SignaturesOnly {
        field_queries(lang)
    } else {
        seq![]
    }
}

/// What an elided body is replaced by: `# ...` on its own line in Ruby,
/// ` { ... } ` elsewhere.
pub open spec fn body_placeholder(lang: Language) -> Seq<char> {
    if lang == Language::Ruby {
        "\n  # ...\n"@
    } else {
        " { ... } "@
    }
}

/// What elided fields are replaced by: `;` in Rust, nothing elsewhere.
pub open spec fn field_placeholder(lang: Language) -> Seq<char> {
    if lang == Language::Rust {
        ";"@
    } else {
        ""@
    }
}

/// A captured function is removed whole.
pub open spec fn function_candidate(r: (usize, usize)) -> Option<EditView> {
    Some(EditView { start: r.0 as int, end: r.1 as int, replacement: seq![] })
}

/// A captured body of at least 5 bytes is replaced by the placeholder.
pub open spec fn body_candidate(lang: Language, r: (usize, usize)) -> Option<EditView> {
    if r.1 - r.0 < 5 {
        None
    } else {
        Some(EditView { start: r.0 as int, end: r.1 as int, replacement: body_placeholder(lang) })
    }
}

/// Captured fields are replaced by the field placeholder.
pub open spec fn field_candidate(lang: Language, r: (usize, usize)) -> Option<EditView> {
    Some(EditView { start: r.0 as int, end: r.1 as int, replacement: field_placeholder(lang) })
}

/// The skeleton's edits: in `ArchitecturalOnly` mode the functions of
/// `primary` are removed; otherwise the bodies of `primary` are elided and, in
/// `SignaturesOnly` mode, then the fields of `fields`; overlaps are skipped.
pub open spec fn skeleton_edits(
    mode: SkeletonMode,
    lang: Language,
    primary: Seq<(usize, usize)>,
    fields: Seq<(usize, usize)>,
) -> Seq<EditView> {
    if mode == SkeletonMode::ArchitecturalOnly {
        accumulate(seq![], primary.map_values(|r: (usize, usize)| function_candidate(r)))
    } else {
        let bodies = accumulate(seq![], primary.map_values(|r: (usize, usize)| body_candidate(lang, r)));
        if mode == SkeletonMode::SignaturesOnly {
            accumulate(bodies, fields.map_values(|r: (usize, usize)| field_candidate(lang, r)))
        } else {
            bodies
        }
    }
}

fn body_placeholder_text(lang: &Language) -> (res: String)
    ensures
        res@ == body_placeholder(*lang),
{
    if *lang == Language::Ruby {
        String::from_str("\n  # ...\n")
    } else {
        String::from_str(" { ... } ")
    }
}

fn field_placeholder_text(lang: &Language) -> (res: String)
    ensures
        res@ == field_placeholder(*lang),
{
    if *lang == Language::Rust {
        String::from_str(";")
    } else {
        String::from_str("")
    }
}

impl Skeletonizer {
    /// The skeleton's edits for the captured ranges (functions or bodies in
    /// `primary`, fields in `fields`).
    pub fn skeleton_edits_for(&self, lang: &Language, primary: &[(usize, usize)], fields: &[(usize, usize)]) -> (res: Vec<Edit>)
        requires
            forall|i: int| 0 <= i < primary@.len() ==> #[trigger] primary@[i].0 <= primary@[i].1,
        ensures
            edits_view(res@) == skeleton_edits(self.mode, *lang, primary@, fields@),
    {
        let arch = self.mode == SkeletonMode::ArchitecturalOnly;
        let mut cands: Vec<Option<Edit>> = Vec::new();
        for i in 0..primary.len()
            invariant
                arch == (self.mode == SkeletonMode::ArchitecturalOnly),
                forall|i: int| 0 <= i < primary@.len() ==> #[trigger] primary@[i].0 <= primary@[i].1,
                arch ==> cands_view(cands@) == primary@.take(i as int).map_values(
                    |r: (usize, usize)| function_candidate(r),
                ),
                !arch ==> cands_view(cands@) == primary@.take(i as int).map_values(
                    |r: (usize, usize)| body_candidate(*lang, r),
                ),
        {
            let (start, end) = primary[i];
            assert(primary@[i as int].0 <= primary@[i as int].1);
            let c = if arch {
                Some(Edit { start, end, replacement: String::new() })
            } else if end - start < 5 {
                None
            } else {
                Some(Edit { start, end, replacement: body_placeholder_text(lang) })
            };
            let ghost prev = cands@;
            cands.push(c);
            assert(cands_view(cands@) =~= cands_view(prev).push(opt_view(c)));
            assert(primary@.take(i + 1).map_values(|r: (usize, usize)| function_candidate(r))
                =~= primary@.take(i as int).map_values(|r: (usize, usize)| function_candidate(r)).push(
                function_candidate(primary@[i as int]),
            ));
            assert(primary@.take(i + 1).map_values(|r: (usize, usize)| body_candidate(*lang, r))
                =~= primary@.take(i as int).map_values(|r: (usize, usize)| body_candidate(*lang, r)).push(
                body_candidate(*lang, primary@[i as int]),
            ));
        }
        assert(primary@.take(primary@.len() as int) =~= primary@);
        let mut edits: Vec<Edit> = Vec::new();
        take_candidates(&mut edits, &cands);
        assert(edits_view(Seq::<Edit>::empty()) =~= Seq::<EditView>::empty());
        if self.mode == SkeletonMode::SignaturesOnly {
            let mut field_cands: Vec<Option<Edit>> = Vec::new();
            for i in 0..fields.len()
                invariant
                    cands_view(field_cands@) == fields@.take(i as int).map_values(
                        |r: (usize, usize)| field_candidate(*lang, r),
                    ),
            {
                let (start, end) = fields[i];
                let c = Some(Edit { start, end, replacement: field_placeholder_text(lang) });
                let ghost prev = field_cands@;
                field_cands.push(c);
                assert(cands_view(field_cands@) =~= cands_view(prev).push(opt_view(c)));
                assert(fields@.take(i + 1).map_values(|r: (usize, usize)| field_candidate(*lang, r))
                    =~= fields@.take(i as int).map_values(|r: (usize, usize)| field_candidate(*lang, r)).push(
                    field_candidate(*lang, fields@[i as int]),
                ));
            }
            assert(fields@.take(fields@.len() as int) =~= fields@);
            take_candidates(&mut edits, &field_cands);
        }
        edits
    }
}

impl CompressionStrategy for Skeletonizer {
    /// Architectural removal is the most destructive, then signatures only,
    /// then types and signatures.
    fn destructiveness_score(&self, lang: &Language) -> (res: u32)
        ensures
            res == (match self.mode {
                SkeletonMode::ArchitecturalOnly => 95u32,
                SkeletonMode::TypesAndSignatures => 70u32,
                SkeletonMode::SignaturesOnly => 90u32,
            }),
    {
        match self.mode {
            SkeletonMode::ArchitecturalOnly => 95,
            SkeletonMode::TypesAndSignatures => 70,
            SkeletonMode::SignaturesOnly => 90,
        }
    }

    fn is_safe_for_lang(&self, lang: &Language) -> (res: bool)
        ensures
            res,
    {
        true
    }

    fn get_edits(&self, source: &str, tree: &Tree, lang: &Language, info: &FileInfo) -> (res: Vec<Edit>)
        ensures
            edits_view(res@) == skeleton_edits(
                self.mode,
                *lang,
                captured_ranges(*tree, source@, source.spec_bytes().len() as int, primary_queries(self.mode, *lang)),
                captured_ranges(*tree, source@, source.spec_bytes().len() as int, secondary_queries(self.mode, *lang)),
            ),
    {
        let primary_queries = if self.mode == SkeletonMode::ArchitecturalOnly {
            function_query_list(lang)
        } else {
            body_query_list(lang)
        };
        let primary = query_ranges(tree, source, primary_queries.as_slice());
        let fields = if self.mode == SkeletonMode::SignaturesOnly {
            query_ranges(tree, source, field_query_list(lang).as_slice())
        } else {
            Vec::new()
        };
        proof {
            if self.mode != SkeletonMode::SignaturesOnly {
                assert(queries_found(*tree, source@, secondary_queries(self.mode, *lang)) =~= Seq::<Seq<Seq<(Seq<char>, usize, usize)>>>::empty());
                assert(fields@ =~= Seq::<(usize, usize)>::empty());
            }
        }
        self.skeleton_edits_for(lang, primary.as_slice(), fields.as_slice())
    }
}

/// On one tree, the edits of the types-and-signatures skeleton come first
/// among those of the signatures-only skeleton: both elide the same bodies,
/// and signatures only then elides fields.
pub proof fn law_signatures_extend_types(tree: Tree, source: Seq<char>, len: int, lang: Language)
    ensures
        ({
            let types = skeleton_edits(
                SkeletonMode::TypesAndSignatures,
                lang,
                captured_ranges(tree, source, len, primary_queries(SkeletonMode::TypesAndSignatures, lang)),
                captured_ranges(tree, source, len, secondary_queries(SkeletonMode::TypesAndSignatures, lang)),
            );
            let sigs = skeleton_edits(
                SkeletonMode::SignaturesOnly,
                lang,
                captured_ranges(tree, source, len, primary_queries(SkeletonMode::SignaturesOnly, lang)),
                captured_ranges(tree, source, len, secondary_queries(SkeletonMode::SignaturesOnly, lang)),
            );
            types.len() <= sigs.len() && sigs.take(types.len() as int) == types
        }),
{
    let primary = captured_ranges(tree, source, len, body_queries(lang));
    let bodies = accumulate(seq![], primary.map_values(|r: (usize, usize)| body_candidate(lang, r)));
    let fields = captured_ranges(tree, source, len, field_queries(lang));
    lemma_accumulate_extends(bodies, fields.map_values(|r: (usize, usize)| field_candidate(lang, r)));
}

/// The architectural skeleton only deletes; the other modes replace each
/// body of at least 5 bytes by the placeholder, and signatures only replaces
/// fields by the field placeholder.
pub proof fn law_skeleton_edit_shapes(
    mode: SkeletonMode,
    lang: Language,
    primary: Seq<(usize, usize)>,
    fields: Seq<(usize, usize)>,
    e: EditView,
)
    requires
        skeleton_edits(mode, lang, primary, fields).contains(e),
    ensures
        mode == SkeletonMode::ArchitecturalOnly ==> e.replacement.len() == 0,
        mode == SkeletonMode::TypesAndSignatures ==> e.end - e.start >= 5 && e.replacement == body_placeholder(lang),
        mode == SkeletonMode::SignaturesOnly ==> (e.end - e.start >= 5 && e.replacement == body_placeholder(lang))
            || e.replacement == field_placeholder(lang),
{
    let fcands = primary.map_values(|r: (usize, usize)| function_candidate(r));
    let bcands = primary.map_values(|r: (usize, usize)| body_candidate(lang, r));
    let dcands = fields.map_values(|r: (usize, usize)| field_candidate(lang, r));
    let bodies = accumulate(seq![], bcands);
    if mode == SkeletonMode::ArchitecturalOnly {
        lemma_accumulate_members(seq![], fcands, e);
        let i = choose|i: int| 0 <= i < fcands.len() && fcands[i] == Some(e);
        assert(fcands[i] == function_candidate(primary[i]));
    } else {
        if bodies.contains(e) {
            lemma_accumulate_members(seq![], bcands, e);
            let i = choose|i: int| 0 <= i < bcands.len() && bcands[i] == Some(e);
            assert(bcands[i] == body_candidate(lang, primary[i]));
        } else {
            assert(mode == SkeletonMode::SignaturesOnly);
            lemma_accumulate_members(bodies, dcands, e);
            let i = choose|i: int| 0 <= i < dcands.len() && dcands[i] == Some(e);
            assert(dcands[i] == field_candidate(lang, fields[i]));
        }
    }
}

/// The query that finds a language's function definitions (Rust `fn` items,
/// Python `def`s, JavaScript function declarations, Java methods, ...).
pub open spec fn definition_node_query(lang: Language) -> Seq<char> {
    match lang {
        Language::Rust => "(function_item) @func"@,
        Language::Python => "(function_definition) @func"@,
        Language::JavaScript | Language::TypeScript | Language::Tsx => "(function_declaration) @func"@,
        Language::Java => "(method_declaration) @func"@,
        Language::Go => "(function_declaration) @func"@,
        Language::C | Language::Cpp => "(function_definition) @func"@,
        Language::CSharp => "(method_declaration) @func"@,
        Language::Kotlin => "(function_declaration) @func"@,
        Language::Swift => "(function_declaration) @func"@,
        Language::Ruby => "(method) @func"@,
        Language::Other => seq![],
    }
}

/// In `ArchitecturalOnly` mode, every function definition that the tree shows
/// in a supported language is among the captured functions and is removed
/// whole, unless it overlaps an edit taken for an earlier capture.
pub proof fn law_architectural_removes_functions(
    tree: Tree,
    source: Seq<char>,
    len: int,
    lang: Language,
    q: &str,
    r: (usize, usize),
)
    requires
        lang != Language::Other,
        q@ == definition_node_query(lang),
        captured_ranges(tree, source, len, seq![q]).contains(r),
    ensures
        ({
            let primary = captured_ranges(tree, source, len, primary_queries(SkeletonMode::ArchitecturalOnly, lang));
            let e = EditView { start: r.0 as int, end: r.1 as int, replacement: seq![] };
            exists|i: int|
                0 <= i < primary.len() && primary[i] == r && (skeleton_edits(
                    SkeletonMode::ArchitecturalOnly,
                    lang,
                    primary,
                    seq![],
                ).contains(e) || spec_has_overlap(
                    skeleton_edits(SkeletonMode::ArchitecturalOnly, lang, primary.take(i), seq![]),
                    e.start,
                    e.end,
                ))
        }),
{
    let queries = function_queries(lang);
    assert(queries.len() > 0 && queries[0]@ == q@);
    lemma_captured_ranges_block(tree, source, len, queries, 0, q);
    assert(queries.take(0) =~= Seq::<&str>::empty());
    let pre = captured_ranges(tree, source, len, queries.take(0));
    assert(pre.len() == 0);
    let own = captured_ranges(tree, source, len, seq![q]);
    let primary = captured_ranges(tree, source, len, queries);
    let i = choose|i: int| 0 <= i < own.len() && own[i] == r;
    assert(primary.subrange(0, own.len() as int)[i] == primary[i]);
    assert(primary[i] == r);
    let e = EditView { start: r.0 as int, end: r.1 as int, replacement: seq![] };
    let cands = primary.map_values(|x: (usize, usize)| function_candidate(x));
    assert(cands[i] == Some(e));
    assert(primary.take(i).map_values(|x: (usize, usize)| function_candidate(x)) =~= cands.take(i));
    law_candidate_taken_unless_overlapping(seq![], cands, i, e);
    assert(primary_queries(SkeletonMode::ArchitecturalOnly, lang) == queries);
    assert(skeleton_edits(SkeletonMode::ArchitecturalOnly, lang, primary, seq![]) == accumulate(seq![], cands));
    assert(skeleton_edits(SkeletonMode::ArchitecturalOnly, lang, primary.take(i), seq![]) == accumulate(
        seq![],
        cands.take(i),
    ));
}

/// Every language but `Other` has function queries, and each of them
/// captures the functions it finds as `@func`; `Other` has none.
pub proof fn law_function_queries_capture_functions(lang: Language)
    ensures
        lang == Language::Other <==> function_queries(lang).len() == 0,
        forall|i: int| 0 <= i < function_queries(lang).len() ==> contains_seq(#[trigger] function_queries(lang)[i]@, "@func"@),
{
    let qs = function_queries(lang);
    reveal_strlit("@func");
    match lang {
        Language::Rust => {
            reveal_strlit("(function_item) @func");
            assert(qs[0]@.subrange(16, 21) =~= "@func"@);
            assert(occurs_at(qs[0]@, "@func"@, 16));
            reveal_strlit("(impl_item) @func");
            assert(qs[1]@.subrange(12, 17) =~= "@func"@);
            assert(occurs_at(qs[1]@, "@func"@, 12));
        },
        Language::Python => {
            reveal_strlit("(function_definition) @func");
            assert(qs[0]@.subrange(22, 27) =~= "@func"@);
            assert(occurs_at(qs[0]@, "@func"@, 22));
        },
        Language::JavaScript | Language::TypeScript | Language::Tsx => {
            reveal_strlit("(function_declaration) @func");
            assert(qs[0]@.subrange(23, 28) =~= "@func"@);
            assert(occurs_at(qs[0]@, "@func"@, 23));
            reveal_strlit("(method_definition) @func");
            assert(qs[1]@.subrange(20, 25) =~= "@func"@);
            assert(occurs_at(qs[1]@, "@func"@, 20));
            reveal_strlit("(arrow_function) @func");
            assert(qs[2]@.subrange(17, 22) =~= "@func"@);
            assert(occurs_at(qs[2]@, "@func"@, 17));
        },
        Language::Java => {
            reveal_strlit("(method_declaration) @func");
            assert(qs[0]@.subrange(21, 26) =~= "@func"@);
            assert(occurs_at(qs[0]@, "@func"@, 21));
            reveal_strlit("(constructor_declaration) @func");
            assert(qs[1]@.subrange(26, 31) =~= "@func"@);
            assert(occurs_at(qs[1]@, "@func"@, 26));
        },
        Language::Go => {
            reveal_strlit("(function_declaration) @func");
            assert(qs[0]@.subrange(23, 28) =~= "@func"@);
            assert(occurs_at(qs[0]@, "@func"@, 23));
            reveal_strlit("(method_declaration) @func");
            assert(qs[1]@.subrange(21, 26) =~= "@func"@);
            assert(occurs_at(qs[1]@, "@func"@, 21));
        },
        Language::C | Language::Cpp => {
            reveal_strlit("(function_definition) @func");
            assert(qs[0]@.subrange(22, 27) =~= "@func"@);
            assert(occurs_at(qs[0]@, "@func"@, 22));
        },
        Language::CSharp => {
            reveal_strlit("(method_declaration) @func");
            assert(qs[0]@.subrange(21, 26) =~= "@func"@);
            assert(occurs_at(qs[0]@, "@func"@, 21));
            reveal_strlit("(constructor_declaration) @func");
            assert(qs[1]@.subrange(26, 31) =~= "@func"@);
            assert(occurs_at(qs[1]@, "@func"@, 26));
        },
        Language::Kotlin => {
            reveal_strlit("(function_declaration) @func");
            assert(qs[0]@.subrange(23, 28) =~= "@func"@);
            assert(occurs_at(qs[0]@, "@func"@, 23));
        },
        Language::Swift => {
            reveal_strlit("(function_declaration) @func");
            assert(qs[0]@.subrange(23, 28) =~= "@func"@);
            assert(occurs_at(qs[0]@, "@func"@, 23));
            reveal_strlit("(initializer_declaration) @func");
            assert(qs[1]@.subrange(26, 31) =~= "@func"@);
            assert(occurs_at(qs[1]@, "@func"@, 26));
            reveal_strlit("(deinitializer_declaration) @func");
            assert(qs[2]@.subrange(28, 33) =~= "@func"@);
            assert(occurs_at(qs[2]@, "@func"@, 28));
        },
        Language::Ruby => {
            reveal_strlit("(method) @func");
            assert(qs[0]@.subrange(9, 14) =~= "@func"@);
            assert(occurs_at(qs[0]@, "@func"@, 9));
        },
        Language::Other => {},
    }
}

} // verus!
