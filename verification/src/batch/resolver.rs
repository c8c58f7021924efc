use vstd::prelude::*;
use crate::batch::Batch;
use crate::text::{chars_of, join_with, str_eq, string_from_chars, strings_view};

verus! {

/// The fidelity levels a path can be read at: the three layers and the source.
#[derive(Debug, Clone, Copy, PartialEq, Eq, Structural)]
pub enum Fidelity {
    Architectural,
    Skeletal,
    Partial,
    Source,
}

/// A fidelity level name that is not known.
#[derive(Debug)]
pub enum FidelityError {
    /// The name that was given.
    UnknownFidelity(String),
}

/// What `str::to_lowercase` gives for a text (Unicode lowercase mapping).
pub uninterp spec fn lowercase(s: Seq<char>) -> Seq<char>;

/// Whether every character is ASCII.
pub open spec fn all_ascii(s: Seq<char>) -> bool {
    forall|i: int| 0 <= i < s.len() ==> (#[trigger] s[i] as int) < 128
}

/// A character in lowercase by the ASCII rule: `A` to `Z` become `a` to `z`.
pub open spec fn ascii_lower_char(c: char) -> char {
    if 'A' <= c && c <= 'Z' {
        ((c as int) + 32) as char
    } else {
        c
    }
}

/// A text in lowercase by the ASCII rule.
pub open spec fn ascii_lower(s: Seq<char>) -> Seq<char> {
    s.map_values(|c: char| ascii_lower_char(c))
}

/// The text in lowercase (`str::to_lowercase`): the result is named by
/// `lowercase`; for an ASCII text, Unicode's lowercase mapping is the ASCII
/// one (`A` to `Z` become `a` to `z`, the rest stays).
#[verifier::external_body]
fn to_lowercase(s: &str) -> (res: String)
    ensures
        res@ == lowercase(s@),
        all_ascii(s@) ==> res@ == ascii_lower(s@),
{
    s.to_lowercase()
}

/// The level that a lowercase name stands for: `l0`, `partial` or
/// `l0_partial`; `l1`, `skeletal` or `l1_skeletal`; `l2`, `architectural` or
/// `l2_architectural`; `src` or `source`.
pub open spec fn fidelity_named(l: Seq<char>) -> Option<Fidelity> {
    if l == "l0"@ || l == "partial"@ || l == "l0_partial"@ {
        Some(Fidelity::Partial)
    } else if l == "l1"@ || l == "skeletal"@ || l == "l1_skeletal"@ {
        Some(Fidelity::Skeletal)
    } else if l == "l2"@ || l == "architectural"@ || l == "l2_architectural"@ {
        Some(Fidelity::Architectural)
    } else if l == "src"@ || l == "source"@ {
        Some(Fidelity::Source)
    } else {
        None
    }
}

/// The level that a lowercase name stands for, if any.
pub fn fidelity_from_lowercase(l: &str) -> (res: Option<Fidelity>)
    ensures
        res == fidelity_named(l@),
{
    if str_eq(l, "l0") || str_eq(l, "partial") || str_eq(l, "l0_partial") {
        Some(Fidelity::Partial)
    } else if str_eq(l, "l1") || str_eq(l, "skeletal") || str_eq(l, "l1_skeletal") {
        Some(Fidelity::Skeletal)
    } else if str_eq(l, "l2") || str_eq(l, "architectural") || str_eq(l, "l2_architectural") {
        Some(Fidelity::Architectural)
    } else if str_eq(l, "src") || str_eq(l, "source") {
        Some(Fidelity::Source)
    } else {
        None
    }
}

/// The folder name of a level.
pub open spec fn layer_name(f: Fidelity) -> Seq<char> {
    match f {
        Fidelity::Partial => "L0_partial"@,
        Fidelity::Skeletal => "L1_skeletal"@,
        Fidelity::Architectural => "L2_architectural"@,
        Fidelity::Source => "source"@,
    }
}

impl Fidelity {
    /// The level named by `s`, in any letter case; any other name is refused.
    pub fn from_str(s: &str) -> (res: Result<Fidelity, FidelityError>)
        ensures
            match fidelity_named(lowercase(s@)) {
                Some(f) => (res matches Ok(g) && g == f),
                None => (res matches Err(FidelityError::UnknownFidelity(name)) && name@ == s@),
            },
            all_ascii(s@) ==> match fidelity_named(ascii_lower(s@)) {
                Some(f) => (res matches Ok(g) && g == f),
                None => (res matches Err(FidelityError::UnknownFidelity(name)) && name@ == s@),
            },
    {
        let lower = to_lowercase(s);
        match fidelity_from_lowercase(lower.as_str()) {
            Some(f) => Ok(f),
            None => Err(FidelityError::UnknownFidelity(String::from_str(s))),
        }
    }

    /// The folder name of the level.
    pub fn to_layer_name(&self) -> (res: String)
        ensures
            res@ == layer_name(*self),
    {
        match self {
            Fidelity::Partial => String::from_str("L0_partial"),
            Fidelity::Skeletal => String::from_str("L1_skeletal"),
            Fidelity::Architectural => String::from_str("L2_architectural"),
            Fidelity::Source => String::from_str("source"),
        }
    }
}

/// `base` joined with `rel` by the Unix path rule: an absolute `rel` replaces
/// `base`; otherwise a `/` is put between them unless `base` is empty or ends with one.
pub open spec fn join_path(base: Seq<char>, rel: Seq<char>) -> Seq<char> {
    if rel.len() > 0 && rel[0] == '/' {
        rel
    } else if base.len() > 0 && base.last() != '/' {
        base + seq!['/'] + rel
    } else {
        base + rel
    }
}

/// `base` joined with `rel` (`Path::join` on Unix).
pub fn join_path_text(base: &str, rel: &str) -> (res: String)
    ensures
        res@ == join_path(base@, rel@),
{
    let b = chars_of(base);
    let r = chars_of(rel);
    if r.len() > 0 && r[0] == '/' {
        return String::from_str(rel);
    }
    let mut res = String::from_str(base);
    if b.len() > 0 && b[b.len() - 1] != '/' {
        let slash = vec!['/'];
        let s = string_from_chars(slash.as_slice());
        res.append(s.as_str());
    }
    res.append(rel);
    res
}

/// The text without its leading slashes (`str::trim_start_matches('/')`).
pub open spec fn trim_leading_slashes(s: Seq<char>) -> Seq<char>
    decreases s.len(),
{
    if s.len() > 0 && s[0] == '/' {
        trim_leading_slashes(s.skip(1))
    } else {
        s
    }
}

/// A text without its leading slashes does not begin with a slash.
pub proof fn lemma_trimmed_is_relative(s: Seq<char>)
    ensures
        !(trim_leading_slashes(s).len() > 0 && trim_leading_slashes(s)[0] == '/'),
    decreases s.len(),
{
    if s.len() > 0 && s[0] == '/' {
        lemma_trimmed_is_relative(s.skip(1));
    }
}

/// Paths are taken relative to the root they are resolved against: whatever
/// slashes a path begins with, the resolved path begins with the root.
pub proof fn law_paths_stay_under_root(root: Seq<char>, path: Seq<char>)
    ensures
        join_path(root, trim_leading_slashes(path)).len() >= root.len(),
        join_path(root, trim_leading_slashes(path)).take(root.len() as int) == root,
{
    lemma_trimmed_is_relative(path);
    let rel = trim_leading_slashes(path);
    if root.len() > 0 && root.last() != '/' {
        assert((root + seq!['/'] + rel).take(root.len() as int) =~= root);
    } else {
        assert((root + rel).take(root.len() as int) =~= root);
    }
}

/// The text without its leading slashes.
pub fn trim_slashes(s: &str) -> (res: String)
    ensures
        res@ == trim_leading_slashes(s@),
{
    let c = chars_of(s);
    let mut k: usize = 0;
    assert(c@.skip(0) =~= c@);
    while k < c.len() && c[k] == '/'
        invariant
            k <= c@.len(),
            c@ == s@,
            trim_leading_slashes(c@.skip(k as int)) == trim_leading_slashes(s@),
        decreases c@.len() - k,
    {
        assert(c@.skip(k as int).skip(1) =~= c@.skip(k + 1));
        k = k + 1;
    }
    let mut rest: Vec<char> = Vec::new();
    let mut j = k;
    while j < c.len()
        invariant
            k <= j <= c@.len(),
            rest@ == c@.subrange(k as int, j as int),
        decreases c@.len() - j,
    {
        rest.push(c[j]);
        assert(rest@ =~= c@.subrange(k as int, j + 1));
        j = j + 1;
    }
    assert(rest@ =~= c@.skip(k as int));
    string_from_chars(rest.as_slice())
}

/// The pieces of `s` between slashes: one more piece than there are slashes.
pub open spec fn slash_pieces(s: Seq<char>) -> Seq<Seq<char>>
    decreases s.len(),
{
    if s.len() == 0 {
        seq![seq![]]
    } else {
        let p = slash_pieces(s.drop_last());
        if s.last() == '/' {
            p.push(seq![])
        } else {
            p.update(p.len() - 1, p.last().push(s.last()))
        }
    }
}

proof fn lemma_slash_pieces_len(s: Seq<char>)
    ensures
        slash_pieces(s).len() >= 1,
    decreases s.len(),
{
    if s.len() > 0 {
        lemma_slash_pieces_len(s.drop_last());
    }
}

/// A piece that names a component: neither empty nor `.`.
pub open spec fn names_part(p: Seq<char>) -> bool {
    p.len() > 0 && p != seq!['.']
}

/// The pieces that name components, in order.
pub open spec fn named_pieces(ps: Seq<Seq<char>>) -> Seq<Seq<char>>
    decreases ps.len(),
{
    if ps.len() == 0 {
        seq![]
    } else if names_part(ps.last()) {
        named_pieces(ps.drop_last()).push(ps.last())
    } else {
        named_pieces(ps.drop_last())
    }
}

/// The named components of a path, as `std::path` reads a rooted path on
/// Unix: empty pieces and `.` are skipped.
pub open spec fn path_parts(s: Seq<char>) -> Seq<Seq<char>> {
    named_pieces(slash_pieces(s))
}

/// Whether a path is rooted (begins with `/`).
pub open spec fn rooted(s: Seq<char>) -> bool {
    s.len() > 0 && s[0] == '/'
}

/// A rooted `path` under the rooted `root` (component by component, as
/// `Path::starts_with` compares them) without that prefix: its remaining
/// components joined by single slashes. Any other path stays as it is.
pub open spec fn under_root(path: Seq<char>, root: Seq<char>) -> Seq<char> {
    let pp = path_parts(path);
    let rp = path_parts(root);
    if rooted(path) && rooted(root) && rp.len() <= pp.len() && pp.take(rp.len() as int) == rp {
        join_with(pp.skip(rp.len() as int), seq!['/'])
    } else {
        path
    }
}

/// The named components of a path.
fn parts_of(s: &str) -> (res: Vec<String>)
    ensures
        strings_view(res@) == path_parts(s@),
{
    let c = chars_of(s);
    let mut done: Vec<String> = Vec::new();
    let mut cur: Vec<char> = Vec::new();
    proof {
        assert(c@.take(0) =~= Seq::<char>::empty());
    }
    for i in 0..c.len()
        invariant
            c@ == s@,
            cur@ == slash_pieces(c@.take(i as int)).last(),
            strings_view(done@) == named_pieces(slash_pieces(c@.take(i as int)).drop_last()),
    {
        let ghost t = c@.take(i as int);
        proof {
            lemma_slash_pieces_len(t);
            assert(c@.take(i + 1) =~= t.push(c@[i as int]));
            assert(c@.take(i + 1).drop_last() =~= t);
        }
        if c[i] == '/' {
            let keep = cur.len() > 0 && !(cur.len() == 1 && cur[0] == '.');
            assert(keep == names_part(cur@)) by {
                if cur@.len() == 1 && cur@[0] == '.' {
                    assert(cur@ =~= seq!['.']);
                }
            }
            if keep {
                let ghost before = done@;
                let piece = string_from_chars(cur.as_slice());
                done.push(piece);
                assert(strings_view(done@) =~= strings_view(before).push(cur@));
            }
            cur = Vec::new();
            assert(slash_pieces(c@.take(i + 1)).drop_last() =~= slash_pieces(t));
        } else {
            cur.push(c[i]);
            assert(slash_pieces(c@.take(i + 1)).drop_last() =~= slash_pieces(t).drop_last());
        }
    }
    assert(c@.take(c@.len() as int) =~= c@);
    proof {
        lemma_slash_pieces_len(c@);
    }
    let keep = cur.len() > 0 && !(cur.len() == 1 && cur[0] == '.');
    assert(keep == names_part(cur@)) by {
        if cur@.len() == 1 && cur@[0] == '.' {
            assert(cur@ =~= seq!['.']);
        }
    }
    if keep {
        let ghost before = done@;
        let piece = string_from_chars(cur.as_slice());
        done.push(piece);
        assert(strings_view(done@) =~= strings_view(before).push(cur@));
    }
    done
}

/// The strings from position `from` on, joined by single slashes.
fn join_with_slashes(parts: &[String], from: usize) -> (res: String)
    requires
        from <= parts@.len(),
    ensures
        res@ == join_with(strings_view(parts@).skip(from as int), seq!['/']),
{
    let ghost all = strings_view(parts@).skip(from as int);
    let mut res = String::new();
    let mut j = from;
    proof {
        reveal_strlit("/");
    }
    while j < parts.len()
        invariant
            from <= j <= parts@.len(),
            all == strings_view(parts@).skip(from as int),
            res@ == join_with(all.take(j - from), seq!['/']),
        decreases parts@.len() - j,
    {
        let ghost k = j - from;
        assert(all.take(k + 1).drop_last() =~= all.take(k));
        assert(all.take(k + 1).last() == parts@[j as int]@);
        if j > from {
            res.append("/");
            proof {
                reveal_strlit("/");
            }
            assert("/"@ =~= seq!['/']);
        } else {
            assert(all.take(0) =~= Seq::<Seq<char>>::empty());
        }
        res.append(parts[j].as_str());
        proof {
            if k == 0 {
                assert(join_with(all.take(1), seq!['/']) == all.take(1)[0]);
                assert(res@ =~= parts@[j as int]@);
            }
        }
        j = j + 1;
    }
    assert(all.take(all.len() as int) =~= all);
    res
}

/// The path without the root's prefix, where it lies under the root (see `under_root`).
pub fn strip_root(path: &str, root: &str) -> (res: String)
    ensures
        res@ == under_root(path@, root@),
{
    let p = chars_of(path);
    let r = chars_of(root);
    let path_rooted = p.len() > 0 && p[0] == '/';
    let root_rooted = r.len() > 0 && r[0] == '/';
    if !(path_rooted && root_rooted) {
        return String::from_str(path);
    }
    let pp = parts_of(path);
    let rp = parts_of(root);
    if rp.len() > pp.len() {
        return String::from_str(path);
    }
    let mut k: usize = 0;
    while k < rp.len()
        invariant
            k <= rp@.len() <= pp@.len(),
            strings_view(pp@).take(k as int) == strings_view(rp@).take(k as int),
            strings_view(pp@) == path_parts(path@),
            strings_view(rp@) == path_parts(root@),
            rooted(path@) && rooted(root@),
        decreases rp@.len() - k,
    {
        if !str_eq(pp[k].as_str(), rp[k].as_str()) {
            assert(strings_view(pp@).take(rp@.len() as int)[k as int] != strings_view(rp@)[k as int]);
            return String::from_str(path);
        }
        assert(strings_view(pp@).take(k + 1) =~= strings_view(pp@).take(k as int).push(pp@[k as int]@));
        assert(strings_view(rp@).take(k + 1) =~= strings_view(rp@).take(k as int).push(rp@[k as int]@));
        k = k + 1;
    }
    assert(strings_view(rp@).take(rp@.len() as int) =~= strings_view(rp@));
    join_with_slashes(pp.as_slice(), rp.len())
}

/// What resolving a path gives, or needs next.
pub enum ResolvePlan {
    /// The path is resolved.
    Resolved(String),
    /// The path (the second text, without leading slashes) lies in the layer
    /// named by the first text: its project root there must be looked up.
    InLayer(String, String),
}

/// Resolves paths of a batch against its source or its layers.
pub struct Resolver<'a> {
    pub batch: &'a Batch,
}

impl<'a> Resolver<'a> {
    /// A resolver for the batch.
    pub fn new(batch: &'a Batch) -> (res: Self)
        ensures
            res.batch == batch,
    {
        Resolver { batch }
    }

    /// Resolves `rel_path`, a path of the project, at a fidelity level. A
    /// rooted path under the source root loses that prefix (see
    /// `under_root`); then its leading slashes are dropped, so it is relative
    /// to the project root: at `Source` it is joined to the source root;
    /// otherwise it lies in the level's layer. Being relative by the Unix path
    /// rule, it is never refused as absolute.
    pub fn resolve_path(&self, rel_path: &str, fidelity: Fidelity) -> (res: ResolvePlan)
        ensures
            fidelity == Fidelity::Source ==> (res matches ResolvePlan::Resolved(p) && p@ == join_path(
                self.batch.source_root@,
                trim_leading_slashes(under_root(rel_path@, self.batch.source_root@)),
            )),
            fidelity != Fidelity::Source ==> (res matches ResolvePlan::InLayer(l, n) && l@ == layer_name(fidelity)
                && n@ == trim_leading_slashes(under_root(rel_path@, self.batch.source_root@))),
    {
        let clean_path = strip_root(rel_path, self.batch.source_root.as_str());
        let normalized = trim_slashes(clean_path.as_str());
        if fidelity == Fidelity::Source {
            return ResolvePlan::Resolved(join_path_text(self.batch.source_root.as_str(), normalized.as_str()));
        }
        ResolvePlan::InLayer(fidelity.to_layer_name(), normalized)
    }
}

/// The two places a file can have in a layer's project root: its own path,
/// and its distilled form with the `.dstl` suffix.
pub fn layer_candidates(project_root: &str, normalized: &str) -> (res: (String, String))
    ensures
        res.0@ == join_path(project_root@, normalized@),
        res.1@ == join_path(project_root@, normalized@ + ".dstl"@),
{
    let plain = join_path_text(project_root, normalized);
    let mut distilled = String::from_str(normalized);
    distilled.append(".dstl");
    let dstl = join_path_text(project_root, distilled.as_str());
    (plain, dstl)
}

/// The file a layer path resolves to: its own path when that exists, else its
/// distilled form when that exists, else its own path.
pub fn choose_candidate(plain: String, dstl: String, plain_exists: bool, dstl_exists: bool) -> (res: String)
    ensures
        res == (if !plain_exists && dstl_exists {
            dstl
        } else {
            plain
        }),
{
    if !plain_exists && dstl_exists {
        dstl
    } else {
        plain
    }
}

/// The folder name of every level, and every layer's label, names that
/// level again when parsed: parsing takes back `to_layer_name` and `label`.
pub proof fn law_layer_names_parse(f: Fidelity, g: crate::batch::fidelity::Fidelity)
    ensures
        all_ascii(layer_name(f)),
        fidelity_named(ascii_lower(layer_name(f))) == Some(f),
        all_ascii(crate::batch::fidelity::layer_label(g)),
        fidelity_named(ascii_lower(crate::batch::fidelity::layer_label(g))) == Some(match g {
            crate::batch::fidelity::Fidelity::L0 => Fidelity::Partial,
            crate::batch::fidelity::Fidelity::L1 => Fidelity::Skeletal,
            crate::batch::fidelity::Fidelity::L2 => Fidelity::Architectural,
        }),
{
    reveal_strlit("L0_partial");
    reveal_strlit("L1_skeletal");
    reveal_strlit("L2_architectural");
    reveal_strlit("source");
    reveal_strlit("l0_partial");
    reveal_strlit("l1_skeletal");
    reveal_strlit("l2_architectural");
    reveal_strlit("l0");
    reveal_strlit("l1");
    reveal_strlit("l2");
    reveal_strlit("partial");
    reveal_strlit("skeletal");
    reveal_strlit("architectural");
    reveal_strlit("src");
    assert(ascii_lower("L0_partial"@) =~= "l0_partial"@);
    assert(ascii_lower("L1_skeletal"@) =~= "l1_skeletal"@);
    assert(ascii_lower("L2_architectural"@) =~= "l2_architectural"@);
    assert(ascii_lower("source"@) =~= "source"@);
}

} // verus!
