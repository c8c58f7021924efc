use vstd::prelude::*;
use crate::text::str_eq;

verus! {

/// One component of a path, as `std::path::Path::components` gives them on Unix.
#[derive(Debug)]
pub enum PathPart {
    /// The root `/`.
    Root,
    /// `.`, which stays only at the start of a relative path.
    Here,
    /// `..`.
    Up,
    /// A name.
    Name(String),
}

/// The value of a path component.
pub enum PartView {
    Root,
    Here,
    Up,
    Name(Seq<char>),
}

impl View for PathPart {
    type V = PartView;

    open spec fn view(&self) -> PartView {
        match self {
            PathPart::Root => PartView::Root,
            PathPart::Here => PartView::Here,
            PathPart::Up => PartView::Up,
            PathPart::Name(n) => PartView::Name(n@),
        }
    }
}

/// The values of a path's components.
pub open spec fn parts_view(ps: Seq<PathPart>) -> Seq<PartView> {
    ps.map_values(|p: PathPart| p@)
}

/// The last component's name, where the path ends in a name.
pub open spec fn file_name(p: Seq<PartView>) -> Option<Seq<char>> {
    if p.len() > 0 && p.last() is Name {
        Some(p.last()->Name_0)
    } else {
        None
    }
}

/// The name of the project folder: the last component of the base when it is
/// a name, else `input`.
pub open spec fn base_name(base: Seq<PartView>) -> Seq<char> {
    match file_name(base) {
        Some(n) => n,
        None => "input"@,
    }
}

/// `p` with `prefix` taken off its front, where it begins with it
/// (`Path::strip_prefix`); otherwise `p`.
pub open spec fn relative_to(p: Seq<PartView>, prefix: Seq<PartView>) -> Seq<PartView> {
    if prefix.len() <= p.len() && p.take(prefix.len() as int) == prefix {
        p.skip(prefix.len() as int)
    } else {
        p
    }
}

/// `b` pushed onto `a` (`Path::join`): a rooted `b` replaces `a`; otherwise its
/// components follow those of `a`, where a leading `.` of `b` is dropped unless
/// `a` is empty.
pub open spec fn joined(a: Seq<PartView>, b: Seq<PartView>) -> Seq<PartView> {
    if b.len() > 0 && b[0] is Root {
        b
    } else if a.len() == 0 {
        b
    } else if b.len() > 0 && b[0] is Here {
        a + b.skip(1)
    } else {
        a + b
    }
}

/// Where the copy of `file` (a file under the project path `base`) goes under
/// `out_root`: for a project folder, at the file's place relative to the
/// folder, under a folder named as the project (a path that already begins
/// with that name is not nested twice; a rooted remainder loses its root);
/// for a single file, at its name directly under `out_root`.
pub open spec fn output_parts(
    file: Seq<PartView>,
    base: Seq<PartView>,
    base_is_dir: bool,
    out_root: Seq<PartView>,
) -> Seq<PartView> {
    let name = base_name(base);
    let rel = relative_to(file, base);
    let unnested = if rel.len() > 0 && rel[0] == PartView::Name(name) {
        rel.skip(1)
    } else {
        rel
    };
    let clean = if unnested.len() > 0 && unnested[0] is Root {
        unnested.skip(1)
    } else {
        unnested
    };
    if base_is_dir {
        joined(joined(out_root, seq![PartView::Name(name)]), clean)
    } else {
        match file_name(file) {
            Some(n) => joined(out_root, seq![PartView::Name(n)]),
            None => joined(out_root, file),
        }
    }
}

/// The output path, with `.dstl` put after its file name for a distilled
/// copy; `None` for a distilled copy of a path that ends in no name.
pub open spec fn output_path(
    file: Seq<PartView>,
    base: Seq<PartView>,
    base_is_dir: bool,
    out_root: Seq<PartView>,
    distilled: bool,
) -> Option<Seq<PartView>> {
    let out = output_parts(file, base, base_is_dir, out_root);
    if !distilled {
        Some(out)
    } else {
        match file_name(out) {
            Some(n) => Some(out.drop_last().push(PartView::Name(n + ".dstl"@))),
            None => None,
        }
    }
}

/// A copy of a path component.
pub fn copy_part(p: &PathPart) -> (res: PathPart)
    ensures
        res@ == p@,
{
    match p {
        PathPart::Root => PathPart::Root,
        PathPart::Here => PathPart::Here,
        PathPart::Up => PathPart::Up,
        PathPart::Name(n) => PathPart::Name(n.clone()),
    }
}

/// Whether two path components are the same.
pub fn same_part(a: &PathPart, b: &PathPart) -> (res: bool)
    ensures
        res == (a@ == b@),
{
    match (a, b) {
        (PathPart::Root, PathPart::Root) => true,
        (PathPart::Here, PathPart::Here) => true,
        (PathPart::Up, PathPart::Up) => true,
        (PathPart::Name(x), PathPart::Name(y)) => str_eq(x.as_str(), y.as_str()),
        _ => false,
    }
}

/// Copies of the components of `p` from position `from` on.
fn parts_from(p: &[PathPart], from: usize) -> (res: Vec<PathPart>)
    requires
        from <= p@.len(),
    ensures
        parts_view(res@) == parts_view(p@).skip(from as int),
{
    let mut res: Vec<PathPart> = Vec::new();
    let mut k = from;
    while k < p.len()
        invariant
            from <= k <= p@.len(),
            parts_view(res@) == parts_view(p@).subrange(from as int, k as int),
        decreases p@.len() - k,
    {
        let ghost prev = res@;
        let c = copy_part(&p[k]);
        res.push(c);
        assert(parts_view(res@) =~= parts_view(prev).push(c@));
        assert(parts_view(p@).subrange(from as int, k + 1) =~= parts_view(p@).subrange(from as int, k as int).push(
            p@[k as int]@,
        ));
        k = k + 1;
    }
    res
}

/// The name of the last component, where it is one.
fn last_name(p: &[PathPart]) -> (res: Option<String>)
    ensures
        res matches Some(n) ==> file_name(parts_view(p@)) == Some(n@),
        res is None ==> file_name(parts_view(p@)) is None,
{
    if p.len() == 0 {
        return None;
    }
    match &p[p.len() - 1] {
        PathPart::Name(n) => Some(n.clone()),
        _ => None,
    }
}

/// Whether `p` begins with the components of `prefix`.
fn begins_with(p: &[PathPart], prefix: &[PathPart]) -> (res: bool)
    ensures
        res == (prefix@.len() <= p@.len() && parts_view(p@).take(prefix@.len() as int) == parts_view(prefix@)),
{
    if prefix.len() > p.len() {
        return false;
    }
    let mut k: usize = 0;
    while k < prefix.len()
        invariant
            k <= prefix@.len() <= p@.len(),
            parts_view(p@).take(k as int) == parts_view(prefix@).take(k as int),
        decreases prefix@.len() - k,
    {
        if !same_part(&p[k], &prefix[k]) {
            assert(parts_view(p@).take(prefix@.len() as int)[k as int] != parts_view(prefix@)[k as int]);
            return false;
        }
        assert(parts_view(p@).take(k + 1) =~= parts_view(p@).take(k as int).push(p@[k as int]@));
        assert(parts_view(prefix@).take(k + 1) =~= parts_view(prefix@).take(k as int).push(prefix@[k as int]@));
        k = k + 1;
    }
    assert(parts_view(prefix@).take(prefix@.len() as int) =~= parts_view(prefix@));
    true
}

/// `b` pushed onto `a`.
fn join_parts(a: Vec<PathPart>, b: &[PathPart]) -> (res: Vec<PathPart>)
    ensures
        parts_view(res@) == joined(parts_view(a@), parts_view(b@)),
{
    if b.len() > 0 && matches!(b[0], PathPart::Root) {
        return parts_from(b, 0);
    }
    if a.len() == 0 {
        return parts_from(b, 0);
    }
    let from: usize = if b.len() > 0 && matches!(b[0], PathPart::Here) {
        1
    } else {
        0
    };
    let mut res = a;
    let ghost head = parts_view(res@);
    let mut k = from;
    while k < b.len()
        invariant
            from <= k <= b@.len(),
            parts_view(res@) == head + parts_view(b@).subrange(from as int, k as int),
        decreases b@.len() - k,
    {
        let ghost prev = res@;
        let c = copy_part(&b[k]);
        res.push(c);
        assert(parts_view(res@) =~= parts_view(prev).push(c@));
        assert(parts_view(b@).subrange(from as int, k + 1) =~= parts_view(b@).subrange(from as int, k as int).push(
            b@[k as int]@,
        ));
        k = k + 1;
    }
    assert(parts_view(b@).subrange(from as int, b@.len() as int) =~= parts_view(b@).skip(from as int));
    assert(parts_view(b@).skip(0) =~= parts_view(b@));
    res
}

/// Where the copy of `file`, a file under the project path `base` (a folder
/// when `base_is_dir`), goes under `out_root`, all given by their components;
/// with `.dstl` after the file name for a distilled copy. `None` for a
/// distilled copy whose path ends in no name.
pub fn build_output_path(
    file: &[PathPart],
    base: &[PathPart],
    base_is_dir: bool,
    out_root: &[PathPart],
    distilled: bool,
) -> (res: Option<Vec<PathPart>>)
    ensures
        res is None <==> output_path(parts_view(file@), parts_view(base@), base_is_dir, parts_view(out_root@), distilled) is None,
        res matches Some(p) ==> output_path(
            parts_view(file@),
            parts_view(base@),
            base_is_dir,
            parts_view(out_root@),
            distilled,
        ) == Some(parts_view(p@)),
{
    let ghost fv = parts_view(file@);
    let ghost bv = parts_view(base@);
    let name = match last_name(base) {
        Some(n) => n,
        None => String::from_str("input"),
    };
    proof {
        reveal_strlit("input");
    }
    assert(name@ == base_name(bv));
    let rel = if begins_with(file, base) {
        parts_from(file, base.len())
    } else {
        parts_from(file, 0)
    };
    assert(fv.skip(0) =~= fv);
    assert(parts_view(rel@) == relative_to(fv, bv));
    let nested = rel.len() > 0 && match &rel[0] {
        PathPart::Name(n) => str_eq(n.as_str(), name.as_str()),
        _ => false,
    };
    let unnested = if nested {
        parts_from(rel.as_slice(), 1)
    } else {
        rel
    };
    let clean = if unnested.len() > 0 && matches!(unnested[0], PathPart::Root) {
        parts_from(unnested.as_slice(), 1)
    } else {
        unnested
    };
    let out_root_parts = parts_from(out_root, 0);
    assert(parts_view(out_root@).skip(0) =~= parts_view(out_root@));
    let out = if base_is_dir {
        let named = vec![PathPart::Name(name)];
        let top = join_parts(out_root_parts, named.as_slice());
        assert(parts_view(named@) =~= seq![PartView::Name(base_name(bv))]);
        join_parts(top, clean.as_slice())
    } else {
        match last_name(file) {
            Some(n) => {
                let named = vec![PathPart::Name(n)];
                assert(parts_view(named@) =~= seq![PartView::Name(file_name(fv).unwrap())]);
                join_parts(out_root_parts, named.as_slice())
            },
            None => join_parts(out_root_parts, file),
        }
    };
    assert(parts_view(out@) == output_parts(fv, bv, base_is_dir, parts_view(out_root@)));
    if !distilled {
        return Some(out);
    }
    match last_name(out.as_slice()) {
        None => None,
        Some(n) => {
            let mut named = n;
            named.append(".dstl");
            let mut res = out;
            let ghost before = parts_view(res@);
            res.pop();
            res.push(PathPart::Name(named));
            assert(parts_view(res@) =~= before.drop_last().push(PartView::Name(file_name(before).unwrap() + ".dstl"@)));
            Some(res)
        },
    }
}

} // verus!
