use vstd::prelude::*;
use crate::text::{chars_of, string_from_chars};

verus! {

broadcast use vstd::seq_lib::group_to_multiset_ensures;

/// An entry of a listed directory.
pub struct FileEntry {
    pub name: String,
    pub is_dir: bool,
}

/// `a` comes no later than `b` in the order of their characters' code points
/// (the order of `String`'s `Ord`).
pub open spec fn lex_le(a: Seq<char>, b: Seq<char>) -> bool
    decreases a.len(),
{
    if a.len() == 0 {
        true
    } else if b.len() == 0 {
        false
    } else if a[0] < b[0] {
        true
    } else if a[0] > b[0] {
        false
    } else {
        lex_le(a.skip(1), b.skip(1))
    }
}

proof fn lemma_lex_total(a: Seq<char>, b: Seq<char>)
    ensures
        lex_le(a, b) || lex_le(b, a),
    decreases a.len(),
{
    if a.len() > 0 && b.len() > 0 && a[0] == b[0] {
        lemma_lex_total(a.skip(1), b.skip(1));
    }
}

proof fn lemma_lex_trans(a: Seq<char>, b: Seq<char>, c: Seq<char>)
    requires
        lex_le(a, b),
        lex_le(b, c),
    ensures
        lex_le(a, c),
    decreases a.len(),
{
    if a.len() > 0 && b.len() > 0 && c.len() > 0 && a[0] == b[0] && b[0] == c[0] {
        lemma_lex_trans(a.skip(1), b.skip(1), c.skip(1));
    }
}

/// Whether `a` comes no later than `b`.
pub fn str_lex_le(a: &str, b: &str) -> (res: bool)
    ensures
        res == lex_le(a@, b@),
{
    let x = chars_of(a);
    let y = chars_of(b);
    let mut i: usize = 0;
    assert(x@.skip(0) =~= x@);
    assert(y@.skip(0) =~= y@);
    while i < x.len() && i < y.len() && x[i] == y[i]
        invariant
            x@ == a@,
            y@ == b@,
            i <= x@.len(),
            i <= y@.len(),
            lex_le(x@.skip(i as int), y@.skip(i as int)) == lex_le(a@, b@),
        decreases x@.len() - i,
    {
        assert(x@.skip(i as int).skip(1) =~= x@.skip(i + 1));
        assert(y@.skip(i as int).skip(1) =~= y@.skip(i + 1));
        i = i + 1;
    }
    if i == x.len() {
        return true;
    }
    if i == y.len() {
        return false;
    }
    x[i] < y[i]
}

/// Entries ordered by name.
pub open spec fn sorted_by_name(entries: Seq<FileEntry>) -> bool {
    forall|i: int, j: int| 0 <= i < j < entries.len() ==> lex_le(#[trigger] entries[i].name@, #[trigger] entries[j].name@)
}

/// The entries ordered by name (a stable insertion sort).
pub fn sort_entries(entries: &[FileEntry]) -> (res: Vec<FileEntry>)
    ensures
        res@.to_multiset() == entries@.to_multiset(),
        sorted_by_name(res@),
{
    let ghost all = entries@;
    let n = entries.len();
    let mut res: Vec<FileEntry> = Vec::new();
    for taken in 0..n
        invariant
            all == entries@,
            n == all.len(),
            res@.to_multiset() == all.take(taken as int).to_multiset(),
            sorted_by_name(res@),
    {
        let x = FileEntry { name: entries[taken].name.clone(), is_dir: entries[taken].is_dir };
        assert(x == all[taken as int]);
        let mut p: usize = 0;
        while p < res.len() && str_lex_le(res[p].name.as_str(), x.name.as_str())
            invariant
                p <= res@.len(),
                forall|i: int| 0 <= i < p ==> lex_le(#[trigger] res@[i].name@, x.name@),
            decreases res@.len() - p,
        {
            p = p + 1;
        }
        let ghost old_res = res@;
        proof {
            if p < old_res.len() {
                lemma_lex_total(old_res[p as int].name@, x.name@);
            }
        }
        res.insert(p, x);
        assert forall|i: int, j: int| 0 <= i < j < res@.len() implies lex_le(#[trigger] res@[i].name@, #[trigger] res@[j].name@) by {
            if j < p {
                assert(res@[i] == old_res[i] && res@[j] == old_res[j]);
            } else if j == p {
                assert(res@[i] == old_res[i]);
            } else if i == p {
                assert(res@[j] == old_res[j - 1]);
                if j - 1 > p {
                    lemma_lex_trans(x.name@, old_res[p as int].name@, old_res[j - 1].name@);
                }
            } else if i < p {
                assert(res@[i] == old_res[i] && res@[j] == old_res[j - 1]);
            } else {
                assert(res@[i] == old_res[i - 1] && res@[j] == old_res[j - 1]);
            }
        }
        assert(all.take(taken + 1) =~= all.take(taken as int).push(x));
    }
    assert(all.take(n as int) =~= all);
    res
}

/// The name shown for a listed file: without its `.dstl` suffix.
pub open spec fn shown_name(name: Seq<char>) -> Seq<char> {
    if name.len() >= 5 && name.subrange(name.len() - 5, name.len() as int) == ".dstl"@ {
        name.take(name.len() - 5)
    } else {
        name
    }
}

/// The name shown for a listed file (`str::strip_suffix(".dstl")`).
pub fn display_name(name: &str) -> (res: String)
    ensures
        res@ == shown_name(name@),
{
    let c = chars_of(name);
    let suffix = chars_of(".dstl");
    let n = c.len();
    let m = suffix.len();
    if n >= m {
        let mut same = true;
        let mut k: usize = 0;
        while k < m
            invariant
                n == c@.len(),
                m == suffix@.len(),
                n >= m,
                k <= m,
                same == (forall|j: int| 0 <= j < k ==> c@[n - m + j] == suffix@[j]),
            decreases m - k,
        {
            if c[n - m + k] != suffix[k] {
                same = false;
            }
            k = k + 1;
        }
        proof {
            reveal_strlit(".dstl");
        }
        if same {
            assert(c@.subrange(n - m, n as int) =~= suffix@);
            let mut kept: Vec<char> = Vec::new();
            for j in 0..n - m
                invariant
                    n == c@.len(),
                    n >= m,
                    kept@ == c@.take(j as int),
            {
                kept.push(c[j]);
                assert(kept@ =~= c@.take(j + 1));
            }
            return string_from_chars(kept.as_slice());
        } else {
            assert(c@.subrange(n - m, n as int) != suffix@) by {
                let j = choose|j: int| 0 <= j < m && c@[n - m + j] != suffix@[j];
                assert(c@.subrange(n - m, n as int)[j] != suffix@[j]);
            }
        }
    }
    proof {
        reveal_strlit(".dstl");
    }
    String::from_str(name)
}

/// Names in order.
pub open spec fn names_sorted(names: Seq<Seq<char>>) -> bool {
    forall|i: int, j: int| 0 <= i < j < names.len() ==> lex_le(#[trigger] names[i], #[trigger] names[j])
}

/// The names in order (`slice::sort` on strings).
pub fn sort_names(names: &[String]) -> (res: Vec<String>)
    ensures
        res@.to_multiset() == names@.to_multiset(),
        names_sorted(res@.map_values(|s: String| s@)),
{
    let ghost all = names@;
    let n = names.len();
    let mut res: Vec<String> = Vec::new();
    for taken in 0..n
        invariant
            all == names@,
            n == all.len(),
            res@.to_multiset() == all.take(taken as int).to_multiset(),
            names_sorted(res@.map_values(|s: String| s@)),
    {
        let x = names[taken].clone();
        assert(x == all[taken as int]);
        let mut p: usize = 0;
        while p < res.len() && str_lex_le(res[p].as_str(), x.as_str())
            invariant
                p <= res@.len(),
                forall|i: int| 0 <= i < p ==> lex_le(#[trigger] res@[i]@, x@),
            decreases res@.len() - p,
        {
            p = p + 1;
        }
        let ghost old_res = res@;
        proof {
            if p < old_res.len() {
                lemma_lex_total(old_res[p as int]@, x@);
            }
        }
        res.insert(p, x);
        let ghost v = res@.map_values(|s: String| s@);
        assert forall|i: int, j: int| 0 <= i < j < v.len() implies lex_le(#[trigger] v[i], #[trigger] v[j]) by {
            assert(old_res.map_values(|s: String| s@)[0] == old_res[0]@ || old_res.len() == 0);
            if j < p {
                assert(res@[i] == old_res[i] && res@[j] == old_res[j]);
                assert(lex_le(old_res.map_values(|s: String| s@)[i], old_res.map_values(|s: String| s@)[j]));
            } else if j == p {
                assert(res@[i] == old_res[i]);
            } else if i == p {
                assert(res@[j] == old_res[j - 1]);
                if j - 1 > p {
                    assert(lex_le(old_res.map_values(|s: String| s@)[p as int], old_res.map_values(|s: String| s@)[j - 1]));
                    lemma_lex_trans(x@, old_res[p as int]@, old_res[j - 1]@);
                }
            } else if i < p {
                assert(res@[i] == old_res[i] && res@[j] == old_res[j - 1]);
                assert(lex_le(old_res.map_values(|s: String| s@)[i], old_res.map_values(|s: String| s@)[j - 1]));
            } else {
                assert(res@[i] == old_res[i - 1] && res@[j] == old_res[j - 1]);
                assert(lex_le(old_res.map_values(|s: String| s@)[i - 1], old_res.map_values(|s: String| s@)[j - 1]));
            }
        }
        assert(all.take(taken + 1) =~= all.take(taken as int).push(x));
    }
    assert(all.take(n as int) =~= all);
    res
}

} // verus!
