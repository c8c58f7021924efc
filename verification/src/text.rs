use vstd::prelude::*;
use vstd::utf8::{decode_utf8, valid_utf8};

verus! {

/// The characters of a string, in order.
pub fn chars_of(s: &str) -> (res: Vec<char>)
    ensures
        res@ == s@,
{
    let mut res: Vec<char> = Vec::new();
    for c in it: s.chars()
        invariant
            res@ == it.seq().take(it.index() as int),
            it.seq() == s@,
    {
        res.push(c);
    }
    res
}

/// A string made of the given characters, in order (`Iterator::collect`).
#[verifier::external_body]
pub(crate) fn string_from_chars(chars: &[char]) -> (res: String)
    ensures
        res@ == chars@,
{
    chars.iter().collect()
}

/// The text that the given bytes encode, if they are valid UTF-8 (`std::str::from_utf8`).
#[verifier::external_body]
pub(crate) fn utf8_text(bytes: &[u8]) -> (res: Option<String>)
    ensures
        res is Some <==> valid_utf8(bytes@),
        res matches Some(s) ==> s@ == decode_utf8(bytes@),
{
    std::str::from_utf8(bytes).ok().map(|s| s.to_string())
}

/// The decimal digit character for `d < 10`.
pub open spec fn digit_char(d: nat) -> char {
    ((48 + d) as u32) as char
}

/// The decimal notation of `n`, without sign or leading zeros.
pub open spec fn decimal(n: nat) -> Seq<char>
    decreases n,
{
    if n < 10 {
        seq![digit_char(n)]
    } else {
        decimal(n / 10).push(digit_char(n % 10))
    }
}

/// The decimal notation of `n` as a string.
pub fn decimal_string(n: usize) -> (res: String)
    ensures
        res@ == decimal(n as nat),
{
    let mut digits: Vec<char> = Vec::new();
    let mut m: usize = n;
    while m >= 10
        invariant
            m <= n,
            decimal(n as nat) == decimal(m as nat) + digits@.reverse(),
        decreases m,
    {
        let d = (m % 10) as u8;
        let c = (48u8 + d) as char;
        assert(c == digit_char((m % 10) as nat));
        let ghost old_digits = digits@;
        digits.push(c);
        assert(digits@.reverse() =~= seq![c] + old_digits.reverse());
        assert(decimal(m as nat) == decimal((m / 10) as nat).push(c));
        assert(decimal(m as nat) + old_digits.reverse() =~= decimal((m / 10) as nat) + digits@.reverse());
        m = m / 10;
    }
    let c = (48u8 + (m as u8)) as char;
    assert(c == digit_char(m as nat));
    let ghost old_digits = digits@;
    digits.push(c);
    assert(digits@.reverse() =~= seq![c] + old_digits.reverse());
    assert(decimal(m as nat) =~= seq![c]);
    let mut ordered: Vec<char> = Vec::new();
    let len = digits.len();
    for i in 0..len
        invariant
            len == digits@.len(),
            ordered@ == digits@.reverse().take(i as int),
    {
        ordered.push(digits[len - 1 - i]);
        assert(ordered@ =~= digits@.reverse().take(i + 1));
    }
    assert(ordered@ =~= digits@.reverse());
    assert(decimal(n as nat) =~= digits@.reverse());
    string_from_chars(ordered.as_slice())
}

/// `needle` occurs in `hay` at position `i`.
pub open spec fn occurs_at<T>(hay: Seq<T>, needle: Seq<T>, i: int) -> bool {
    0 <= i && i + needle.len() <= hay.len() && hay.subrange(i, i + needle.len()) == needle
}

/// `needle` occurs somewhere in `hay`.
pub open spec fn contains_seq<T>(hay: Seq<T>, needle: Seq<T>) -> bool {
    exists|i: int| occurs_at(hay, needle, i)
}

/// Whether `needle` occurs at position `i` of `hay`.
pub fn bytes_occur_at(hay: &[u8], needle: &[u8], i: usize) -> (res: bool)
    ensures
        res == occurs_at(hay@, needle@, i as int),
{
    if i > hay.len() || needle.len() > hay.len() - i {
        return false;
    }
    let mut k: usize = 0;
    while k < needle.len()
        invariant
            i + needle@.len() <= hay.len(),
            k <= needle@.len(),
            forall|j: int| 0 <= j < k ==> hay@[i + j] == needle@[j],
        decreases needle@.len() - k,
    {
        assert(i + k < hay@.len());
        if hay[i + k] != needle[k] {
            assert(hay@.subrange(i as int, i + needle@.len())[k as int] != needle@[k as int]);
            return false;
        }
        k = k + 1;
    }
    assert(hay@.subrange(i as int, i + needle@.len()) =~= needle@);
    true
}

/// Whether `needle` occurs somewhere in `hay` (byte-wise substring search).
pub fn bytes_contain(hay: &[u8], needle: &[u8]) -> (res: bool)
    ensures
        res == contains_seq(hay@, needle@),
{
    if needle.len() > hay.len() {
        assert forall|i: int| !occurs_at(hay@, needle@, i) by {}
        return false;
    }
    let last = hay.len() - needle.len();
    if needle.len() == 0 {
        assert(occurs_at(hay@, needle@, 0)) by {
            assert(hay@.subrange(0, 0) =~= needle@);
        }
        return true;
    }
    let mut i: usize = 0;
    while i <= last
        invariant
            last + needle@.len() == hay.len(),
            needle@.len() > 0,
            i <= last + 1,
            forall|j: int| 0 <= j < i ==> !occurs_at(hay@, needle@, j),
        decreases last + 1 - i,
    {
        if bytes_occur_at(hay, needle, i) {
            return true;
        }
        i = i + 1;
    }
    assert forall|j: int| !occurs_at(hay@, needle@, j) by {
        if 0 <= j && j < i {
        }
    }
    false
}

/// Whether `needle` occurs at position `i` of `hay` (characters).
pub fn chars_occur_at(hay: &[char], needle: &[char], i: usize) -> (res: bool)
    ensures
        res == occurs_at(hay@, needle@, i as int),
{
    if i > hay.len() || needle.len() > hay.len() - i {
        return false;
    }
    let mut k: usize = 0;
    while k < needle.len()
        invariant
            i + needle@.len() <= hay.len(),
            k <= needle@.len(),
            forall|j: int| 0 <= j < k ==> hay@[i + j] == needle@[j],
        decreases needle@.len() - k,
    {
        assert(i + k < hay@.len());
        if hay[i + k] != needle[k] {
            assert(hay@.subrange(i as int, i + needle@.len())[k as int] != needle@[k as int]);
            return false;
        }
        k = k + 1;
    }
    assert(hay@.subrange(i as int, i + needle@.len()) =~= needle@);
    true
}

/// Whether `needle` occurs somewhere in `hay` (`str::contains` on characters).
pub fn chars_contain(hay: &[char], needle: &[char]) -> (res: bool)
    ensures
        res == contains_seq(hay@, needle@),
{
    if needle.len() > hay.len() {
        assert forall|i: int| !occurs_at(hay@, needle@, i) by {}
        return false;
    }
    let last = hay.len() - needle.len();
    if needle.len() == 0 {
        assert(occurs_at(hay@, needle@, 0)) by {
            assert(hay@.subrange(0, 0) =~= needle@);
        }
        return true;
    }
    let mut i: usize = 0;
    while i <= last
        invariant
            last + needle@.len() == hay.len(),
            needle@.len() > 0,
            i <= last + 1,
            forall|j: int| 0 <= j < i ==> !occurs_at(hay@, needle@, j),
        decreases last + 1 - i,
    {
        if chars_occur_at(hay, needle, i) {
            return true;
        }
        i = i + 1;
    }
    assert forall|j: int| !occurs_at(hay@, needle@, j) by {
        if 0 <= j && j < i {
        }
    }
    false
}

/// Whether `s` contains `needle` (`str::contains`).
pub fn str_contains(s: &str, needle: &str) -> (res: bool)
    ensures
        res == contains_seq(s@, needle@),
{
    let hay = chars_of(s);
    let pat = chars_of(needle);
    chars_contain(hay.as_slice(), pat.as_slice())
}

/// Splitting `s` at the non-overlapping occurrences of `sep` found from the
/// left (`str::split`): whether a separator was found, and the last piece.
pub open spec fn split_scan(s: Seq<char>, sep: Seq<char>) -> (bool, Seq<char>)
    decreases s.len(),
{
    if s.len() == 0 {
        (false, s)
    } else if sep.len() > 0 && occurs_at(s, sep, 0) {
        (true, split_scan(s.skip(sep.len() as int), sep).1)
    } else {
        let rest = split_scan(s.skip(1), sep);
        if rest.0 {
            rest
        } else {
            (false, s)
        }
    }
}

/// The last piece of `s.split(sep)`.
pub open spec fn last_piece(s: Seq<char>, sep: Seq<char>) -> Seq<char> {
    split_scan(s, sep).1
}

proof fn lemma_split_scan_piece(s: Seq<char>, sep: Seq<char>)
    ensures
        !split_scan(s, sep).0 ==> split_scan(s, sep).1 == s,
    decreases s.len(),
{
    if s.len() > 0 {
        if sep.len() > 0 && occurs_at(s, sep, 0) {
        } else {
            lemma_split_scan_piece(s.skip(1), sep);
        }
    }
}

/// The last piece of `s.split(sep)`, for a non-empty separator.
pub fn last_split_piece(s: &[char], sep: &[char]) -> (res: Vec<char>)
    requires
        sep@.len() > 0,
    ensures
        res@ == last_piece(s@, sep@),
{
    let n = s.len();
    let mut i: usize = 0;
    let mut piece_start: usize = 0;
    assert(s@.skip(0) =~= s@);
    proof {
        lemma_split_scan_piece(s@, sep@);
    }
    while i < n
        invariant
            n == s@.len(),
            piece_start <= i <= n,
            sep@.len() > 0,
            last_piece(s@, sep@) == (if split_scan(s@.skip(i as int), sep@).0 {
                split_scan(s@.skip(i as int), sep@).1
            } else {
                s@.skip(piece_start as int)
            }),
        decreases n - i,
    {
        let ghost rest = s@.skip(i as int);
        if chars_occur_at(s, sep, i) {
            assert(occurs_at(rest, sep@, 0)) by {
                assert(rest.subrange(0, sep@.len() as int) =~= s@.subrange(i as int, i + sep@.len()));
            }
            assert(rest.skip(sep@.len() as int) =~= s@.skip(i + sep@.len()));
            proof {
                lemma_split_scan_piece(s@.skip(i + sep@.len()), sep@);
            }
            i = i + sep.len();
            piece_start = i;
        } else {
            assert(!occurs_at(rest, sep@, 0)) by {
                if occurs_at(rest, sep@, 0) {
                    assert(rest.subrange(0, sep@.len() as int) =~= s@.subrange(i as int, i + sep@.len()));
                }
            }
            assert(rest.skip(1) =~= s@.skip(i + 1));
            i = i + 1;
        }
    }
    assert(s@.skip(n as int) =~= Seq::<char>::empty());
    let mut res: Vec<char> = Vec::new();
    let mut k: usize = piece_start;
    while k < n
        invariant
            piece_start <= k <= n,
            n == s@.len(),
            res@ == s@.subrange(piece_start as int, k as int),
        decreases n - k,
    {
        res.push(s[k]);
        assert(res@ =~= s@.subrange(piece_start as int, k + 1));
        k = k + 1;
    }
    assert(res@ =~= s@.skip(piece_start as int));
    res
}

/// The parts joined with the separator between them.
pub open spec fn join_with(parts: Seq<Seq<char>>, sep: Seq<char>) -> Seq<char>
    decreases parts.len(),
{
    if parts.len() == 0 {
        seq![]
    } else if parts.len() == 1 {
        parts[0]
    } else {
        join_with(parts.drop_last(), sep) + sep + parts.last()
    }
}

/// The pieces of `s` between line feeds (`str::split('\n')`): one more piece
/// than there are line feeds.
pub open spec fn split_lf(s: Seq<char>) -> Seq<Seq<char>>
    decreases s.len(),
{
    if s.len() == 0 {
        seq![seq![]]
    } else {
        let p = split_lf(s.drop_last());
        if s.last() == '\n' {
            p.push(seq![])
        } else {
            p.update(p.len() - 1, p.last().push(s.last()))
        }
    }
}

/// A text has at least one piece between line feeds.
pub proof fn lemma_split_lf_len(s: Seq<char>)
    ensures
        split_lf(s).len() >= 1,
    decreases s.len(),
{
    if s.len() > 0 {
        lemma_split_lf_len(s.drop_last());
    }
}

/// A line without its carriage return, when it ends with one.
pub open spec fn strip_cr(l: Seq<char>) -> Seq<char> {
    if l.len() > 0 && l.last() == '\r' {
        l.drop_last()
    } else {
        l
    }
}

/// The lines of a text (`str::lines`): split at `\n` and `\r\n`, without
/// the line endings; a final line ending is optional, and a lone `\r` is kept.
pub open spec fn text_lines(s: Seq<char>) -> Seq<Seq<char>> {
    if s.len() == 0 {
        seq![]
    } else {
        let p = split_lf(s);
        let n = if s.last() == '\n' {
            p.len() - 1
        } else {
            p.len() as int
        };
        Seq::new(
            n as nat,
            |j: int|
                if j < p.len() - 1 {
                    strip_cr(p[j])
                } else {
                    p[j]
                },
        )
    }
}

/// Lines joined by line feeds.
pub open spec fn join_lines(lines: Seq<Seq<char>>) -> Seq<char> {
    join_with(lines, seq!['\n'])
}

/// The values of a sequence of strings.
pub open spec fn strings_view(v: Seq<String>) -> Seq<Seq<char>> {
    v.map_values(|s: String| s@)
}

/// The lines of `s`, as `str::lines` gives them.
pub fn lines_of(s: &str) -> (res: Vec<String>)
    ensures
        strings_view(res@) == text_lines(s@),
{
    let chars = chars_of(s);
    let n = chars.len();
    let mut done: Vec<String> = Vec::new();
    let mut cur: Vec<char> = Vec::new();
    let mut i: usize = 0;
    assert(chars@.take(0) =~= Seq::<char>::empty());
    while i < n
        invariant
            n == chars@.len(),
            chars@ == s@,
            i <= n,
            split_lf(chars@.take(i as int)).len() == done@.len() + 1,
            forall|j: int| 0 <= j < done@.len() ==> #[trigger] done@[j]@ == strip_cr(split_lf(chars@.take(i as int))[j]),
            cur@ == split_lf(chars@.take(i as int)).last(),
        decreases n - i,
    {
        let c = chars[i];
        let ghost t = chars@.take(i as int);
        let ghost p = split_lf(t);
        assert(chars@.take(i + 1).drop_last() =~= t);
        assert(chars@.take(i + 1).last() == c);
        if c == '\n' {
            let stripped: Vec<char> = if cur.len() > 0 && cur[cur.len() - 1] == '\r' {
                let mut v: Vec<char> = Vec::new();
                let mut k: usize = 0;
                let keep = cur.len() - 1;
                while k < keep
                    invariant
                        keep + 1 == cur@.len(),
                        k <= keep,
                        v@ == cur@.take(k as int),
                    decreases cur@.len() - k,
                {
                    v.push(cur[k]);
                    assert(v@ =~= cur@.take(k + 1));
                    k = k + 1;
                }
                assert(v@ =~= cur@.drop_last());
                v
            } else {
                let mut v: Vec<char> = Vec::new();
                for k in 0..cur.len()
                    invariant
                        v@ == cur@.take(k as int),
                {
                    v.push(cur[k]);
                    assert(v@ =~= cur@.take(k + 1));
                }
                assert(v@ =~= cur@);
                v
            };
            let line = string_from_chars(stripped.as_slice());
            let ghost old_done = done@;
            done.push(line);
            cur = Vec::new();
            assert forall|j: int| 0 <= j < done@.len() implies #[trigger] done@[j]@ == strip_cr(split_lf(chars@.take(i + 1))[j]) by {
                if j < old_done.len() {
                    assert(done@[j] == old_done[j]);
                }
            }
        } else {
            cur.push(c);
            assert(cur@ =~= p.last().push(c));
        }
        i = i + 1;
    }
    assert(chars@.take(n as int) =~= chars@);
    let ghost p = split_lf(chars@);
    let mut res = done;
    if n > 0 && chars[n - 1] != '\n' {
        let last = string_from_chars(cur.as_slice());
        res.push(last);
    }
    assert(strings_view(res@) =~= text_lines(s@));
    res
}

/// The strings joined by line feeds.
pub fn join_strings_lines(lines: &[String]) -> (res: String)
    ensures
        res@ == join_lines(strings_view(lines@)),
{
    let ghost parts = strings_view(lines@);
    let mut res = String::new();
    for j in 0..lines.len()
        invariant
            parts == strings_view(lines@),
            res@ == join_lines(parts.take(j as int)),
    {
        assert(parts.take(j + 1).drop_last() =~= parts.take(j as int));
        assert(parts.take(j + 1).last() == lines@[j as int]@);
        if j > 0 {
            res.append("\n");
            proof {
                reveal_strlit("\n");
            }
            assert("\n"@ =~= seq!['\n']);
        } else {
            assert(parts.take(0) =~= Seq::<Seq<char>>::empty());
            assert(res@ =~= Seq::<char>::empty());
        }
        res.append(lines[j].as_str());
        proof {
            if j == 0 {
                assert(join_with(parts.take(1), seq!['\n']) == parts.take(1)[0]);
                assert(res@ =~= lines@[0]@);
            }
        }
    }
    assert(parts.take(parts.len() as int) =~= parts);
    res
}

/// Whether two strings are equal.
pub fn str_eq(a: &str, b: &str) -> (res: bool)
    ensures
        res == (a@ == b@),
{
    let x = chars_of(a);
    let y = chars_of(b);
    if x.len() != y.len() {
        return false;
    }
    for i in 0..x.len()
        invariant
            x@.len() == y@.len(),
            x@ == a@,
            y@ == b@,
            forall|j: int| 0 <= j < i ==> x@[j] == y@[j],
    {
        if x[i] != y[i] {
            return false;
        }
    }
    assert(x@ =~= y@);
    true
}

} // verus!
