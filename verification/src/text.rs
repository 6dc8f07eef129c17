//! Character-level text utilities: whitespace trimming, ASCII lowercasing,
//! and conversions between `String` and `Vec<char>`.
//!
//! All of the crate's parsing works over `Vec<char>` so that every step is
//! verified against a `Seq<char>` model; the two conversion wrappers at the
//! bottom are the only unverified glue.

use vstd::prelude::*;

verus! {

/// The Unicode `White_Space` code points, the set `char::is_whitespace`
/// recognises and `str::trim` strips.
pub open spec fn is_space_char(c: char) -> bool {
    let u = c as u32;
    u == 0x20 || (0x09 <= u && u <= 0x0d) || u == 0x85 || u == 0xa0 || u == 0x1680
        || (0x2000 <= u && u <= 0x200a) || u == 0x2028 || u == 0x2029 || u == 0x202f
        || u == 0x205f || u == 0x3000
}

pub fn is_space(c: char) -> (b: bool)
    ensures
        b == is_space_char(c),
{
    let u = c as u32;
    u == 0x20 || (0x09 <= u && u <= 0x0d) || u == 0x85 || u == 0xa0 || u == 0x1680
        || (0x2000 <= u && u <= 0x200a) || u == 0x2028 || u == 0x2029 || u == 0x202f
        || u == 0x205f || u == 0x3000
}

/// `s` with its leading whitespace removed.
pub open spec fn trim_front_spec(s: Seq<char>) -> Seq<char>
    decreases s.len(),
{
    if s.len() > 0 && is_space_char(s[0]) {
        trim_front_spec(s.drop_first())
    } else {
        s
    }
}

/// `s` with its trailing whitespace removed.
pub open spec fn trim_back_spec(s: Seq<char>) -> Seq<char>
    decreases s.len(),
{
    if s.len() > 0 && is_space_char(s.last()) {
        trim_back_spec(s.drop_last())
    } else {
        s
    }
}

/// `s` with leading and trailing whitespace removed, as `str::trim` leaves it.
pub open spec fn trim_spec(s: Seq<char>) -> Seq<char> {
    trim_back_spec(trim_front_spec(s))
}

proof fn lemma_trim_front_prefix(s: Seq<char>, i: int)
    requires
        0 <= i <= s.len(),
        forall|j: int| 0 <= j < i ==> is_space_char(s[j]),
        i == s.len() || !is_space_char(s[i]),
    ensures
        trim_front_spec(s) == s.subrange(i, s.len() as int),
    decreases i,
{
    if i == 0 {
        assert(s.subrange(0, s.len() as int) =~= s);
    } else {
        let t = s.drop_first();
        lemma_trim_front_prefix(t, i - 1);
        assert(t.subrange(i - 1, t.len() as int) =~= s.subrange(i, s.len() as int));
    }
}

proof fn lemma_trim_back_suffix(s: Seq<char>, i: int)
    requires
        0 <= i <= s.len(),
        forall|j: int| i <= j < s.len() ==> is_space_char(s[j]),
        i == 0 || !is_space_char(s[i - 1]),
    ensures
        trim_back_spec(s) == s.subrange(0, i),
    decreases s.len() - i,
{
    if i == s.len() {
        assert(s.subrange(0, s.len() as int) =~= s);
    } else {
        let t = s.drop_last();
        lemma_trim_back_suffix(t, i);
        assert(t.subrange(0, i) =~= s.subrange(0, i));
    }
}

pub fn trim_chars(v: &Vec<char>) -> (r: Vec<char>)
    ensures
        r@ == trim_spec(v@),
{
    let n = v.len();
    let mut lo: usize = 0;
    while lo < n && is_space(v[lo])
        invariant
            0 <= lo <= n,
            n == v@.len(),
            forall|j: int| 0 <= j < lo ==> is_space_char(v@[j]),
        decreases n - lo,
    {
        lo += 1;
    }
    proof {
        lemma_trim_front_prefix(v@, lo as int);
    }
    let mut hi: usize = n;
    while hi > lo && is_space(v[hi - 1])
        invariant
            lo <= hi <= n,
            n == v@.len(),
            forall|j: int| hi <= j < n ==> is_space_char(v@[j]),
        decreases hi,
    {
        hi -= 1;
    }
    proof {
        let front = v@.subrange(lo as int, n as int);
        lemma_trim_back_suffix(front, hi - lo);
        assert(front.subrange(0, hi - lo) =~= v@.subrange(lo as int, hi as int));
    }
    let mut r: Vec<char> = Vec::new();
    let mut i: usize = lo;
    while i < hi
        invariant
            lo <= i <= hi <= n,
            n == v@.len(),
            r@ =~= v@.subrange(lo as int, i as int),
        decreases hi - i,
    {
        r.push(v[i]);
        i += 1;
    }
    assert(r@ =~= v@.subrange(lo as int, hi as int));
    r
}

/// ASCII lowercasing of a single character, as `char::to_ascii_lowercase`.
pub open spec fn lower_char_spec(c: char) -> char {
    let u = c as u32;
    if 0x41 <= u && u <= 0x5a {
        ((u + 0x20) as u8) as char
    } else {
        c
    }
}

/// `s` with every ASCII upper-case letter lowered, as `str::to_ascii_lowercase`.
pub open spec fn lower_spec(s: Seq<char>) -> Seq<char> {
    s.map_values(|c: char| lower_char_spec(c))
}

pub fn lower_chars(v: &Vec<char>) -> (r: Vec<char>)
    ensures
        r@ == lower_spec(v@),
{
    let mut r: Vec<char> = Vec::new();
    let mut i: usize = 0;
    while i < v.len()
        invariant
            0 <= i <= v@.len(),
            r@.len() == i,
            forall|j: int| 0 <= j < i ==> r@[j] == lower_char_spec(v@[j]),
        decreases v@.len() - i,
    {
        let c = v[i];
        let u = c as u32;
        if 0x41 <= u && u <= 0x5a {
            r.push(((u + 0x20) as u8) as char);
        } else {
            r.push(c);
        }
        i += 1;
    }
    assert(r@ =~= lower_spec(v@));
    r
}

/// Index of the first occurrence of `sep` in `s`, or `s.len()` if absent.
pub open spec fn find_char_spec(s: Seq<char>, sep: char) -> int
    decreases s.len(),
{
    if s.len() == 0 {
        0
    } else if s[0] == sep {
        0
    } else {
        1 + find_char_spec(s.drop_first(), sep)
    }
}

pub proof fn lemma_find_char_bounds(s: Seq<char>, sep: char)
    ensures
        0 <= find_char_spec(s, sep) <= s.len(),
        find_char_spec(s, sep) < s.len() ==> s[find_char_spec(s, sep)] == sep,
        forall|j: int| 0 <= j < find_char_spec(s, sep) ==> s[j] != sep,
    decreases s.len(),
{
    if s.len() > 0 && s[0] != sep {
        lemma_find_char_bounds(s.drop_first(), sep);
        assert forall|j: int| 0 <= j < find_char_spec(s, sep) implies s[j] != sep by {
            if j > 0 {
                assert(s.drop_first()[j - 1] == s[j]);
            }
        }
    }
}

proof fn lemma_find_char_at(s: Seq<char>, sep: char, i: int)
    requires
        0 <= i <= s.len(),
        forall|j: int| 0 <= j < i ==> s[j] != sep,
        i == s.len() || s[i] == sep,
    ensures
        find_char_spec(s, sep) == i,
    decreases i,
{
    if i > 0 {
        lemma_find_char_at(s.drop_first(), sep, i - 1);
    }
}

/// `s` cut at every occurrence of `sep`; always at least one segment, and a
/// trailing `sep` yields a trailing empty segment.
pub open spec fn split_char_spec(s: Seq<char>, sep: char) -> Seq<Seq<char>>
    decreases s.len(),
{
    let i = find_char_spec(s, sep);
    if !(0 <= i < s.len()) {
        seq![s]
    } else {
        seq![s.subrange(0, i)] + split_char_spec(s.subrange(i + 1, s.len() as int), sep)
    }
}

/// `t` with one trailing carriage return removed, as `str::lines` leaves a line.
pub open spec fn strip_cr_spec(t: Seq<char>) -> Seq<char> {
    if t.len() > 0 && t.last() == '\r' {
        t.drop_last()
    } else {
        t
    }
}

/// The lines of `s`, split at `\n` with a trailing `\r` removed from each,
/// and no final empty line for input ending in a line break: `str::lines`.
pub open spec fn lines_spec(s: Seq<char>) -> Seq<Seq<char>> {
    let parts = split_char_spec(s, '\n');
    let kept = if parts.len() > 0 && parts.last().len() == 0 {
        parts.drop_last()
    } else {
        parts
    };
    kept.map_values(|t: Seq<char>| strip_cr_spec(t))
}

/// One step of `split_char_spec`, for a segment `[from, k)` with no separator
/// that is ended by a separator at `k`.
proof fn lemma_split_char_step(s: Seq<char>, sep: char, from: int, k: int)
    requires
        0 <= from <= k <= s.len(),
        forall|j: int| from <= j < k ==> s[j] != sep,
        k < s.len() ==> s[k] == sep,
    ensures
        k < s.len() ==> split_char_spec(s.subrange(from, s.len() as int), sep)
            =~= seq![s.subrange(from, k)] + split_char_spec(s.subrange(k + 1, s.len() as int), sep),
        k == s.len() ==> split_char_spec(s.subrange(from, s.len() as int), sep) =~= seq![
            s.subrange(from, k),
        ],
{
    let tail = s.subrange(from, s.len() as int);
    assert(forall|j: int| 0 <= j < k - from ==> tail[j] != sep);
    lemma_find_char_at(tail, sep, k - from);
    if k < s.len() {
        assert(tail.subrange(0, k - from) =~= s.subrange(from, k));
        assert(tail.subrange(k - from + 1, tail.len() as int) =~= s.subrange(
            k + 1,
            s.len() as int,
        ));
    } else {
        assert(tail =~= s.subrange(from, k));
    }
}

/// The raw `\n`-separated segments of `v`, before the `str::lines` trailing
/// and `\r` adjustments.
fn split_newline(v: &Vec<char>) -> (r: Vec<Vec<char>>)
    ensures
        r.deep_view() == split_char_spec(v@, '\n'),
{
    let n = v.len();
    let mut r: Vec<Vec<char>> = Vec::new();
    let mut p: usize = 0;
    proof {
        assert(v@.subrange(0, n as int) =~= v@);
        assert(r.deep_view() =~= Seq::<Seq<char>>::empty());
    }
    loop
        invariant
            0 <= p <= n,
            n == v@.len(),
            p > 0 ==> v@[p - 1] == '\n',
            split_char_spec(v@, '\n') =~~= r.deep_view() + split_char_spec(
                v@.subrange(p as int, n as int),
                '\n',
            ),
        decreases n - p,
    {
        let mut k: usize = p;
        while k < n && v[k] != '\n'
            invariant
                p <= k <= n,
                n == v@.len(),
                forall|j: int| p <= j < k ==> v@[j] != '\n',
            decreases n - k,
        {
            k += 1;
        }
        let mut seg: Vec<char> = Vec::new();
        let mut i: usize = p;
        while i < k
            invariant
                p <= i <= k <= n,
                n == v@.len(),
                seg@ =~= v@.subrange(p as int, i as int),
            decreases k - i,
        {
            seg.push(v[i]);
            i += 1;
        }
        assert(seg@ =~= v@.subrange(p as int, k as int));
        proof {
            lemma_split_char_step(v@, '\n', p as int, k as int);
        }
        let ghost old_r = r.deep_view();
        r.push(seg);
        assert(r.deep_view() =~~= old_r.push(seg@));
        if k < n {
            p = k + 1;
        } else {
            proof {
                assert(split_char_spec(v@, '\n') =~~= r.deep_view());
            }
            return r;
        }
    }
}

/// The lines of `v`, per `lines_spec`.
pub fn lines_chars(v: &Vec<char>) -> (r: Vec<Vec<char>>)
    ensures
        r.deep_view() == lines_spec(v@),
{
    let mut parts = split_newline(v);
    let ghost raw = parts.deep_view();
    if parts.len() > 0 {
        let last_empty = parts[parts.len() - 1].len() == 0;
        if last_empty {
            parts.pop();
            assert(parts.deep_view() =~~= raw.drop_last());
        }
    }
    let ghost kept = parts.deep_view();
    let mut r: Vec<Vec<char>> = Vec::new();
    let mut i: usize = 0;
    while i < parts.len()
        invariant
            0 <= i <= parts@.len(),
            kept == parts.deep_view(),
            r.deep_view() =~~= kept.subrange(0, i as int).map_values(
                |t: Seq<char>| strip_cr_spec(t),
            ),
        decreases parts@.len() - i,
    {
        let ghost old_r = r.deep_view();
        let part = &parts[i];
        let m = part.len();
        if m > 0 && part[m - 1] == '\r' {
            let mut seg: Vec<char> = Vec::new();
            let mut j: usize = 0;
            while j < m - 1
                invariant
                    0 <= j <= m - 1,
                    m == part@.len(),
                    seg@ =~= part@.subrange(0, j as int),
                decreases m - 1 - j,
            {
                seg.push(part[j]);
                j += 1;
            }
            assert(seg@ =~= strip_cr_spec(part@));
            r.push(seg);
        } else {
            let copy = clone_chars(part);
            assert(copy@ =~= strip_cr_spec(part@));
            r.push(copy);
        }
        assert(r.deep_view() =~~= old_r.push(strip_cr_spec(parts.deep_view()[i as int])));
        assert(kept.subrange(0, i + 1).map_values(|t: Seq<char>| strip_cr_spec(t)) =~= kept.subrange(
            0,
            i as int,
        ).map_values(|t: Seq<char>| strip_cr_spec(t)).push(strip_cr_spec(kept[i as int])));
        i += 1;
    }
    assert(kept.subrange(0, kept.len() as int) =~= kept);
    r
}

/// Index of the first whitespace character in `s`, or `s.len()` if absent.
pub open spec fn find_space_spec(s: Seq<char>) -> int
    decreases s.len(),
{
    if s.len() == 0 {
        0
    } else if is_space_char(s[0]) {
        0
    } else {
        1 + find_space_spec(s.drop_first())
    }
}

pub proof fn lemma_find_space_bounds(s: Seq<char>)
    ensures
        0 <= find_space_spec(s) <= s.len(),
        find_space_spec(s) < s.len() ==> is_space_char(s[find_space_spec(s)]),
        forall|j: int| 0 <= j < find_space_spec(s) ==> !is_space_char(s[j]),
    decreases s.len(),
{
    if s.len() > 0 && !is_space_char(s[0]) {
        lemma_find_space_bounds(s.drop_first());
        assert forall|j: int| 0 <= j < find_space_spec(s) implies !is_space_char(s[j]) by {
            if j > 0 {
                assert(s.drop_first()[j - 1] == s[j]);
            }
        }
    }
}

proof fn lemma_find_space_at(s: Seq<char>, i: int)
    requires
        0 <= i <= s.len(),
        forall|j: int| 0 <= j < i ==> !is_space_char(s[j]),
        i == s.len() || is_space_char(s[i]),
    ensures
        find_space_spec(s) == i,
    decreases i,
{
    if i > 0 {
        lemma_find_space_at(s.drop_first(), i - 1);
    }
}

/// The maximal non-whitespace runs of `s`, in order: `str::split_whitespace`.
pub open spec fn split_ws_spec(s: Seq<char>) -> Seq<Seq<char>>
    decreases s.len(),
    via split_ws_spec_dec
{
    if s.len() == 0 {
        Seq::empty()
    } else if is_space_char(s[0]) {
        split_ws_spec(s.drop_first())
    } else {
        let k = find_space_spec(s);
        seq![s.subrange(0, k)] + split_ws_spec(s.subrange(k, s.len() as int))
    }
}

#[via_fn]
proof fn split_ws_spec_dec(s: Seq<char>) {
    if s.len() > 0 && !is_space_char(s[0]) {
        lemma_find_space_bounds(s);
    }
}

proof fn lemma_split_ws_skip(s: Seq<char>, p: int)
    requires
        0 <= p < s.len(),
        is_space_char(s[p]),
    ensures
        split_ws_spec(s.subrange(p, s.len() as int)) == split_ws_spec(
            s.subrange(p + 1, s.len() as int),
        ),
{
    let tail = s.subrange(p, s.len() as int);
    assert(tail.drop_first() =~= s.subrange(p + 1, s.len() as int));
}

proof fn lemma_split_ws_step(s: Seq<char>, p: int, k: int)
    requires
        0 <= p < k <= s.len(),
        forall|j: int| p <= j < k ==> !is_space_char(s[j]),
        k == s.len() || is_space_char(s[k]),
    ensures
        split_ws_spec(s.subrange(p, s.len() as int)) =~~= seq![s.subrange(p, k)] + split_ws_spec(
            s.subrange(k, s.len() as int),
        ),
{
    let tail = s.subrange(p, s.len() as int);
    assert(forall|j: int| 0 <= j < k - p ==> !is_space_char(tail[j]));
    lemma_find_space_at(tail, k - p);
    assert(tail.subrange(0, k - p) =~= s.subrange(p, k));
    assert(tail.subrange(k - p, tail.len() as int) =~= s.subrange(k, s.len() as int));
}

/// The whitespace-separated tokens of `v`, per `split_ws_spec`.
pub fn split_ws_chars(v: &Vec<char>) -> (r: Vec<Vec<char>>)
    ensures
        r.deep_view() == split_ws_spec(v@),
{
    let n = v.len();
    let mut r: Vec<Vec<char>> = Vec::new();
    let mut p: usize = 0;
    proof {
        assert(v@.subrange(0, n as int) =~= v@);
        assert(r.deep_view() =~= Seq::<Seq<char>>::empty());
    }
    while p < n
        invariant
            0 <= p <= n,
            n == v@.len(),
            split_ws_spec(v@) =~~= r.deep_view() + split_ws_spec(v@.subrange(p as int, n as int)),
        decreases n - p,
    {
        if is_space(v[p]) {
            proof {
                lemma_split_ws_skip(v@, p as int);
            }
            p += 1;
        } else {
            let mut k: usize = p;
            while k < n && !is_space(v[k])
                invariant
                    p <= k <= n,
                    n == v@.len(),
                    forall|j: int| p <= j < k ==> !is_space_char(v@[j]),
                decreases n - k,
            {
                k += 1;
            }
            let mut tok: Vec<char> = Vec::new();
            let mut i: usize = p;
            while i < k
                invariant
                    p <= i <= k <= n,
                    n == v@.len(),
                    tok@ =~= v@.subrange(p as int, i as int),
                decreases k - i,
            {
                tok.push(v[i]);
                i += 1;
            }
            assert(tok@ =~= v@.subrange(p as int, k as int));
            proof {
                lemma_split_ws_step(v@, p as int, k as int);
            }
            let ghost old_r = r.deep_view();
            r.push(tok);
            assert(r.deep_view() =~~= old_r.push(tok@));
            p = k;
        }
    }
    proof {
        assert(split_ws_spec(v@.subrange(n as int, n as int)) =~= Seq::<Seq<char>>::empty());
        assert(r.deep_view() =~~= split_ws_spec(v@));
    }
    r
}

/// `s` split at its first `=`, or `None` when it has none: `str::split_once('=')`.
pub open spec fn split_once_eq_spec(s: Seq<char>) -> Option<(Seq<char>, Seq<char>)> {
    let i = find_char_spec(s, '=');
    if i < s.len() {
        Some((s.subrange(0, i), s.subrange(i + 1, s.len() as int)))
    } else {
        None
    }
}

pub fn split_once_eq(v: &Vec<char>) -> (r: Option<(Vec<char>, Vec<char>)>)
    ensures
        match r {
            Some(kv) => split_once_eq_spec(v@) == Some((kv.0@, kv.1@)),
            None => split_once_eq_spec(v@) is None,
        },
{
    let n = v.len();
    let mut i: usize = 0;
    while i < n && v[i] != '='
        invariant
            0 <= i <= n,
            n == v@.len(),
            forall|j: int| 0 <= j < i ==> v@[j] != '=',
        decreases n - i,
    {
        i += 1;
    }
    proof {
        lemma_find_char_at(v@, '=', i as int);
    }
    if i == n {
        return None;
    }
    let mut key: Vec<char> = Vec::new();
    let mut j: usize = 0;
    while j < i
        invariant
            0 <= j <= i < n,
            n == v@.len(),
            key@ =~= v@.subrange(0, j as int),
        decreases i - j,
    {
        key.push(v[j]);
        j += 1;
    }
    let mut val: Vec<char> = Vec::new();
    let mut j2: usize = i + 1;
    while j2 < n
        invariant
            i + 1 <= j2 <= n,
            n == v@.len(),
            val@ =~= v@.subrange(i + 1, j2 as int),
        decreases n - j2,
    {
        val.push(v[j2]);
        j2 += 1;
    }
    assert(key@ =~= v@.subrange(0, i as int));
    assert(val@ =~= v@.subrange(i + 1, n as int));
    Some((key, val))
}

/// Whether `p` is a prefix of `s`.
pub open spec fn starts_with_spec(s: Seq<char>, p: Seq<char>) -> bool {
    p.len() <= s.len() && s.subrange(0, p.len() as int) == p
}

pub fn starts_with_chars(v: &Vec<char>, p: &Vec<char>) -> (b: bool)
    ensures
        b == starts_with_spec(v@, p@),
{
    if p.len() > v.len() {
        return false;
    }
    let m = p.len();
    let mut i: usize = 0;
    while i < m
        invariant
            0 <= i <= m <= v@.len(),
            m == p@.len(),
            forall|j: int| 0 <= j < i ==> v@[j] == p@[j],
        decreases m - i,
    {
        if v[i] != p[i] {
            assert(v@.subrange(0, m as int)[i as int] != p@[i as int]);
            return false;
        }
        i += 1;
    }
    assert(v@.subrange(0, m as int) =~= p@);
    true
}

/// Whether `p` is a suffix of `s`.
pub open spec fn ends_with_spec(s: Seq<char>, p: Seq<char>) -> bool {
    p.len() <= s.len() && s.subrange(s.len() - p.len(), s.len() as int) == p
}

pub fn ends_with_chars(v: &Vec<char>, p: &Vec<char>) -> (b: bool)
    ensures
        b == ends_with_spec(v@, p@),
{
    let n = v.len();
    let m = p.len();
    if m > n {
        return false;
    }
    let mut i: usize = 0;
    while i < m
        invariant
            0 <= i <= m <= n,
            n == v@.len(),
            m == p@.len(),
            forall|j: int| 0 <= j < i ==> v@[n - m + j] == p@[j],
        decreases m - i,
    {
        if v[n - m + i] != p[i] {
            assert(v@.subrange(n - m, n as int)[i as int] != p@[i as int]);
            return false;
        }
        i += 1;
    }
    assert(v@.subrange(n - m, n as int) =~= p@);
    true
}

/// The first `k` characters of `v`.
pub fn take_chars(v: &Vec<char>, k: usize) -> (r: Vec<char>)
    requires
        k <= v@.len(),
    ensures
        r@ == v@.subrange(0, k as int),
{
    let mut r: Vec<char> = Vec::new();
    let mut i: usize = 0;
    while i < k
        invariant
            0 <= i <= k <= v@.len(),
            r@ =~= v@.subrange(0, i as int),
        decreases k - i,
    {
        r.push(v[i]);
        i += 1;
    }
    assert(r@ =~= v@.subrange(0, k as int));
    r
}

/// The characters of `v` from position `k` on.
pub fn skip_chars(v: &Vec<char>, k: usize) -> (r: Vec<char>)
    requires
        k <= v@.len(),
    ensures
        r@ == v@.skip(k as int),
{
    let n = v.len();
    let mut r: Vec<char> = Vec::new();
    let mut i: usize = k;
    while i < n
        invariant
            k <= i <= n,
            n == v@.len(),
            r@ =~= v@.subrange(k as int, i as int),
        decreases n - i,
    {
        r.push(v[i]);
        i += 1;
    }
    assert(r@ =~= v@.skip(k as int));
    r
}

/// Whether the character sequences are equal.
pub fn eq_chars(v: &Vec<char>, w: &Vec<char>) -> (b: bool)
    ensures
        b == (v@ == w@),
{
    if v.len() != w.len() {
        return false;
    }
    let m = v.len();
    let mut i: usize = 0;
    while i < m
        invariant
            0 <= i <= m,
            m == v@.len() == w@.len(),
            forall|j: int| 0 <= j < i ==> v@[j] == w@[j],
        decreases m - i,
    {
        if v[i] != w[i] {
            return false;
        }
        i += 1;
    }
    assert(v@ =~= w@);
    true
}

/// Appends `src` to `dst`.
pub fn append_chars(dst: &mut Vec<char>, src: &Vec<char>)
    ensures
        final(dst)@ == old(dst)@ + src@,
{
    let m = src.len();
    let mut i: usize = 0;
    while i < m
        invariant
            0 <= i <= m,
            m == src@.len(),
            dst@ =~= old(dst)@ + src@.subrange(0, i as int),
        decreases m - i,
    {
        dst.push(src[i]);
        i += 1;
    }
    assert(dst@ =~= old(dst)@ + src@);
}

/// The decimal digit character for `d`.
pub open spec fn digit_char_spec(d: nat) -> char {
    ((d + 0x30) as u8) as char
}

/// The decimal digits of `n`, most significant first, with no leading zero
/// (except for `n == 0` itself).
pub open spec fn dec_digits_spec(n: nat) -> Seq<char>
    decreases n,
{
    if n < 10 {
        seq![digit_char_spec(n)]
    } else {
        dec_digits_spec(n / 10).push(digit_char_spec(n % 10))
    }
}

fn dec_digit(d: usize) -> (c: char)
    requires
        d < 10,
    ensures
        c == digit_char_spec(d as nat),
{
    let b: u8 = (d as u8) + 0x30;
    b as char
}

/// The decimal rendering of `n`, per `dec_digits_spec`.
pub fn dec_chars(n: usize) -> (r: Vec<char>)
    ensures
        r@ == dec_digits_spec(n as nat),
    decreases n,
{
    if n < 10 {
        let mut r: Vec<char> = Vec::new();
        r.push(dec_digit(n));
        assert(r@ =~= dec_digits_spec(n as nat));
        r
    } else {
        let mut r = dec_chars(n / 10);
        r.push(dec_digit(n % 10));
        assert(r@ =~= dec_digits_spec(n as nat));
        r
    }
}

/// `d` left-padded with zeros to at least three characters.
pub open spec fn zero_pad3_spec(d: Seq<char>) -> Seq<char> {
    if d.len() >= 3 {
        d
    } else if d.len() == 2 {
        seq!['0'] + d
    } else if d.len() == 1 {
        seq!['0', '0'] + d
    } else {
        seq!['0', '0', '0']
    }
}

/// The identifier of the `k`-th discovered block (1-based): `block-` followed
/// by `k` zero-padded to a width of at least three.
pub open spec fn block_id_spec(k: nat) -> Seq<char> {
    seq!['b', 'l', 'o', 'c', 'k', '-'] + zero_pad3_spec(dec_digits_spec(k))
}

/// The identifier of the `k`-th discovered block, per `block_id_spec`.
pub fn block_id_chars(k: usize) -> (r: Vec<char>)
    ensures
        r@ == block_id_spec(k as nat),
{
    let digits = dec_chars(k);
    let mut r: Vec<char> = Vec::new();
    r.push('b');
    r.push('l');
    r.push('o');
    r.push('c');
    r.push('k');
    r.push('-');
    assert(r@ =~= seq!['b', 'l', 'o', 'c', 'k', '-']);
    if digits.len() == 2 {
        r.push('0');
    } else if digits.len() == 1 {
        r.push('0');
        r.push('0');
    } else if digits.len() == 0 {
        r.push('0');
        r.push('0');
        r.push('0');
    }
    append_chars(&mut r, &digits);
    assert(r@ =~= block_id_spec(k as nat));
    r
}

/// The numeric value of a digit sequence read in base ten; non-digit
/// characters contribute their offset from `'0'`.
pub open spec fn dec_value_spec(s: Seq<char>) -> int
    decreases s.len(),
{
    if s.len() == 0 {
        0
    } else {
        dec_value_spec(s.drop_last()) * 10 + (s.last() as u32 - 0x30)
    }
}

proof fn lemma_dec_value_of_digits(n: nat)
    ensures
        dec_value_spec(dec_digits_spec(n)) == n,
    decreases n,
{
    if n < 10 {
        let d = dec_digits_spec(n);
        assert(d.drop_last() =~= Seq::<char>::empty());
        assert(dec_value_spec(d.drop_last()) == 0);
        assert(digit_char_spec(n) as u32 == n + 0x30);
    } else {
        lemma_dec_value_of_digits(n / 10);
        assert(dec_digits_spec(n).drop_last() =~= dec_digits_spec(n / 10));
        assert(digit_char_spec(n % 10) as u32 == n % 10 + 0x30) by {
            assert(n % 10 < 10);
        }
        assert((n / 10) * 10 + n % 10 == n) by {
            vstd::arithmetic::div_mod::lemma_fundamental_div_mod(n as int, 10);
        }
    }
}

proof fn lemma_dec_value_zero_prefix(d: Seq<char>, z: Seq<char>)
    requires
        forall|j: int| 0 <= j < z.len() ==> z[j] == '0',
    ensures
        dec_value_spec(z + d) == dec_value_spec(d),
    decreases d.len(),
{
    if d.len() == 0 {
        lemma_dec_value_all_zero(z);
        assert(z + d =~= z);
    } else {
        lemma_dec_value_zero_prefix(d.drop_last(), z);
        assert((z + d).drop_last() =~= z + d.drop_last());
        assert((z + d).last() == d.last());
    }
}

proof fn lemma_dec_value_all_zero(z: Seq<char>)
    requires
        forall|j: int| 0 <= j < z.len() ==> z[j] == '0',
    ensures
        dec_value_spec(z) == 0,
    decreases z.len(),
{
    if z.len() > 0 {
        lemma_dec_value_all_zero(z.drop_last());
        assert(z.last() as u32 == 0x30);
    }
}

/// Distinct indices render to distinct block identifiers: `block_id_spec`
/// is injective, so block ids are unique however many blocks a document has.
pub proof fn lemma_block_id_injective(i: nat, j: nat)
    requires
        block_id_spec(i) == block_id_spec(j),
    ensures
        i == j,
{
    let pre = seq!['b', 'l', 'o', 'c', 'k', '-'];
    let di = dec_digits_spec(i);
    let dj = dec_digits_spec(j);
    let pi = zero_pad3_spec(di);
    let pj = zero_pad3_spec(dj);
    assert(pi =~= (pre + pi).subrange(6, (pre + pi).len() as int));
    assert(pj =~= (pre + pj).subrange(6, (pre + pj).len() as int));
    assert(pi == pj);
    lemma_pad_keeps_value(di);
    lemma_pad_keeps_value(dj);
    lemma_dec_value_of_digits(i);
    lemma_dec_value_of_digits(j);
}

proof fn lemma_pad_keeps_value(d: Seq<char>)
    ensures
        dec_value_spec(zero_pad3_spec(d)) == dec_value_spec(d),
{
    if d.len() == 2 {
        lemma_dec_value_zero_prefix(d, seq!['0']);
    } else if d.len() == 1 {
        lemma_dec_value_zero_prefix(d, seq!['0', '0']);
    } else if d.len() == 0 {
        lemma_dec_value_zero_prefix(d, seq!['0', '0', '0']);
    }
}

pub fn clone_chars(v: &Vec<char>) -> (r: Vec<char>)
    ensures
        r@ == v@,
{
    let mut r: Vec<char> = Vec::new();
    let mut i: usize = 0;
    while i < v.len()
        invariant
            0 <= i <= v@.len(),
            r@ =~= v@.subrange(0, i as int),
        decreases v@.len() - i,
    {
        r.push(v[i]);
        i += 1;
    }
    assert(r@ =~= v@);
    r
}

/// Relies on `str::chars` (via `Iterator::collect`): yields exactly the
/// characters of the string, in order, which is the string's view.
#[verifier::external_body]
pub fn str_to_chars(s: &str) -> (r: Vec<char>)
    ensures
        r@ == s@,
{
    s.chars().collect()
}

/// Relies on `String`'s `FromIterator<char>`: builds the string holding
/// exactly the given characters, in order.
#[verifier::external_body]
pub fn chars_to_string(v: &Vec<char>) -> (r: String)
    ensures
        r@ == v@,
{
    v.iter().collect()
}

} // verus!
