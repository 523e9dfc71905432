//! Character-sequence utilities used by the assembly front end: whitespace,
//! trimming, searching, splitting, integer parsing and decimal rendering.
//! Text is handled as `Seq<char>` in specifications and as `Vec<char>` ranges
//! in executable code.
use vstd::prelude::*;

verus! {

/// Unicode `White_Space`, the set that `char::is_whitespace` and `str::trim` use.
pub open spec fn is_ws(c: char) -> bool {
    ||| c == ' '
    ||| ('\t' <= c && c <= '\r')
    ||| c == '\u{85}'
    ||| c == '\u{a0}'
    ||| c == '\u{1680}'
    ||| ('\u{2000}' <= c && c <= '\u{200a}')
    ||| c == '\u{2028}'
    ||| c == '\u{2029}'
    ||| c == '\u{202f}'
    ||| c == '\u{205f}'
    ||| c == '\u{3000}'
}

pub fn is_ws_exec(c: char) -> (r: bool)
    ensures
        r == is_ws(c),
{
    c == ' ' || ('\t' <= c && c <= '\r') || c == '\u{85}' || c == '\u{a0}' || c == '\u{1680}'
        || ('\u{2000}' <= c && c <= '\u{200a}') || c == '\u{2028}' || c == '\u{2029}' || c
        == '\u{202f}' || c == '\u{205f}' || c == '\u{3000}'
}

/// Number of leading characters of `s` that satisfy `is_ws`.
pub open spec fn lead_ws(s: Seq<char>) -> nat
    decreases s.len(),
{
    if s.len() > 0 && is_ws(s[0]) {
        1 + lead_ws(s.drop_first())
    } else {
        0
    }
}

/// Number of trailing characters of `s` that satisfy `is_ws`.
pub open spec fn trail_ws(s: Seq<char>) -> nat
    decreases s.len(),
{
    if s.len() > 0 && is_ws(s.last()) {
        1 + trail_ws(s.drop_last())
    } else {
        0
    }
}

pub open spec fn trim_start(s: Seq<char>) -> Seq<char> {
    s.skip(lead_ws(s) as int)
}

pub open spec fn trim_end(s: Seq<char>) -> Seq<char> {
    s.take(s.len() - trail_ws(s))
}

/// What `str::trim` returns.
pub open spec fn trim(s: Seq<char>) -> Seq<char> {
    trim_end(trim_start(s))
}

pub proof fn lemma_lead_ws_bound(s: Seq<char>)
    ensures
        lead_ws(s) <= s.len(),
        forall|i: int| 0 <= i < lead_ws(s) ==> is_ws(#[trigger] s[i]),
        lead_ws(s) < s.len() ==> !is_ws(s[lead_ws(s) as int]),
    decreases s.len(),
{
    if s.len() > 0 && is_ws(s[0]) {
        lemma_lead_ws_bound(s.drop_first());
        assert forall|i: int| 0 <= i < lead_ws(s) implies is_ws(#[trigger] s[i]) by {
            if i > 0 {
                assert(s[i] == s.drop_first()[i - 1]);
            }
        }
        if lead_ws(s) < s.len() {
            assert(s[lead_ws(s) as int] == s.drop_first()[lead_ws(s.drop_first()) as int]);
        }
    }
}

pub proof fn lemma_trail_ws_bound(s: Seq<char>)
    ensures
        trail_ws(s) <= s.len(),
        forall|i: int| s.len() - trail_ws(s) <= i < s.len() ==> is_ws(#[trigger] s[i]),
        trail_ws(s) < s.len() ==> !is_ws(s[s.len() - trail_ws(s) - 1]),
    decreases s.len(),
{
    if s.len() > 0 && is_ws(s.last()) {
        lemma_trail_ws_bound(s.drop_last());
        assert forall|i: int| s.len() - trail_ws(s) <= i < s.len() implies is_ws(#[trigger] s[i]) by {
            if i < s.len() - 1 {
                assert(s[i] == s.drop_last()[i]);
            }
        }
        if trail_ws(s) < s.len() {
            assert(s[s.len() - trail_ws(s) - 1] == s.drop_last()[s.drop_last().len()
                - trail_ws(s.drop_last()) - 1]);
        }
    }
}

/// `lead_ws` is the length of the maximal whitespace prefix.
pub proof fn lemma_lead_ws_char(s: Seq<char>, k: int)
    requires
        0 <= k <= s.len(),
        forall|i: int| 0 <= i < k ==> is_ws(#[trigger] s[i]),
        k < s.len() ==> !is_ws(s[k]),
    ensures
        lead_ws(s) == k,
    decreases s.len(),
{
    if k > 0 {
        assert(is_ws(s[0]));
        assert forall|i: int| 0 <= i < k - 1 implies is_ws(#[trigger] s.drop_first()[i]) by {
            assert(s.drop_first()[i] == s[i + 1]);
        }
        if k - 1 < s.drop_first().len() {
            assert(s.drop_first()[k - 1] == s[k]);
        }
        lemma_lead_ws_char(s.drop_first(), k - 1);
    }
}

/// `trail_ws` is the length of the maximal whitespace suffix.
pub proof fn lemma_trail_ws_char(s: Seq<char>, k: int)
    requires
        0 <= k <= s.len(),
        forall|i: int| s.len() - k <= i < s.len() ==> is_ws(#[trigger] s[i]),
        k < s.len() ==> !is_ws(s[s.len() - k - 1]),
    ensures
        trail_ws(s) == k,
    decreases s.len(),
{
    if k > 0 {
        assert(is_ws(s[s.len() - 1]));
        let t = s.drop_last();
        assert forall|i: int| t.len() - (k - 1) <= i < t.len() implies is_ws(#[trigger] t[i]) by {
            assert(t[i] == s[i]);
        }
        if k - 1 < t.len() {
            assert(t[t.len() - (k - 1) - 1] == s[s.len() - k - 1]);
        }
        lemma_trail_ws_char(t, k - 1);
    }
}

/// Copy of the characters of a string slice.
pub fn chars_of(s: &str) -> (v: Vec<char>)
    ensures
        v@ == s@,
{
    let n = s.unicode_len();
    let mut v: Vec<char> = Vec::new();
    let mut i: usize = 0;
    while i < n
        invariant
            n == s@.len(),
            i <= n,
            v@ == s@.take(i as int),
        decreases n - i,
    {
        let c = s.get_char(i);
        v.push(c);
        i = i + 1;
        assert(v@ =~= s@.take(i as int));
    }
    assert(v@ =~= s@);
    v
}

/// Builds a `String` from a sequence of characters.
///
/// Calls `FromIterator<char>` for `String` (`collect`), which appends the
/// characters in order; the contract claims the result holds exactly them.
#[verifier::external_body]
pub fn string_from_chars(v: &[char]) -> (r: String)
    ensures
        r@ == v@,
{
    v.iter().collect()
}

/// A copy of `s[lo..hi]`.
pub fn sub_vec(s: &Vec<char>, lo: usize, hi: usize) -> (r: Vec<char>)
    requires
        lo <= hi <= s.len(),
    ensures
        r@ == s@.subrange(lo as int, hi as int),
{
    let mut r: Vec<char> = Vec::new();
    let mut i = lo;
    while i < hi
        invariant
            lo <= i <= hi <= s.len(),
            r@ == s@.subrange(lo as int, i as int),
        decreases hi - i,
    {
        r.push(s[i]);
        i = i + 1;
        assert(r@ =~= s@.subrange(lo as int, i as int));
    }
    r
}

/// A `String` holding `s[lo..hi]`.
pub fn string_of_range(s: &Vec<char>, lo: usize, hi: usize) -> (r: String)
    requires
        lo <= hi <= s.len(),
    ensures
        r@ == s@.subrange(lo as int, hi as int),
{
    let v = sub_vec(s, lo, hi);
    string_from_chars(v.as_slice())
}

/// Bounds of `trim(s[lo..hi])` inside `s`.
pub fn trim_range(s: &Vec<char>, lo: usize, hi: usize) -> (r: (usize, usize))
    requires
        lo <= hi <= s.len(),
    ensures
        lo <= r.0 <= r.1 <= hi,
        s@.subrange(r.0 as int, r.1 as int) == trim(s@.subrange(lo as int, hi as int)),
        r.0 == lo + lead_ws(s@.subrange(lo as int, hi as int)),
{
    let ghost t = s@.subrange(lo as int, hi as int);
    let mut a = lo;
    while a < hi && is_ws_exec(s[a])
        invariant
            lo <= a <= hi <= s.len(),
            t == s@.subrange(lo as int, hi as int),
            forall|i: int| 0 <= i < a - lo ==> is_ws(#[trigger] t[i]),
        decreases hi - a,
    {
        a = a + 1;
    }
    proof {
        lemma_lead_ws_char(t, a - lo);
    }
    let ghost u = trim_start(t);
    assert(u =~= s@.subrange(a as int, hi as int));
    let mut b = hi;
    while b > a && is_ws_exec(s[b - 1])
        invariant
            lo <= a <= b <= hi <= s.len(),
            u == s@.subrange(a as int, hi as int),
            forall|i: int| b - a <= i < u.len() ==> is_ws(#[trigger] u[i]),
        decreases b - a,
    {
        b = b - 1;
    }
    proof {
        lemma_trail_ws_char(u, hi - b);
    }
    assert(s@.subrange(a as int, b as int) =~= trim_end(u));
    (a, b)
}

/// Index of the first occurrence of `c`.
pub open spec fn find_char(s: Seq<char>, c: char) -> Option<int>
    decreases s.len(),
{
    if s.len() == 0 {
        None
    } else if s[0] == c {
        Some(0)
    } else {
        match find_char(s.drop_first(), c) {
            Some(i) => Some(i + 1),
            None => None,
        }
    }
}

/// Index of the last occurrence of `c`.
pub open spec fn rfind_char(s: Seq<char>, c: char) -> Option<int>
    decreases s.len(),
{
    if s.len() == 0 {
        None
    } else if s.last() == c {
        Some(s.len() - 1)
    } else {
        rfind_char(s.drop_last(), c)
    }
}

pub proof fn lemma_find_char(s: Seq<char>, c: char)
    ensures
        match find_char(s, c) {
            Some(i) => 0 <= i < s.len() && s[i] == c && forall|j: int| 0 <= j < i ==> s[j] != c,
            None => forall|j: int| 0 <= j < s.len() ==> s[j] != c,
        },
    decreases s.len(),
{
    if s.len() > 0 {
        lemma_find_char(s.drop_first(), c);
        if s[0] != c {
            match find_char(s.drop_first(), c) {
                Some(i) => {
                    assert(s[i + 1] == s.drop_first()[i]);
                    assert forall|j: int| 0 <= j < i + 1 implies s[j] != c by {
                        if j > 0 {
                            assert(s[j] == s.drop_first()[j - 1]);
                        }
                    }
                },
                None => {
                    assert forall|j: int| 0 <= j < s.len() implies s[j] != c by {
                        if j > 0 {
                            assert(s[j] == s.drop_first()[j - 1]);
                        }
                    }
                },
            }
        }
    }
}

/// `find_char` is characterized by the position of the first match.
pub proof fn lemma_find_char_at(s: Seq<char>, c: char, k: int)
    requires
        0 <= k <= s.len(),
        forall|j: int| 0 <= j < k ==> s[j] != c,
        k < s.len() ==> s[k] == c,
    ensures
        find_char(s, c) == (if k < s.len() {
            Some(k)
        } else {
            None::<int>
        }),
{
    lemma_find_char(s, c);
    match find_char(s, c) {
        Some(i) => {
            assert(!(i < k));
            if k < i {
                assert(s[k] == c);
            }
        },
        None => {
            if k < s.len() {
                assert(s[k] == c);
            }
        },
    }
}

pub proof fn lemma_rfind_char(s: Seq<char>, c: char)
    ensures
        match rfind_char(s, c) {
            Some(i) => 0 <= i < s.len() && s[i] == c && forall|j: int| i < j < s.len() ==> s[j]
                != c,
            None => forall|j: int| 0 <= j < s.len() ==> s[j] != c,
        },
    decreases s.len(),
{
    if s.len() > 0 {
        lemma_rfind_char(s.drop_last(), c);
        if s.last() != c {
            match rfind_char(s.drop_last(), c) {
                Some(i) => {
                    assert(s[i] == s.drop_last()[i]);
                    assert forall|j: int| i < j < s.len() implies s[j] != c by {
                        if j < s.len() - 1 {
                            assert(s[j] == s.drop_last()[j]);
                        }
                    }
                },
                None => {
                    assert forall|j: int| 0 <= j < s.len() implies s[j] != c by {
                        if j < s.len() - 1 {
                            assert(s[j] == s.drop_last()[j]);
                        }
                    }
                },
            }
        }
    }
}

pub proof fn lemma_rfind_char_at(s: Seq<char>, c: char, k: int)
    requires
        -1 <= k < s.len(),
        forall|j: int| k < j < s.len() ==> s[j] != c,
        k >= 0 ==> s[k] == c,
    ensures
        rfind_char(s, c) == (if k >= 0 {
            Some(k)
        } else {
            None::<int>
        }),
{
    lemma_rfind_char(s, c);
    match rfind_char(s, c) {
        Some(i) => {
            assert(!(i > k));
            if k > i {
                assert(s[k] == c);
            }
        },
        None => {
            if k >= 0 {
                assert(s[k] == c);
            }
        },
    }
}

/// First index `i` in `lo..hi` with `s[i] == c`, as an offset from `lo`.
pub fn find_char_range(s: &Vec<char>, lo: usize, hi: usize, c: char) -> (r: Option<usize>)
    requires
        lo <= hi <= s.len(),
    ensures
        r matches Some(i) ==> find_char(s@.subrange(lo as int, hi as int), c) == Some(i as int),
        r is None ==> find_char(s@.subrange(lo as int, hi as int), c) is None,
{
    let ghost t = s@.subrange(lo as int, hi as int);
    let mut i = lo;
    while i < hi
        invariant
            lo <= i <= hi <= s.len(),
            t == s@.subrange(lo as int, hi as int),
            forall|j: int| 0 <= j < i - lo ==> t[j] != c,
        decreases hi - i,
    {
        if s[i] == c {
            proof {
                lemma_find_char_at(t, c, i - lo);
            }
            return Some(i - lo);
        }
        i = i + 1;
    }
    proof {
        lemma_find_char_at(t, c, t.len() as int);
    }
    None
}

/// Last index `i` in `lo..hi` with `s[i] == c`, as an offset from `lo`.
pub fn rfind_char_range(s: &Vec<char>, lo: usize, hi: usize, c: char) -> (r: Option<usize>)
    requires
        lo <= hi <= s.len(),
    ensures
        r matches Some(i) ==> rfind_char(s@.subrange(lo as int, hi as int), c) == Some(i as int),
        r is None ==> rfind_char(s@.subrange(lo as int, hi as int), c) is None,
{
    let ghost t = s@.subrange(lo as int, hi as int);
    let mut i = hi;
    while i > lo
        invariant
            lo <= i <= hi <= s.len(),
            t == s@.subrange(lo as int, hi as int),
            forall|j: int| i - lo <= j < t.len() ==> t[j] != c,
        decreases i - lo,
    {
        if s[i - 1] == c {
            proof {
                lemma_rfind_char_at(t, c, i - 1 - lo);
            }
            return Some(i - 1 - lo);
        }
        i = i - 1;
    }
    proof {
        lemma_rfind_char_at(t, c, -1);
    }
    None
}

pub open spec fn starts_with(s: Seq<char>, p: Seq<char>) -> bool {
    p.len() <= s.len() && s.take(p.len() as int) == p
}

pub open spec fn ends_with(s: Seq<char>, p: Seq<char>) -> bool {
    p.len() <= s.len() && s.skip(s.len() - p.len()) == p
}

/// Whether `s[lo..hi]` starts with `p`.
pub fn starts_with_range(s: &Vec<char>, lo: usize, hi: usize, p: &str) -> (r: bool)
    requires
        lo <= hi <= s.len(),
    ensures
        r == starts_with(s@.subrange(lo as int, hi as int), p@),
{
    let pv = chars_of(p);
    let n = pv.len();
    if n > hi - lo {
        return false;
    }
    let mut i: usize = 0;
    while i < n
        invariant
            lo <= hi <= s.len(),
            n == pv.len() == p@.len(),
            pv@ == p@,
            n <= hi - lo,
            i <= n,
            forall|j: int| 0 <= j < i ==> s@[lo + j] == pv@[j],
        decreases n - i,
    {
        if s[lo + i] != pv[i] {
            assert(s@.subrange(lo as int, hi as int).take(n as int)[i as int] != p@[i as int]);
            return false;
        }
        i = i + 1;
    }
    assert(s@.subrange(lo as int, hi as int).take(n as int) =~= p@);
    true
}

/// Whether `s[lo..hi]` ends with `p`.
pub fn ends_with_range(s: &Vec<char>, lo: usize, hi: usize, p: &str) -> (r: bool)
    requires
        lo <= hi <= s.len(),
    ensures
        r == ends_with(s@.subrange(lo as int, hi as int), p@),
{
    let pv = chars_of(p);
    let n = pv.len();
    if n > hi - lo {
        return false;
    }
    let base = hi - n;
    let mut i: usize = 0;
    while i < n
        invariant
            lo <= base <= hi <= s.len(),
            base == hi - n,
            n == pv.len() == p@.len(),
            pv@ == p@,
            i <= n,
            forall|j: int| 0 <= j < i ==> s@[base + j] == pv@[j],
        decreases n - i,
    {
        if s[base + i] != pv[i] {
            let ghost t = s@.subrange(lo as int, hi as int);
            assert(t.skip(t.len() - n)[i as int] != p@[i as int]);
            return false;
        }
        i = i + 1;
    }
    let ghost t = s@.subrange(lo as int, hi as int);
    assert(t.skip(t.len() - n) =~= p@);
    true
}

/// Whether `p` occurs in `s` as a contiguous block (what `str::contains` answers).
pub open spec fn contains_sub(s: Seq<char>, p: Seq<char>) -> bool {
    exists|i: int| 0 <= i && i + p.len() <= s.len() && #[trigger] s.subrange(i, i + p.len()) == p
}

pub fn contains_sub_exec(s: &Vec<char>, p: &Vec<char>) -> (r: bool)
    ensures
        r == contains_sub(s@, p@),
{
    let n = s.len();
    let m = p.len();
    if m > n {
        proof {
            assert forall|i: int| 0 <= i && i + m <= n implies #[trigger] s@.subrange(i, i + m)
                != p@ by {}
        }
        return false;
    }
    if m == 0 {
        assert(s@.subrange(0, (0 + p@.len()) as int) =~= p@);
        return true;
    }
    let mut i: usize = 0;
    while i <= n - m
        invariant
            n == s.len(),
            m == p.len(),
            1 <= m <= n,
            i <= n - m + 1,
            forall|k: int| 0 <= k < i ==> #[trigger] s@.subrange(k, k + m) != p@,
        decreases n - i,
    {
        let mut j: usize = 0;
        let mut ok = true;
        while j < m
            invariant
                n == s.len(),
                m == p.len(),
                m <= n,
                i <= n - m,
                i + m <= n,
                forall|k: int| 0 <= k < i ==> #[trigger] s@.subrange(k, k + m) != p@,
                j <= m,
                ok ==> forall|q: int| 0 <= q < j ==> s@[i + q] == p@[q],
                !ok ==> s@.subrange(i as int, i + m) != p@,
            decreases m - j,
        {
            if s[i + j] != p[j] {
                assert(s@.subrange(i as int, i + m)[j as int] != p@[j as int]);
                ok = false;
            }
            j = j + 1;
        }
        if ok {
            assert(s@.subrange(i as int, i + m) =~= p@);
            return true;
        }
        i = i + 1;
    }
    false
}

/// Pieces of `s` between occurrences of `c` (what `str::split(c)` yields).
pub open spec fn split_char(s: Seq<char>, c: char) -> Seq<Seq<char>>
    decreases s.len(),
{
    match find_char(s, c) {
        Some(i) => {
            if 0 <= i < s.len() {
                seq![s.take(i)] + split_char(s.skip(i + 1), c)
            } else {
                seq![s]
            }
        },
        None => seq![s],
    }
}

/// Ranges of the pieces of `s[lo..hi]` between occurrences of `c`.
pub fn split_char_range(s: &Vec<char>, lo: usize, hi: usize, c: char) -> (r: Vec<(usize, usize)>)
    requires
        lo <= hi <= s.len(),
    ensures
        r.len() == split_char(s@.subrange(lo as int, hi as int), c).len(),
        forall|k: int|
            0 <= k < r.len() ==> lo <= (#[trigger] r[k]).0 <= r[k].1 <= hi && s@.subrange(
                r[k].0 as int,
                r[k].1 as int,
            ) == split_char(s@.subrange(lo as int, hi as int), c)[k],
{
    let mut out: Vec<(usize, usize)> = Vec::new();
    let mut start = lo;
    loop
        invariant
            lo <= start <= hi <= s.len(),
            split_char(s@.subrange(lo as int, hi as int), c) == out@.map_values(
                |p: (usize, usize)| s@.subrange(p.0 as int, p.1 as int),
            ) + split_char(s@.subrange(start as int, hi as int), c),
            forall|k: int| 0 <= k < out.len() ==> lo <= (#[trigger] out[k]).0 <= out[k].1 <= hi,
        decreases hi - start,
    {
        let ghost t = s@.subrange(start as int, hi as int);
        proof {
            lemma_find_char(t, c);
        }
        match find_char_range(s, start, hi, c) {
            Some(i) => {
                let ghost old_out = out@;
                out.push((start, start + i));
                proof {
                    assert(t.take(i as int) =~= s@.subrange(start as int, (start + i) as int));
                    assert(t.skip(i + 1) =~= s@.subrange((start + i + 1) as int, hi as int));
                    assert(out@.map_values(|p: (usize, usize)| s@.subrange(p.0 as int, p.1 as int))
                        =~= old_out.map_values(
                        |p: (usize, usize)| s@.subrange(p.0 as int, p.1 as int),
                    ).push(t.take(i as int)));
                    assert(split_char(t, c) == seq![t.take(i as int)] + split_char(
                        t.skip(i + 1),
                        c,
                    ));
                    assert(old_out.map_values(
                        |p: (usize, usize)| s@.subrange(p.0 as int, p.1 as int),
                    ) + split_char(t, c) =~= out@.map_values(
                        |p: (usize, usize)| s@.subrange(p.0 as int, p.1 as int),
                    ) + split_char(t.skip(i + 1), c));
                }
                start = start + i + 1;
            },
            None => {
                let ghost old_out = out@;
                out.push((start, hi));
                proof {
                    assert(split_char(t, c) == seq![t]);
                    assert(out@.map_values(|p: (usize, usize)| s@.subrange(p.0 as int, p.1 as int))
                        =~= old_out.map_values(
                        |p: (usize, usize)| s@.subrange(p.0 as int, p.1 as int),
                    ) + seq![t]);
                    let full = out@.map_values(
                        |p: (usize, usize)| s@.subrange(p.0 as int, p.1 as int),
                    );
                    assert forall|k: int| 0 <= k < out.len() implies s@.subrange(
                        out[k].0 as int,
                        out[k].1 as int,
                    ) == split_char(s@.subrange(lo as int, hi as int), c)[k] by {
                        assert(full[k] == s@.subrange(out[k].0 as int, out[k].1 as int));
                    }
                }
                return out;
            },
        }
    }
}

/// Value of a sequence of digits in the given radix (most significant first).
pub open spec fn digits_value(ds: Seq<int>, radix: int) -> int
    decreases ds.len(),
{
    if ds.len() == 0 {
        0
    } else {
        digits_value(ds.drop_last(), radix) * radix + ds.last()
    }
}

/// Value of a digit character in the given radix (10 or 16), or -1.
pub open spec fn digit_of(c: char, radix: int) -> int {
    if '0' <= c && c <= '9' {
        (c as int) - ('0' as int)
    } else if radix == 16 && 'a' <= c && c <= 'f' {
        (c as int) - ('a' as int) + 10
    } else if radix == 16 && 'A' <= c && c <= 'F' {
        (c as int) - ('A' as int) + 10
    } else {
        -1
    }
}

pub fn digit_of_exec(c: char, radix: u32) -> (r: i32)
    requires
        radix == 10 || radix == 16,
    ensures
        r == digit_of(c, radix as int),
{
    if '0' <= c && c <= '9' {
        (c as u32 - '0' as u32) as i32
    } else if radix == 16 && 'a' <= c && c <= 'f' {
        (c as u32 - 'a' as u32 + 10) as i32
    } else if radix == 16 && 'A' <= c && c <= 'F' {
        (c as u32 - 'A' as u32 + 10) as i32
    } else {
        -1
    }
}

pub open spec fn all_digits(s: Seq<char>, radix: int) -> bool {
    forall|i: int| 0 <= i < s.len() ==> digit_of(#[trigger] s[i], radix) >= 0
}

pub open spec fn digit_seq(s: Seq<char>, radix: int) -> Seq<int> {
    s.map_values(|c: char| digit_of(c, radix))
}

pub open spec fn fits_i64(v: int) -> bool {
    i64::MIN <= v <= i64::MAX
}

/// What `i64::from_str_radix(s, radix)` (and, for radix 10, `str::parse::<i64>`)
/// returns: an optional `+` or `-`, then one or more digits, in range.
pub open spec fn parse_int(s: Seq<char>, radix: int) -> Option<int> {
    let neg = s.len() > 0 && s[0] == '-';
    let signed = s.len() > 0 && (s[0] == '-' || s[0] == '+');
    let ds = if signed {
        s.drop_first()
    } else {
        s
    };
    if ds.len() == 0 || !all_digits(ds, radix) {
        None
    } else {
        let mag = digits_value(digit_seq(ds, radix), radix);
        let v = if neg {
            -mag
        } else {
            mag
        };
        if fits_i64(v) {
            Some(v)
        } else {
            None
        }
    }
}

pub proof fn lemma_digits_value_nonneg(ds: Seq<int>, radix: int)
    requires
        radix >= 1,
        forall|i: int| 0 <= i < ds.len() ==> ds[i] >= 0,
    ensures
        digits_value(ds, radix) >= 0,
    decreases ds.len(),
{
    if ds.len() > 0 {
        lemma_digits_value_nonneg(ds.drop_last(), radix);
        assert(digits_value(ds.drop_last(), radix) * radix >= 0) by (nonlinear_arith)
            requires
                digits_value(ds.drop_last(), radix) >= 0,
                radix >= 1,
        ;
    }
}

/// A prefix of a digit sequence never has a larger value.
pub proof fn lemma_digits_value_prefix(ds: Seq<int>, radix: int, k: int)
    requires
        radix >= 1,
        0 <= k <= ds.len(),
        forall|i: int| 0 <= i < ds.len() ==> ds[i] >= 0,
    ensures
        digits_value(ds.take(k), radix) <= digits_value(ds, radix),
    decreases ds.len(),
{
    if k < ds.len() {
        let t = ds.drop_last();
        assert(t.take(k) =~= ds.take(k));
        lemma_digits_value_prefix(t, radix, k);
        lemma_digits_value_nonneg(t, radix);
        let v = digits_value(t, radix);
        assert(v * radix >= v) by (nonlinear_arith)
            requires
                v >= 0,
                radix >= 1,
        ;
    } else {
        assert(ds.take(k) =~= ds);
    }
}

/// Parses `s[lo..hi]` as an `i64` in radix 10 or 16, as `i64::from_str_radix` does.
pub fn parse_int_range(s: &Vec<char>, lo: usize, hi: usize, radix: u32) -> (r: Option<i64>)
    requires
        lo <= hi <= s.len(),
        radix == 10 || radix == 16,
    ensures
        r matches Some(v) ==> parse_int(s@.subrange(lo as int, hi as int), radix as int) == Some(
            v as int,
        ),
        r is None ==> parse_int(s@.subrange(lo as int, hi as int), radix as int) is None,
{
    let ghost t = s@.subrange(lo as int, hi as int);
    let mut i = lo;
    let mut neg = false;
    if i < hi && (s[i] == '-' || s[i] == '+') {
        neg = s[i] == '-';
        i = i + 1;
    }
    let ghost ds = if t.len() > 0 && (t[0] == '-' || t[0] == '+') {
        t.drop_first()
    } else {
        t
    };
    assert(ds =~= s@.subrange(i as int, hi as int));
    if i == hi {
        return None;
    }
    let start = i;
    let limit: u128 = 0x8000_0000_0000_0000u128;
    let mut acc: u128 = 0;
    while i < hi
        invariant
            lo <= start <= i <= hi <= s.len(),
            radix == 10 || radix == 16,
            ds == s@.subrange(start as int, hi as int),
            t == s@.subrange(lo as int, hi as int),
            ds == (if t.len() > 0 && (t[0] == '-' || t[0] == '+') {
                t.drop_first()
            } else {
                t
            }),
            neg == (t.len() > 0 && t[0] == '-'),
            all_digits(ds.take(i - start), radix as int),
            acc == digits_value(digit_seq(ds, radix as int).take(i - start), radix as int),
            acc <= limit,
            limit == 0x8000_0000_0000_0000u128,
        decreases hi - i,
    {
        let d = digit_of_exec(s[i], radix);
        if d < 0 {
            assert(ds[i - start] == s@[i as int]);
            assert(digit_of(ds[i - start], radix as int) < 0);
            return None;
        }
        let ghost dsq = digit_seq(ds, radix as int);
        assert(dsq.take(i - start + 1).drop_last() =~= dsq.take(i - start));
        assert(acc * (radix as u128) <= limit * 16) by (nonlinear_arith)
            requires
                acc <= limit,
                radix <= 16,
        ;
        assert(ds[i - start] == s@[i as int]);
        assert(0 <= d < 16);
        let prod: u128 = acc * (radix as u128);
        assert(prod + (d as u128) <= limit * 16 + 16);
        acc = prod + (d as u128);
        i = i + 1;
        assert(ds.take(i - start) =~= ds.take(i - start - 1).push(ds[i - start - 1]));
        assert(all_digits(ds.take(i - start), radix as int));
        if acc > limit {
            proof {
                let dsq2 = digit_seq(ds, radix as int);
                if all_digits(ds, radix as int) {
                    assert forall|q: int| 0 <= q < dsq2.len() implies dsq2[q] >= 0 by {
                        assert(dsq2[q] == digit_of(ds[q], radix as int));
                    }
                    lemma_digits_value_prefix(dsq2, radix as int, i - start);
                }
            }
            return None;
        }
    }
    assert(ds.take(i - start) =~= ds);
    assert(digit_seq(ds, radix as int).take(i - start) =~= digit_seq(ds, radix as int));
    if neg {
        let v: i128 = 0i128 - (acc as i128);
        Some(v as i64)
    } else {
        if acc > 0x7fff_ffff_ffff_ffffu128 {
            None
        } else {
            Some(acc as i64)
        }
    }
}

/// ASCII decimal rendering of a natural number.
pub open spec fn nat_text(n: nat) -> Seq<char>
    decreases n,
{
    if n < 10 {
        seq![(('0' as int) + n) as char]
    } else {
        nat_text(n / 10).push((('0' as int) + (n % 10)) as char)
    }
}

/// What `Display` renders for an integer: an optional `-`, then the decimal digits.
pub open spec fn int_text(v: int) -> Seq<char> {
    if v < 0 {
        seq!['-'] + nat_text((-v) as nat)
    } else {
        nat_text(v as nat)
    }
}

fn digit_char(d: u128) -> (c: char)
    requires
        d < 10,
    ensures
        c == (('0' as int) + d) as char,
{
    if d == 0 {
        '0'
    } else if d == 1 {
        '1'
    } else if d == 2 {
        '2'
    } else if d == 3 {
        '3'
    } else if d == 4 {
        '4'
    } else if d == 5 {
        '5'
    } else if d == 6 {
        '6'
    } else if d == 7 {
        '7'
    } else if d == 8 {
        '8'
    } else {
        '9'
    }
}

fn push_nat_text(out: &mut Vec<char>, n: u128)
    ensures
        final(out)@ == old(out)@ + nat_text(n as nat),
    decreases n,
{
    if n < 10 {
        out.push(digit_char(n));
        assert(nat_text(n as nat) =~= seq![(('0' as int) + n) as char]);
    } else {
        push_nat_text(out, n / 10);
        out.push(digit_char(n % 10));
    }
}

/// Appends the decimal text of `v` to `out`.
pub fn push_int_text(out: &mut Vec<char>, v: i128)
    requires
        v > i128::MIN,
    ensures
        final(out)@ == old(out)@ + int_text(v as int),
{
    if v < 0 {
        out.push('-');
        push_nat_text(out, (0 - v) as u128);
        assert(final(out)@ =~= old(out)@ + int_text(v as int));
    } else {
        push_nat_text(out, v as u128);
    }
}

/// Appends the characters of `s` to `out`.
pub fn push_str(out: &mut Vec<char>, s: &str)
    ensures
        final(out)@ == old(out)@ + s@,
{
    let v = chars_of(s);
    push_chars(out, &v);
}

/// Appends the characters of `v` to `out`.
pub fn push_chars(out: &mut Vec<char>, v: &Vec<char>)
    ensures
        final(out)@ == old(out)@ + v@,
{
    let ghost o = out@;
    let mut i: usize = 0;
    while i < v.len()
        invariant
            i <= v.len(),
            out@ == o + v@.take(i as int),
        decreases v.len() - i,
    {
        out.push(v[i]);
        i = i + 1;
        assert(out@ =~= o + v@.take(i as int));
    }
    assert(v@.take(i as int) =~= v@);
}

/// Number of leading copies of `c` in `s`.
pub open spec fn lead_char(s: Seq<char>, c: char) -> nat
    decreases s.len(),
{
    if s.len() > 0 && s[0] == c {
        1 + lead_char(s.drop_first(), c)
    } else {
        0
    }
}

/// Number of trailing copies of `c` in `s`.
pub open spec fn trail_char(s: Seq<char>, c: char) -> nat
    decreases s.len(),
{
    if s.len() > 0 && s.last() == c {
        1 + trail_char(s.drop_last(), c)
    } else {
        0
    }
}

/// What `str::trim_start_matches(c)` returns.
pub open spec fn trim_start_char(s: Seq<char>, c: char) -> Seq<char> {
    s.skip(lead_char(s, c) as int)
}

/// What `str::trim_matches(c)` returns.
pub open spec fn trim_char(s: Seq<char>, c: char) -> Seq<char> {
    let t = trim_start_char(s, c);
    t.take(t.len() - trail_char(t, c))
}

pub proof fn lemma_lead_char_at(s: Seq<char>, c: char, k: int)
    requires
        0 <= k <= s.len(),
        forall|i: int| 0 <= i < k ==> #[trigger] s[i] == c,
        k < s.len() ==> s[k] != c,
    ensures
        lead_char(s, c) == k,
    decreases s.len(),
{
    if k > 0 {
        assert(s[0] == c);
        assert forall|i: int| 0 <= i < k - 1 implies #[trigger] s.drop_first()[i] == c by {
            assert(s.drop_first()[i] == s[i + 1]);
        }
        if k - 1 < s.drop_first().len() {
            assert(s.drop_first()[k - 1] == s[k]);
        }
        lemma_lead_char_at(s.drop_first(), c, k - 1);
    }
}

pub proof fn lemma_trail_char_at(s: Seq<char>, c: char, k: int)
    requires
        0 <= k <= s.len(),
        forall|i: int| s.len() - k <= i < s.len() ==> #[trigger] s[i] == c,
        k < s.len() ==> s[s.len() - k - 1] != c,
    ensures
        trail_char(s, c) == k,
    decreases s.len(),
{
    if k > 0 {
        assert(s[s.len() - 1] == c);
        let t = s.drop_last();
        assert forall|i: int| t.len() - (k - 1) <= i < t.len() implies #[trigger] t[i] == c by {
            assert(t[i] == s[i]);
        }
        if k - 1 < t.len() {
            assert(t[t.len() - (k - 1) - 1] == s[s.len() - k - 1]);
        }
        lemma_trail_char_at(t, c, k - 1);
    }
}

/// Bounds of `trim_start_char(s[lo..hi], c)` inside `s`.
pub fn trim_start_char_range(s: &Vec<char>, lo: usize, hi: usize, c: char) -> (r: usize)
    requires
        lo <= hi <= s.len(),
    ensures
        lo <= r <= hi,
        s@.subrange(r as int, hi as int) == trim_start_char(s@.subrange(lo as int, hi as int), c),
{
    let ghost t = s@.subrange(lo as int, hi as int);
    let mut a = lo;
    while a < hi && s[a] == c
        invariant
            lo <= a <= hi <= s.len(),
            t == s@.subrange(lo as int, hi as int),
            forall|i: int| 0 <= i < a - lo ==> #[trigger] t[i] == c,
        decreases hi - a,
    {
        a = a + 1;
    }
    proof {
        lemma_lead_char_at(t, c, a - lo);
    }
    assert(s@.subrange(a as int, hi as int) =~= trim_start_char(t, c));
    a
}

/// Bounds of `trim_char(s[lo..hi], c)` inside `s`.
pub fn trim_char_range(s: &Vec<char>, lo: usize, hi: usize, c: char) -> (r: (usize, usize))
    requires
        lo <= hi <= s.len(),
    ensures
        lo <= r.0 <= r.1 <= hi,
        s@.subrange(r.0 as int, r.1 as int) == trim_char(s@.subrange(lo as int, hi as int), c),
{
    let a = trim_start_char_range(s, lo, hi, c);
    let ghost u = s@.subrange(a as int, hi as int);
    let mut b = hi;
    while b > a && s[b - 1] == c
        invariant
            lo <= a <= b <= hi <= s.len(),
            u == s@.subrange(a as int, hi as int),
            forall|i: int| b - a <= i < u.len() ==> #[trigger] u[i] == c,
        decreases b - a,
    {
        b = b - 1;
    }
    proof {
        lemma_trail_char_at(u, c, hi - b);
    }
    assert(s@.subrange(a as int, b as int) =~= u.take(u.len() - trail_char(u, c)));
    (a, b)
}

/// A token separator: whitespace, and with `commas` also `,`.
pub open spec fn is_sep(c: char, commas: bool) -> bool {
    is_ws(c) || (commas && c == ',')
}

/// Tokens of `s` after the partial token `cur`, split at separators
/// (empty pieces dropped).
pub open spec fn tokens_from(s: Seq<char>, commas: bool, cur: Seq<char>) -> Seq<Seq<char>>
    decreases s.len(),
{
    if s.len() == 0 {
        if cur.len() > 0 {
            seq![cur]
        } else {
            Seq::empty()
        }
    } else if is_sep(s[0], commas) {
        (if cur.len() > 0 {
            seq![cur]
        } else {
            Seq::empty()
        }) + tokens_from(s.drop_first(), commas, Seq::empty())
    } else {
        tokens_from(s.drop_first(), commas, cur.push(s[0]))
    }
}

/// The non-empty pieces of `s` between separators (what
/// `split_whitespace` gives, or a split at whitespace and commas).
pub open spec fn tokens(s: Seq<char>, commas: bool) -> Seq<Seq<char>> {
    tokens_from(s, commas, Seq::empty())
}

/// Ranges of the tokens of `s[lo..hi]`.
pub fn tokens_range(s: &Vec<char>, lo: usize, hi: usize, commas: bool) -> (r: Vec<(usize, usize)>)
    requires
        lo <= hi <= s.len(),
    ensures
        r@.len() == tokens(s@.subrange(lo as int, hi as int), commas).len(),
        forall|k: int| 0 <= k < r@.len() ==> lo <= (#[trigger] r@[k]).0 < r@[k].1 <= hi
            && s@.subrange(r@[k].0 as int, r@[k].1 as int) == tokens(s@.subrange(lo as int, hi as int), commas)[k],
{
    let ghost full = s@.subrange(lo as int, hi as int);
    let mut out: Vec<(usize, usize)> = Vec::new();
    let mut start = lo;
    let mut i = lo;
    assert(s@.subrange(lo as int, lo as int) =~= Seq::<char>::empty());
    assert(out@.map_values(|p: (usize, usize)| s@.subrange(p.0 as int, p.1 as int)) =~= Seq::<Seq<char>>::empty());
    assert(tokens(full, commas) =~= Seq::<Seq<char>>::empty() + tokens_from(full, commas, Seq::empty()));
    while i < hi
        invariant
            lo <= start <= i <= hi <= s.len(),
            full == s@.subrange(lo as int, hi as int),
            tokens(full, commas) == out@.map_values(|p: (usize, usize)| s@.subrange(p.0 as int, p.1 as int))
                + tokens_from(s@.subrange(i as int, hi as int), commas, s@.subrange(start as int, i as int)),
            forall|k: int| 0 <= k < out@.len() ==> lo <= (#[trigger] out@[k]).0 < out@[k].1 <= hi,
        decreases hi - i,
    {
        let ghost rest = s@.subrange(i as int, hi as int);
        let ghost cur = s@.subrange(start as int, i as int);
        assert(rest.drop_first() =~= s@.subrange(i + 1, hi as int));
        assert(rest[0] == s@[i as int]);
        let c = s[i];
        if is_ws_exec(c) || (commas && c == ',') {
            let ghost before = out@;
            if start < i {
                out.push((start, i));
                assert(out@.map_values(|p: (usize, usize)| s@.subrange(p.0 as int, p.1 as int)) =~= before.map_values(
                    |p: (usize, usize)| s@.subrange(p.0 as int, p.1 as int),
                ).push(cur));
            }
            i = i + 1;
            start = i;
            assert(s@.subrange(start as int, i as int) =~= Seq::<char>::empty());
        } else {
            assert(cur.push(c) =~= s@.subrange(start as int, i + 1));
            i = i + 1;
        }
    }
    let ghost cur = s@.subrange(start as int, hi as int);
    if start < hi {
        let ghost before = out@;
        out.push((start, hi));
        assert(out@.map_values(|p: (usize, usize)| s@.subrange(p.0 as int, p.1 as int)) =~= before.map_values(
            |p: (usize, usize)| s@.subrange(p.0 as int, p.1 as int),
        ).push(cur));
    }
    let ghost mv = out@.map_values(|p: (usize, usize)| s@.subrange(p.0 as int, p.1 as int));
    assert(tokens(full, commas) =~= mv);
    assert forall|k: int| 0 <= k < out@.len() implies s@.subrange((#[trigger] out@[k]).0 as int, out@[k].1 as int) == tokens(full, commas)[k] by {
        assert(mv[k] == s@.subrange(out@[k].0 as int, out@[k].1 as int));
    }
    out
}

/// UTF-8 encoding of one character.
pub open spec fn utf8_char(c: char) -> Seq<u8> {
    let n = c as int;
    if n < 0x80 {
        seq![n as u8]
    } else if n < 0x800 {
        seq![(0xC0 + n / 64) as u8, (0x80 + n % 64) as u8]
    } else if n < 0x10000 {
        seq![(0xE0 + n / 4096) as u8, (0x80 + (n / 64) % 64) as u8, (0x80 + n % 64) as u8]
    } else {
        seq![
            (0xF0 + n / 262144) as u8,
            (0x80 + (n / 4096) % 64) as u8,
            (0x80 + (n / 64) % 64) as u8,
            (0x80 + n % 64) as u8,
        ]
    }
}

/// UTF-8 encoding of a character sequence (what `str::as_bytes` holds).
pub open spec fn utf8_encode(s: Seq<char>) -> Seq<u8>
    decreases s.len(),
{
    if s.len() == 0 {
        Seq::empty()
    } else {
        utf8_encode(s.drop_last()) + utf8_char(s.last())
    }
}

fn push_utf8_char(out: &mut Vec<u8>, c: char)
    ensures
        final(out)@ == old(out)@ + utf8_char(c),
{
    let n = c as u32;
    if n < 0x80 {
        out.push(n as u8);
    } else if n < 0x800 {
        out.push((0xC0 + n / 64) as u8);
        out.push((0x80 + n % 64) as u8);
    } else if n < 0x10000 {
        out.push((0xE0 + n / 4096) as u8);
        out.push((0x80 + (n / 64) % 64) as u8);
        out.push((0x80 + n % 64) as u8);
    } else {
        out.push((0xF0 + n / 262144) as u8);
        out.push((0x80 + (n / 4096) % 64) as u8);
        out.push((0x80 + (n / 64) % 64) as u8);
        out.push((0x80 + n % 64) as u8);
    }
    assert(final(out)@ =~= old(out)@ + utf8_char(c));
}

/// The UTF-8 bytes of `v`.
pub fn utf8_bytes(v: &Vec<char>) -> (r: Vec<u8>)
    ensures
        r@ == utf8_encode(v@),
{
    let mut out: Vec<u8> = Vec::new();
    let mut i: usize = 0;
    assert(v@.take(0) =~= Seq::<char>::empty());
    while i < v.len()
        invariant
            i <= v.len(),
            out@ == utf8_encode(v@.take(i as int)),
        decreases v.len() - i,
    {
        assert(v@.take(i + 1).drop_last() =~= v@.take(i as int));
        push_utf8_char(&mut out, v[i]);
        i = i + 1;
    }
    assert(v@.take(i as int) =~= v@);
    out
}


/// The characters `lead_ws` counts are whitespace, and the one after them is not.
pub proof fn lemma_lead_ws_props(s: Seq<char>)
    ensures
        lead_ws(s) <= s.len(),
        forall|i: int| 0 <= i < lead_ws(s) ==> is_ws(#[trigger] s[i]),
        lead_ws(s) < s.len() ==> !is_ws(s[lead_ws(s) as int]),
    decreases s.len(),
{
    if s.len() > 0 && is_ws(s[0]) {
        lemma_lead_ws_props(s.drop_first());
        assert forall|i: int| 0 <= i < lead_ws(s) implies is_ws(#[trigger] s[i]) by {
            if i > 0 {
                assert(s[i] == s.drop_first()[i - 1]);
            }
        }
        if lead_ws(s) < s.len() {
            assert(s[lead_ws(s) as int] == s.drop_first()[lead_ws(s.drop_first()) as int]);
        }
    }
}

/// The characters `trail_ws` counts are whitespace, and the one before them is not.
pub proof fn lemma_trail_ws_props(s: Seq<char>)
    ensures
        trail_ws(s) <= s.len(),
        forall|i: int| s.len() - trail_ws(s) <= i < s.len() ==> is_ws(#[trigger] s[i]),
        trail_ws(s) < s.len() ==> !is_ws(s[s.len() - trail_ws(s) - 1]),
    decreases s.len(),
{
    if s.len() > 0 && is_ws(s.last()) {
        let t = s.drop_last();
        lemma_trail_ws_props(t);
        assert forall|i: int| s.len() - trail_ws(s) <= i < s.len() implies is_ws(#[trigger] s[i]) by {
            if i < s.len() - 1 {
                assert(s[i] == t[i]);
            }
        }
        if trail_ws(s) < s.len() {
            assert(s[s.len() - trail_ws(s) - 1] == t[t.len() - trail_ws(t) - 1]);
        }
    }
}

/// Trimming twice trims no more than trimming once.
pub proof fn lemma_trim_idem(x: Seq<char>)
    ensures
        trim(trim(x)) == trim(x),
{
    let t = trim_start(x);
    let s = trim(x);
    lemma_lead_ws_props(x);
    lemma_trail_ws_props(t);
    if s.len() == 0 {
        assert(lead_ws(s) == 0);
        assert(trim(s) =~= s);
    } else {
        assert(s[0] == x[lead_ws(x) as int]);
        lemma_lead_ws_char(s, 0);
        assert(s[s.len() - 1] == t[t.len() - trail_ws(t) - 1]);
        lemma_trail_ws_char(s, 0);
        assert(trim_start(s) =~= s);
        assert(trim(s) =~= s);
    }
}

} // verus!
