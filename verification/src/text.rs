//! Character-level string operations with their mathematical models.
//!
//! Strings are handled as sequences of `char`; byte lengths follow UTF-8.

use vstd::prelude::*;
use vstd::std_specs::iter::IteratorSpec;

verus! {

/// Unicode `White_Space` property, as `char::is_whitespace` defines it.
pub open spec fn is_ws(c: char) -> bool {
    let u = c as u32;
    ||| (0x9 <= u && u <= 0xd)
    ||| u == 0x20
    ||| u == 0x85
    ||| u == 0xa0
    ||| u == 0x1680
    ||| (0x2000 <= u && u <= 0x200a)
    ||| u == 0x2028
    ||| u == 0x2029
    ||| u == 0x202f
    ||| u == 0x205f
    ||| u == 0x3000
}

pub fn char_is_ws(c: char) -> (b: bool)
    ensures
        b == is_ws(c),
{
    let u = c as u32;
    (0x9 <= u && u <= 0xd) || u == 0x20 || u == 0x85 || u == 0xa0 || u == 0x1680 || (0x2000
        <= u && u <= 0x200a) || u == 0x2028 || u == 0x2029 || u == 0x202f || u == 0x205f || u
        == 0x3000
}

/// Appends one character to a `String`.
///
/// Trusted: calls `String::push`, whose documentation says it appends the
/// given `char` to the end of the string.
#[verifier::external_body]
pub(crate) fn push_char(s: &mut String, c: char)
    ensures
        final(s)@ == old(s)@.push(c),
{
    s.push(c);
}

/// The characters of `s`, in order.
pub fn chars_of(s: &str) -> (v: Vec<char>)
    ensures
        v@ == s@,
{
    let mut v: Vec<char> = Vec::new();
    for c in it: s.chars()
        invariant
            it.seq() == s@,
            v@ == it.seq().take(it.index() as int),
    {
        v.push(c);
    }
    v
}

/// `s` without its leading whitespace (`str::trim_start`).
pub open spec fn trim_start(s: Seq<char>) -> Seq<char>
    decreases s.len(),
{
    if s.len() > 0 && is_ws(s[0]) {
        trim_start(s.drop_first())
    } else {
        s
    }
}

/// `s` without its trailing whitespace (`str::trim_end`).
pub open spec fn trim_end(s: Seq<char>) -> Seq<char>
    decreases s.len(),
{
    if s.len() > 0 && is_ws(s.last()) {
        trim_end(s.drop_last())
    } else {
        s
    }
}

/// `s` without leading and trailing whitespace (`str::trim`).
pub open spec fn trim(s: Seq<char>) -> Seq<char> {
    trim_end(trim_start(s))
}

/// A copy of `v[lo..hi]`.
pub fn copy_range(v: &Vec<char>, lo: usize, hi: usize) -> (r: Vec<char>)
    requires
        lo <= hi <= v.len(),
    ensures
        r@ == v@.subrange(lo as int, hi as int),
{
    let mut r: Vec<char> = Vec::new();
    let mut i = lo;
    while i < hi
        invariant
            lo <= i <= hi <= v.len(),
            r@ == v@.subrange(lo as int, i as int),
        decreases hi - i,
    {
        r.push(v[i]);
        i = i + 1;
        proof {
            assert(r@ =~= v@.subrange(lo as int, i as int));
        }
    }
    r
}

/// The first index at or after `lo` whose character is not whitespace,
/// or `hi` when there is none: `v[result..hi]` is `v[lo..hi]` trimmed at its start.
pub fn skip_ws(v: &Vec<char>, lo: usize, hi: usize) -> (r: usize)
    requires
        lo <= hi <= v.len(),
    ensures
        lo <= r <= hi,
        v@.subrange(r as int, hi as int) == trim_start(v@.subrange(lo as int, hi as int)),
{
    let mut i = lo;
    while i < hi && char_is_ws(v[i])
        invariant
            lo <= i <= hi <= v.len(),
            trim_start(v@.subrange(i as int, hi as int)) == trim_start(
                v@.subrange(lo as int, hi as int),
            ),
        decreases hi - i,
    {
        proof {
            assert(v@.subrange(i as int, hi as int).drop_first() =~= v@.subrange(
                i + 1,
                hi as int,
            ));
        }
        i = i + 1;
    }
    i
}

/// The end of `v[lo..hi]` once its trailing whitespace is removed.
pub fn trailing_ws_start(v: &Vec<char>, lo: usize, hi: usize) -> (r: usize)
    requires
        lo <= hi <= v.len(),
    ensures
        lo <= r <= hi,
        v@.subrange(lo as int, r as int) == trim_end(v@.subrange(lo as int, hi as int)),
{
    let mut j = hi;
    while j > lo && char_is_ws(v[j - 1])
        invariant
            lo <= j <= hi <= v.len(),
            trim_end(v@.subrange(lo as int, j as int)) == trim_end(
                v@.subrange(lo as int, hi as int),
            ),
        decreases j - lo,
    {
        proof {
            assert(v@.subrange(lo as int, j as int).drop_last() =~= v@.subrange(
                lo as int,
                j - 1,
            ));
        }
        j = j - 1;
    }
    j
}

/// The bounds of `v[lo..hi]` trimmed on both sides.
pub fn trim_bounds(v: &Vec<char>, lo: usize, hi: usize) -> (r: (usize, usize))
    requires
        lo <= hi <= v.len(),
    ensures
        lo <= r.0 <= r.1 <= hi,
        v@.subrange(r.0 as int, r.1 as int) == trim(v@.subrange(lo as int, hi as int)),
{
    let a = skip_ws(v, lo, hi);
    let b = trailing_ws_start(v, a, hi);
    (a, b)
}

/// `s` trimmed on both sides, as a new character vector.
pub fn trim_chars(v: &Vec<char>) -> (r: Vec<char>)
    ensures
        r@ == trim(v@),
{
    let (a, b) = trim_bounds(v, 0, v.len());
    proof {
        assert(v@.subrange(0, v@.len() as int) =~= v@);
    }
    copy_range(v, a, b)
}

/// A `String` holding the given characters.
pub fn string_of(v: &Vec<char>) -> (s: String)
    ensures
        s@ == v@,
{
    let mut s = String::new();
    let mut i: usize = 0;
    while i < v.len()
        invariant
            i <= v.len(),
            s@ == v@.take(i as int),
        decreases v.len() - i,
    {
        push_char(&mut s, v[i]);
        i = i + 1;
        proof {
            assert(s@ =~= v@.take(i as int));
        }
    }
    proof {
        assert(v@.take(v@.len() as int) =~= v@);
    }
    s
}

/// Appends the characters of `v` to `s`.
pub fn append_chars(s: &mut String, v: &Vec<char>)
    ensures
        final(s)@ == old(s)@ + v@,
{
    let mut i: usize = 0;
    while i < v.len()
        invariant
            i <= v.len(),
            s@ == old(s)@ + v@.take(i as int),
        decreases v.len() - i,
    {
        push_char(s, v[i]);
        i = i + 1;
        proof {
            assert(s@ =~= old(s)@ + v@.take(i as int));
        }
    }
    proof {
        assert(v@.take(v@.len() as int) =~= v@);
    }
}

/// Appends `t` to `s` (`String::push_str`).
pub fn append_str(s: &mut String, t: &str)
    ensures
        final(s)@ == old(s)@ + t@,
{
    let v = chars_of(t);
    append_chars(s, &v);
}

/// The characters of a `str`, as an owned `String`.
pub fn owned(t: &str) -> (r: String)
    ensures
        r@ == t@,
{
    let mut r = String::new();
    append_str(&mut r, t);
    r
}

/// Whether two strings hold the same characters.
pub fn str_eq(a: &str, b: &str) -> (r: bool)
    ensures
        r == (a@ == b@),
{
    let x = owned(a);
    let y = owned(b);
    x == y
}

/// ASCII lower case of one character (`char::to_ascii_lowercase`).
pub open spec fn ascii_lower(c: char) -> char {
    if 'A' <= c && c <= 'Z' {
        ((c as u32) + 32) as char
    } else {
        c
    }
}

pub fn lower_char(c: char) -> (r: char)
    ensures
        r == ascii_lower(c),
{
    if 'A' <= c && c <= 'Z' {
        ((c as u8) + 32) as char
    } else {
        c
    }
}

/// `str::to_ascii_lowercase`.
pub open spec fn lower(s: Seq<char>) -> Seq<char> {
    s.map_values(|c: char| ascii_lower(c))
}

/// `str::eq_ignore_ascii_case`.
pub open spec fn eq_ignore_case(a: Seq<char>, b: Seq<char>) -> bool {
    lower(a) == lower(b)
}

/// The characters of `v` in ASCII lower case.
pub fn lower_chars(v: &Vec<char>) -> (r: Vec<char>)
    ensures
        r@ == lower(v@),
{
    let mut r: Vec<char> = Vec::new();
    let mut i: usize = 0;
    while i < v.len()
        invariant
            i <= v.len(),
            r@ == lower(v@.take(i as int)),
        decreases v.len() - i,
    {
        r.push(lower_char(v[i]));
        i = i + 1;
        proof {
            assert(r@ =~= lower(v@.take(i as int)));
        }
    }
    proof {
        assert(v@.take(v@.len() as int) =~= v@);
    }
    r
}

/// `str::to_ascii_lowercase`.
pub fn to_lower(s: &str) -> (r: String)
    ensures
        r@ == lower(s@),
{
    let v = chars_of(s);
    let l = lower_chars(&v);
    string_of(&l)
}

/// `str::eq_ignore_ascii_case`.
pub fn eq_ignore_ascii_case(a: &str, b: &str) -> (r: bool)
    ensures
        r == eq_ignore_case(a@, b@),
{
    let x = to_lower(a);
    let y = to_lower(b);
    x == y
}

/// `s` without the leading characters equal to `c` (`str::trim_start_matches`).
pub open spec fn strip_leading(s: Seq<char>, c: char) -> Seq<char>
    decreases s.len(),
{
    if s.len() > 0 && s[0] == c {
        strip_leading(s.drop_first(), c)
    } else {
        s
    }
}

/// `s` without the trailing characters equal to `c` (`str::trim_end_matches`).
pub open spec fn strip_trailing(s: Seq<char>, c: char) -> Seq<char>
    decreases s.len(),
{
    if s.len() > 0 && s.last() == c {
        strip_trailing(s.drop_last(), c)
    } else {
        s
    }
}

/// `s` without the leading and trailing characters equal to `c` (`str::trim_matches`).
pub open spec fn strip_both(s: Seq<char>, c: char) -> Seq<char> {
    strip_trailing(strip_leading(s, c), c)
}

/// `str::trim_start_matches` with a `char` pattern.
pub fn trim_start_matches(s: &str, c: char) -> (r: String)
    ensures
        r@ == strip_leading(s@, c),
{
    let v = chars_of(s);
    let mut i: usize = 0;
    while i < v.len() && v[i] == c
        invariant
            i <= v.len(),
            strip_leading(v@.subrange(i as int, v@.len() as int), c) == strip_leading(
                v@.subrange(0, v@.len() as int),
                c,
            ),
        decreases v.len() - i,
    {
        proof {
            assert(v@.subrange(i as int, v@.len() as int).drop_first() =~= v@.subrange(
                i + 1,
                v@.len() as int,
            ));
        }
        i = i + 1;
    }
    proof {
        assert(v@.subrange(0, v@.len() as int) =~= v@);
    }
    let r = copy_range(&v, i, v.len());
    string_of(&r)
}

/// `str::trim_matches` with a `char` pattern.
pub fn trim_matches(s: &str, c: char) -> (r: String)
    ensures
        r@ == strip_both(s@, c),
{
    let v = chars_of(s);
    let mut i: usize = 0;
    while i < v.len() && v[i] == c
        invariant
            i <= v.len(),
            strip_leading(v@.subrange(i as int, v@.len() as int), c) == strip_leading(
                v@.subrange(0, v@.len() as int),
                c,
            ),
        decreases v.len() - i,
    {
        proof {
            assert(v@.subrange(i as int, v@.len() as int).drop_first() =~= v@.subrange(
                i + 1,
                v@.len() as int,
            ));
        }
        i = i + 1;
    }
    let mut j: usize = v.len();
    proof {
        assert(v@.subrange(0, v@.len() as int) =~= v@);
        assert(strip_leading(v@.subrange(i as int, j as int), c) == v@.subrange(i as int, j as int));
    }
    while j > i && v[j - 1] == c
        invariant
            i <= j <= v.len(),
            strip_trailing(v@.subrange(i as int, j as int), c) == strip_trailing(
                v@.subrange(i as int, v@.len() as int),
                c,
            ),
        decreases j - i,
    {
        proof {
            assert(v@.subrange(i as int, j as int).drop_last() =~= v@.subrange(i as int, j - 1));
        }
        j = j - 1;
    }
    let r = copy_range(&v, i, j);
    string_of(&r)
}

/// Whether `p` occurs in `s` at index `i`.
pub open spec fn occurs_at(s: Seq<char>, p: Seq<char>, i: int) -> bool {
    0 <= i && i + p.len() <= s.len() && s.subrange(i, i + p.len()) == p
}

/// The first index at or after `i` where `p` occurs in `s` (`str::find`).
pub open spec fn find_from(s: Seq<char>, p: Seq<char>, i: int) -> Option<int>
    decreases s.len() + 1 - i,
{
    if i < 0 || i + p.len() > s.len() {
        None
    } else if occurs_at(s, p, i) {
        Some(i)
    } else {
        find_from(s, p, i + 1)
    }
}

/// Whether `p` occurs in `s` (`str::contains`).
pub open spec fn contains(s: Seq<char>, p: Seq<char>) -> bool {
    find_from(s, p, 0) is Some
}

/// Whether `s` starts with `p` (`str::starts_with`).
pub open spec fn starts_with(s: Seq<char>, p: Seq<char>) -> bool {
    p.len() <= s.len() && s.take(p.len() as int) == p
}

/// Whether `s` ends with `p` (`str::ends_with`).
pub open spec fn ends_with(s: Seq<char>, p: Seq<char>) -> bool {
    p.len() <= s.len() && s.skip(s.len() - p.len()) == p
}

/// Whether `p` occurs in `v` at index `i`.
pub fn occurs_at_exec(v: &Vec<char>, p: &Vec<char>, i: usize) -> (r: bool)
    ensures
        r == occurs_at(v@, p@, i as int),
{
    if i > v.len() || p.len() > v.len() - i {
        return false;
    }
    let mut k: usize = 0;
    while k < p.len()
        invariant
            k <= p.len(),
            i + p.len() <= v.len(),
            forall|t: int| 0 <= t < k ==> v@[i + t] == p@[t],
        decreases p.len() - k,
    {
        if v[i + k] != p[k] {
            proof {
                assert(v@.subrange(i as int, i + p.len())[k as int] != p@[k as int]);
            }
            return false;
        }
        k = k + 1;
    }
    proof {
        assert(v@.subrange(i as int, i + p.len()) =~= p@);
    }
    true
}

/// The first index at or after `from` where `p` occurs in `v`.
pub fn find_chars(v: &Vec<char>, p: &Vec<char>, from: usize) -> (r: Option<usize>)
    ensures
        match r {
            Some(i) => find_from(v@, p@, from as int) == Some(i as int),
            None => find_from(v@, p@, from as int) is None,
        },
{
    if p.len() == 0 {
        if from <= v.len() {
            proof {
                assert(v@.subrange(from as int, from as int) =~= p@);
            }
            return Some(from);
        } else {
            return None;
        }
    }
    let mut i = from;
    while i < v.len() && p.len() <= v.len() - i
        invariant
            find_from(v@, p@, from as int) == find_from(v@, p@, i as int),
            from <= i,
            p@.len() > 0,
        decreases v.len() + 1 - i,
    {
        if occurs_at_exec(v, p, i) {
            return Some(i);
        }
        i = i + 1;
    }
    None
}

/// `str::contains` with a string pattern.
pub fn str_contains(s: &str, p: &str) -> (r: bool)
    ensures
        r == contains(s@, p@),
{
    let v = chars_of(s);
    let q = chars_of(p);
    find_chars(&v, &q, 0).is_some()
}

/// `str::starts_with` with a string pattern.
pub fn str_starts_with(s: &str, p: &str) -> (r: bool)
    ensures
        r == starts_with(s@, p@),
{
    let v = chars_of(s);
    let q = chars_of(p);
    let r = occurs_at_exec(&v, &q, 0);
    proof {
        if q@.len() <= v@.len() {
            assert(v@.subrange(0, q@.len() as int) =~= v@.take(q@.len() as int));
        }
    }
    r
}

/// `s` with every non-overlapping occurrence of `from` replaced by `to`,
/// scanning left to right (`str::replace`, for a non-empty `from`).
pub open spec fn replace_all(s: Seq<char>, from: Seq<char>, to: Seq<char>) -> Seq<char>
    decreases s.len(),
{
    if from.len() == 0 {
        s
    } else {
        match find_from(s, from, 0) {
            Some(i) => {
                proof {
                    lemma_find_from_bounds(s, from, 0);
                }
                s.take(i) + to + replace_all(s.skip(i + from.len()), from, to)
            },
            None => s,
        }
    }
}

pub proof fn lemma_find_from_bounds(s: Seq<char>, p: Seq<char>, i: int)
    ensures
        find_from(s, p, i) matches Some(k) ==> i <= k && occurs_at(s, p, k) && forall|t: int|
            i <= t < k ==> !occurs_at(s, p, t),
    decreases s.len() + 1 - i,
{
    if !(i < 0 || i + p.len() > s.len()) && !occurs_at(s, p, i) {
        lemma_find_from_bounds(s, p, i + 1);
    }
}

/// `find_from` on a suffix finds the occurrences of the whole text, shifted.
pub proof fn lemma_find_from_shift(s: Seq<char>, p: Seq<char>, start: int, i: int)
    requires
        0 <= start <= s.len(),
        0 <= i,
    ensures
        find_from(s.skip(start), p, i) == match find_from(s, p, start + i) {
            Some(k) => Some(k - start),
            None => None,
        },
    decreases s.len() + 1 - start - i,
{
    let t = s.skip(start);
    if !(i + p.len() > t.len()) {
        assert(occurs_at(t, p, i) == occurs_at(s, p, start + i)) by {
            if i + p.len() <= t.len() {
                assert(t.subrange(i, i + p.len()) =~= s.subrange(start + i, start + i + p.len()));
            }
        }
        lemma_find_from_shift(s, p, start, i + 1);
    }
}

/// `str::replace` for a non-empty pattern.
pub fn replace_str(s: &str, from: &str, to: &str) -> (r: String)
    requires
        from@.len() > 0,
    ensures
        r@ == replace_all(s@, from@, to@),
{
    let v = chars_of(s);
    let f = chars_of(from);
    let t = chars_of(to);
    let mut out = String::new();
    let mut pos: usize = 0;
    proof {
        assert(v@.skip(0) =~= v@);
    }
    while pos <= v.len()
        invariant
            pos <= v.len(),
            f@.len() > 0,
            v@ == s@,
            f@ == from@,
            t@ == to@,
            replace_all(v@, f@, t@) == out@ + replace_all(v@.skip(pos as int), f@, t@),
        decreases v.len() - pos,
    {
        proof {
            lemma_find_from_shift(v@, f@, pos as int, 0);
            lemma_find_from_bounds(v@, f@, pos as int);
        }
        match find_chars(&v, &f, pos) {
            Some(i) => {
                let piece = copy_range(&v, pos, i);
                append_chars(&mut out, &piece);
                append_chars(&mut out, &t);
                let next = i + f.len();
                proof {
                    let rest = v@.skip(pos as int);
                    assert(rest.take(i - pos) =~= piece@);
                    assert(rest.skip(i - pos + f@.len()) =~= v@.skip(next as int));
                    assert(replace_all(rest, f@, t@) == rest.take(i - pos) + t@ + replace_all(
                        rest.skip(i - pos + f@.len()),
                        f@,
                        t@,
                    ));
                }
                pos = next;
            },
            None => {
                let piece = copy_range(&v, pos, v.len());
                let ghost before = out@;
                append_chars(&mut out, &piece);
                proof {
                    assert(piece@ =~= v@.skip(pos as int));
                    let rest = v@.skip(pos as int);
                    assert(find_from(rest, f@, 0) is None);
                    assert(replace_all(rest, f@, t@) == rest);
                    assert(out@ == before + piece@);
                    assert(replace_all(v@, f@, t@) == before + rest);
                }
                return out;
            },
        }
    }
    out
}

/// No occurrence at or after `i` when `find_from` finds none.
pub proof fn lemma_find_from_none(s: Seq<char>, p: Seq<char>, i: int, t: int)
    requires
        0 <= i <= t,
        find_from(s, p, i) is None,
    ensures
        !occurs_at(s, p, t),
    decreases t - i,
{
    if i < t && !(i < 0 || i + p.len() > s.len()) {
        lemma_find_from_none(s, p, i + 1, t);
    }
}

/// `find_from` from `i` gives `k` when `p` occurs at `k` and nowhere in
/// between.
pub proof fn lemma_find_from_first(s: Seq<char>, p: Seq<char>, i: int, k: int)
    requires
        0 <= i <= k,
        occurs_at(s, p, k),
        forall|t: int| i <= t < k ==> !occurs_at(s, p, t),
    ensures
        find_from(s, p, i) == Some(k),
    decreases k - i,
{
    if i < k {
        assert(!occurs_at(s, p, i));
        lemma_find_from_first(s, p, i + 1, k);
    }
}

/// `find_from` finds none when `p` occurs nowhere at or after `i`.
pub proof fn lemma_find_from_absent(s: Seq<char>, p: Seq<char>, i: int)
    requires
        0 <= i,
        forall|t: int| i <= t ==> !occurs_at(s, p, t),
    ensures
        find_from(s, p, i) is None,
    decreases s.len() + 1 - i,
{
    if !(i + p.len() > s.len()) {
        assert(!occurs_at(s, p, i));
        lemma_find_from_absent(s, p, i + 1);
    }
}

/// Whatever `p` occurs in, it is found there or earlier.
pub proof fn lemma_occurs_found(s: Seq<char>, p: Seq<char>, k: int)
    requires
        occurs_at(s, p, k),
    ensures
        contains(s, p),
        find_from(s, p, 0) matches Some(j) && j <= k,
{
    if find_from(s, p, 0) is None {
        lemma_find_from_none(s, p, 0, k);
    }
    lemma_find_from_bounds(s, p, 0);
    if let Some(j) = find_from(s, p, 0) {
        if j > k {
            assert(!occurs_at(s, p, k));
        }
    }
}

/// Appending text keeps the first occurrence of a pattern that occurs.
pub proof fn lemma_find_concat_prefix(a: Seq<char>, b: Seq<char>, p: Seq<char>)
    requires
        find_from(a, p, 0) is Some,
    ensures
        find_from(a + b, p, 0) == find_from(a, p, 0),
{
    lemma_find_from_bounds(a, p, 0);
    let k = find_from(a, p, 0)->0;
    assert((a + b).subrange(k, k + p.len()) =~= a.subrange(k, k + p.len()));
    assert(occurs_at(a, p, k));
    assert forall|t: int| 0 <= t < k implies !occurs_at(a + b, p, t) by {
        assert(!occurs_at(a, p, t));
        if t + p.len() <= (a + b).len() {
            assert((a + b).subrange(t, t + p.len()) =~= a.subrange(t, t + p.len()));
        }
    }
    lemma_find_from_first(a + b, p, 0, k);
}

/// Appending text after which no occurrence can start in `a` or straddle
/// the join: the occurrences are those of `b`, shifted.
pub proof fn lemma_find_concat_after(a: Seq<char>, b: Seq<char>, p: Seq<char>)
    requires
        find_from(a, p, 0) is None,
        b.len() > 0,
        forall|j: int| 1 <= j < p.len() ==> p[j] != b[0],
    ensures
        find_from(a + b, p, 0) == match find_from(b, p, 0) {
            Some(k) => Some(k + a.len()),
            None => None,
        },
{
    let s = a + b;
    assert forall|t: int| 0 <= t < a.len() implies !occurs_at(s, p, t) by {
        if occurs_at(s, p, t) {
            if t + p.len() <= a.len() {
                assert(s.subrange(t, t + p.len()) =~= a.subrange(t, t + p.len()));
                lemma_find_from_none(a, p, 0, t);
            } else {
                let j = a.len() - t;
                assert(s.subrange(t, t + p.len())[j] == s[a.len() as int]);
            }
        }
    }
    assert(s.skip(a.len() as int) =~= b);
    lemma_find_from_shift(s, p, a.len() as int, 0);
    match find_from(s, p, a.len() as int) {
        Some(k) => {
            lemma_find_from_bounds(s, p, a.len() as int);
            lemma_find_from_first(s, p, 0, k);
        },
        None => {
            assert forall|t: int| 0 <= t implies !occurs_at(s, p, t) by {
                if t >= a.len() {
                    lemma_find_from_none(s, p, a.len() as int, t);
                }
            }
            lemma_find_from_absent(s, p, 0);
        },
    }
}

/// No occurrence in a text shorter than the pattern.
pub proof fn lemma_find_too_short(s: Seq<char>, p: Seq<char>)
    requires
        s.len() < p.len(),
    ensures
        find_from(s, p, 0) is None,
{
}

/// Whether `c` is an ASCII decimal digit.
pub open spec fn is_digit(c: char) -> bool {
    '0' <= c && c <= '9'
}

/// Whether every character of `s` is a decimal digit.
pub open spec fn all_digits(s: Seq<char>) -> bool {
    forall|i: int| 0 <= i < s.len() ==> is_digit(#[trigger] s[i])
}

/// A number's text without its sign.
pub open spec fn unsigned_part(s: Seq<char>) -> Seq<char> {
    if s.len() > 0 && (s[0] == '-' || s[0] == '+') {
        s.drop_first()
    } else {
        s
    }
}

/// The value of a sequence of decimal digits.
pub open spec fn digits_value(s: Seq<char>) -> int
    decreases s.len(),
{
    if s.len() == 0 {
        0
    } else {
        digits_value(s.drop_last()) * 10 + (s.last() as int - '0' as int)
    }
}

/// The integer a text denotes (`str::parse::<i64>`): an optional `+` or `-`,
/// then one or more decimal digits, with a value in the range of `i64`.
pub open spec fn parse_i64(s: Seq<char>) -> Option<int> {
    let neg = s.len() > 0 && s[0] == '-';
    let body = unsigned_part(s);
    if body.len() == 0 || !all_digits(body) {
        None
    } else {
        let v = if neg {
            -digits_value(body)
        } else {
            digits_value(body)
        };
        if i64::MIN <= v && v <= i64::MAX {
            Some(v)
        } else {
            None
        }
    }
}

proof fn lemma_digits_value_mono(s: Seq<char>, i: int, j: int)
    requires
        0 <= i <= j <= s.len(),
        forall|k: int| 0 <= k < s.len() ==> is_digit(#[trigger] s[k]),
    ensures
        0 <= digits_value(s.take(i)) <= digits_value(s.take(j)),
    decreases j,
{
    if j > 0 {
        if i < j {
            lemma_digits_value_mono(s, i, j - 1);
        } else {
            lemma_digits_value_mono(s, i - 1, j - 1);
        }
        assert(s.take(j).drop_last() =~= s.take(j - 1));
        assert(s.take(j).last() == s[j - 1]);
        assert(is_digit(s[j - 1]));
    } else {
        assert(s.take(0) =~= Seq::<char>::empty());
    }
}

/// `str::parse::<i64>`, `None` for an error.
#[verifier::loop_isolation(false)]
pub fn parse_i64_str(s: &str) -> (r: Option<i64>)
    ensures
        match r {
            Some(n) => parse_i64(s@) == Some(n as int),
            None => parse_i64(s@) is None,
        },
{
    let v = chars_of(s);
    let n = v.len();
    let neg = n > 0 && v[0] == '-';
    let start: usize = if n > 0 && (v[0] == '-' || v[0] == '+') {
        1
    } else {
        0
    };
    let ghost body = v@.skip(start as int);
    proof {
        if start == 1 {
            assert(body =~= v@.drop_first());
        } else {
            assert(body =~= v@);
        }
    }
    if start >= n {
        return None;
    }
    let mut acc: u128 = 0;
    let mut i: usize = start;
    while i < n
        invariant
            start <= i <= n == v@.len(),
            body == v@.skip(start as int),
            forall|k: int| 0 <= k < i - start ==> is_digit(#[trigger] body[k]),
            acc == digits_value(body.take(i - start)),
            acc <= 9223372036854775808u128,
        decreases n - i,
    {
        let c = v[i];
        if !('0' <= c && c <= '9') {
            proof {
                assert(!is_digit(body[i - start]));
                assert(unsigned_part(s@) == body);
                assert(!all_digits(body));
            }
            return None;
        }
        let d = (c as u32 - '0' as u32) as u128;
        proof {
            assert(body.take(i - start + 1).drop_last() =~= body.take(i - start));
            assert(body.take(i - start + 1).last() == body[i - start]);
        }
        let next = acc * 10 + d;
        if next > 9223372036854775808u128 {
            proof {
                assert forall|k: int| 0 <= k < i - start + 1 implies is_digit(#[trigger] body[k]) by {}
                assert(unsigned_part(s@) == body);
                if all_digits(body) {
                    lemma_digits_value_mono(body, i - start + 1, body.len() as int);
                    assert(body.take(body.len() as int) =~= body);
                    assert(digits_value(body) > 9223372036854775808);
                }
            }
            return None;
        }
        acc = next;
        i = i + 1;
    }
    proof {
        assert(body.take(body.len() as int) =~= body);
        assert(i - start == body.len());
    }
    if neg {
        Some((0i128 - acc as i128) as i64)
    } else if acc <= 9223372036854775807u128 {
        Some(acc as i64)
    } else {
        None
    }
}

/// `str::trim` followed by `to_string`.
pub fn trimmed(s: &str) -> (r: String)
    ensures
        r@ == trim(s@),
{
    let v = chars_of(s);
    let t = trim_chars(&v);
    string_of(&t)
}

pub proof fn lemma_trim_start_len(s: Seq<char>)
    ensures
        trim_start(s).len() <= s.len(),
        trim_start(s).len() == 0 || !is_ws(trim_start(s)[0]),
    decreases s.len(),
{
    if s.len() > 0 && is_ws(s[0]) {
        lemma_trim_start_len(s.drop_first());
    }
}

pub proof fn lemma_trim_end_len(s: Seq<char>)
    ensures
        trim_end(s).len() <= s.len(),
        trim_end(s).len() == 0 || !is_ws(trim_end(s).last()),
    decreases s.len(),
{
    if s.len() > 0 && is_ws(s.last()) {
        lemma_trim_end_len(s.drop_last());
    }
}

/// The last index holding `c`, if any (`str::rfind` with a `char` pattern).
pub open spec fn last_index_of(s: Seq<char>, c: char) -> Option<int>
    decreases s.len(),
{
    if s.len() == 0 {
        None
    } else if s.last() == c {
        Some(s.len() - 1)
    } else {
        last_index_of(s.drop_last(), c)
    }
}

pub proof fn lemma_last_index_of_bounds(s: Seq<char>, c: char)
    ensures
        last_index_of(s, c) matches Some(i) ==> 0 <= i < s.len() && s[i] == c,
    decreases s.len(),
{
    if s.len() > 0 && s.last() != c {
        lemma_last_index_of_bounds(s.drop_last(), c);
    }
}

/// The position, relative to `lo`, of the last `c` in `v[lo..hi]`.
pub fn rfind_char(v: &Vec<char>, lo: usize, hi: usize, c: char) -> (r: Option<usize>)
    requires
        lo <= hi <= v.len(),
    ensures
        r matches Some(i) ==> last_index_of(v@.subrange(lo as int, hi as int), c) == Some(
            i as int,
        ),
        r is None ==> last_index_of(v@.subrange(lo as int, hi as int), c) is None,
{
    let mut j = hi;
    while j > lo
        invariant
            lo <= j <= hi <= v.len(),
            last_index_of(v@.subrange(lo as int, hi as int), c) == last_index_of(
                v@.subrange(lo as int, j as int),
                c,
            ),
        decreases j - lo,
    {
        if v[j - 1] == c {
            return Some(j - 1 - lo);
        }
        proof {
            assert(v@.subrange(lo as int, j as int).drop_last() =~= v@.subrange(
                lo as int,
                j - 1,
            ));
        }
        j = j - 1;
    }
    None
}

/// Each `c` of `s` replaced by `to`, one character at a time.
pub open spec fn map_char(s: Seq<char>, c: char, to: Seq<char>) -> Seq<char>
    decreases s.len(),
{
    if s.len() == 0 {
        Seq::empty()
    } else {
        (if s[0] == c {
            to
        } else {
            seq![s[0]]
        }) + map_char(s.drop_first(), c, to)
    }
}

/// `map_char` of a concatenation.
pub proof fn lemma_map_char_concat(a: Seq<char>, b: Seq<char>, c: char, to: Seq<char>)
    ensures
        map_char(a + b, c, to) == map_char(a, c, to) + map_char(b, c, to),
    decreases a.len(),
{
    if a.len() == 0 {
        assert(a + b =~= b);
        assert(map_char(a, c, to) + map_char(b, c, to) =~= map_char(b, c, to));
    } else {
        lemma_map_char_concat(a.drop_first(), b, c, to);
        assert((a + b).drop_first() =~= a.drop_first() + b);
        assert((a + b)[0] == a[0]);
        let h = if a[0] == c { to } else { seq![a[0]] };
        assert(h + (map_char(a.drop_first(), c, to) + map_char(b, c, to)) =~= (h + map_char(
            a.drop_first(),
            c,
            to,
        )) + map_char(b, c, to));
    }
}

/// `map_char` leaves a text without `c` as it is.
pub proof fn lemma_map_char_absent(s: Seq<char>, c: char, to: Seq<char>)
    requires
        forall|i: int| 0 <= i < s.len() ==> s[i] != c,
    ensures
        map_char(s, c, to) == s,
    decreases s.len(),
{
    if s.len() > 0 {
        lemma_map_char_absent(s.drop_first(), c, to);
        assert(s =~= seq![s[0]] + s.drop_first());
    }
}

/// Replacing a one-character pattern is replacing each of its characters.
pub proof fn lemma_replace_char(s: Seq<char>, c: char, to: Seq<char>)
    ensures
        replace_all(s, seq![c], to) == map_char(s, c, to),
    decreases s.len(),
{
    let p = seq![c];
    lemma_find_from_bounds(s, p, 0);
    match find_from(s, p, 0) {
        Some(i) => {
            assert forall|t: int| 0 <= t < i implies s.take(i)[t] != c by {
                assert(!occurs_at(s, p, t));
                assert(s.subrange(t, t + 1) =~= seq![s[t]]);
            }
            assert(s.subrange(i, i + 1) == p);
            assert(s[i] == c) by {
                assert(s.subrange(i, i + 1)[0] == s[i]);
            }
            lemma_map_char_absent(s.take(i), c, to);
            lemma_replace_char(s.skip(i + 1), c, to);
            assert(s =~= s.take(i) + (seq![s[i]] + s.skip(i + 1)));
            lemma_map_char_concat(s.take(i), seq![s[i]] + s.skip(i + 1), c, to);
            assert((seq![s[i]] + s.skip(i + 1)).drop_first() =~= s.skip(i + 1));
            assert(map_char(seq![s[i]] + s.skip(i + 1), c, to) == to + map_char(s.skip(i + 1), c, to));
            assert(replace_all(s, p, to) == s.take(i) + to + replace_all(s.skip(i + 1), p, to));
            assert(s.take(i) + to + map_char(s.skip(i + 1), c, to) =~= s.take(i) + (to + map_char(
                s.skip(i + 1),
                c,
                to,
            )));
        },
        None => {
            assert forall|t: int| 0 <= t < s.len() implies s[t] != c by {
                lemma_find_from_none(s, p, 0, t);
                if s[t] == c {
                    assert(s.subrange(t, t + 1) =~= p);
                }
            }
            lemma_map_char_absent(s, c, to);
        },
    }
}

} // verus!
