//! Splitting outgoing remote messages into chunks that fit a provider's
//! per-message byte limit.

use vstd::prelude::*;
use crate::text::{
    copy_range, last_index_of, lemma_last_index_of_bounds, lemma_trim_start_len, rfind_char,
    skip_ws, trim, trim_bounds, trim_start, trim_end, is_ws,
};

verus! {

/// Number of bytes in the UTF-8 encoding of `c`.
pub open spec fn utf8_width(c: char) -> nat {
    let u = c as u32;
    if u < 0x80 {
        1
    } else if u < 0x800 {
        2
    } else if u < 0x10000 {
        3
    } else {
        4
    }
}

/// Number of bytes in the UTF-8 encoding of `s` (`str::len`).
pub open spec fn byte_len(s: Seq<char>) -> nat
    decreases s.len(),
{
    if s.len() == 0 {
        0
    } else {
        byte_len(s.drop_last()) + utf8_width(s.last())
    }
}

pub proof fn lemma_byte_len_concat(a: Seq<char>, b: Seq<char>)
    ensures
        byte_len(a + b) == byte_len(a) + byte_len(b),
    decreases b.len(),
{
    if b.len() == 0 {
        assert(a + b =~= a);
    } else {
        assert((a + b).drop_last() =~= a + b.drop_last());
        lemma_byte_len_concat(a, b.drop_last());
    }
}

/// `byte_len` is the length of the UTF-8 encoding, the value `str::len` returns.
pub proof fn lemma_byte_len_is_utf8_len(s: Seq<char>)
    ensures
        byte_len(s) == vstd::utf8::encode_utf8(s).len(),
    decreases s.len(),
{
    broadcast use vstd::utf8::char_is_scalar;

    if s.len() > 0 {
        lemma_byte_len_is_utf8_len(s.drop_first());
        assert(s =~= seq![s[0]] + s.drop_first());
        lemma_byte_len_concat(seq![s[0]], s.drop_first());
        assert(seq![s[0]].drop_last() =~= Seq::<char>::empty());
        vstd::utf8::char_is_scalar(s[0]);
        let u = s[0] as u32;
        assert(byte_len(Seq::<char>::empty()) == 0);
        assert(seq![s[0]].last() == s[0]);
        assert(byte_len(seq![s[0]]) == utf8_width(s[0]));
        assert(vstd::utf8::encode_scalar(u).len() == utf8_width(s[0]));
        assert(vstd::utf8::encode_utf8(s) == vstd::utf8::encode_scalar(u) + vstd::utf8::encode_utf8(
            s.drop_first(),
        ));
    }
}

pub fn char_width(c: char) -> (w: usize)
    ensures
        w == utf8_width(c),
{
    let u = c as u32;
    if u < 0x80 {
        1
    } else if u < 0x800 {
        2
    } else if u < 0x10000 {
        3
    } else {
        4
    }
}

pub proof fn lemma_byte_len_take_step(s: Seq<char>, i: int)
    requires
        0 <= i < s.len(),
    ensures
        byte_len(s.take(i + 1)) == byte_len(s.take(i)) + utf8_width(s[i]),
{
    assert(s.take(i + 1).drop_last() =~= s.take(i));
}

pub proof fn lemma_byte_len_take_mono(s: Seq<char>, i: int, j: int)
    requires
        0 <= i <= j <= s.len(),
    ensures
        byte_len(s.take(i)) <= byte_len(s.take(j)),
    decreases j - i,
{
    if i < j {
        lemma_byte_len_take_step(s, j - 1);
        lemma_byte_len_take_mono(s, i, j - 1);
    }
}

/// The number of leading characters of `s` that fit in `limit` bytes,
/// counting on from `i`.
pub open spec fn fit_from(s: Seq<char>, limit: nat, i: int) -> int
    decreases s.len() - i,
{
    if 0 <= i < s.len() && byte_len(s.take(i + 1)) <= limit {
        fit_from(s, limit, i + 1)
    } else {
        i
    }
}

/// The number of leading characters of `s` that fit in `limit` bytes.
pub open spec fn fit_count(s: Seq<char>, limit: nat) -> int {
    fit_from(s, limit, 0)
}

pub proof fn lemma_fit_from(s: Seq<char>, limit: nat, i: int)
    requires
        0 <= i <= s.len(),
        byte_len(s.take(i)) <= limit,
    ensures
        i <= fit_from(s, limit, i) <= s.len(),
        byte_len(s.take(fit_from(s, limit, i))) <= limit,
        fit_from(s, limit, i) < s.len() ==> byte_len(s.take(fit_from(s, limit, i) + 1)) > limit,
        fit_from(s, limit, i) == s.len() <==> byte_len(s) <= limit,
    decreases s.len() - i,
{
    assert(s.take(s.len() as int) =~= s);
    if i < s.len() && byte_len(s.take(i + 1)) <= limit {
        lemma_fit_from(s, limit, i + 1);
    } else if i < s.len() {
        lemma_byte_len_take_mono(s, i + 1, s.len() as int);
    }
}

/// Where a message that is too long is cut: after the last newline of the
/// part that fits, else after its last space, else at the byte limit; never
/// before the first character.
pub open spec fn cut_point(fitting: Seq<char>) -> int {
    let p = match last_index_of(fitting, '\n') {
        Some(p) => p,
        None => match last_index_of(fitting, ' ') {
            Some(p) => p,
            None => fitting.len() as int,
        },
    };
    if p < 1 {
        1
    } else {
        p
    }
}

pub proof fn lemma_cut_point_bounds(fitting: Seq<char>)
    ensures
        1 <= cut_point(fitting) <= if fitting.len() == 0 {
            1
        } else {
            fitting.len() as int
        },
{
    lemma_last_index_of_bounds(fitting, '\n');
    lemma_last_index_of_bounds(fitting, ' ');
}

/// The chunks of `remaining`, an already trimmed text, or `None` where the
/// byte limit would fall inside a character (the slicing would panic).
pub open spec fn chunk_rest(remaining: Seq<char>, limit: nat) -> Option<Seq<Seq<char>>>
    decreases remaining.len(),
{
    if byte_len(remaining) <= limit {
        if remaining.len() == 0 {
            Some(Seq::empty())
        } else {
            Some(seq![remaining])
        }
    } else {
        let n = fit_count(remaining, limit);
        if byte_len(remaining.take(n)) != limit {
            None
        } else {
            let q = cut_point(remaining.take(n));
            proof {
                lemma_cut_point_bounds(remaining.take(n));
                lemma_trim_start_len(remaining.skip(q));
            }
            if q > remaining.len() {
                None
            } else {
                match chunk_rest(trim_start(remaining.skip(q)), limit) {
                    Some(rest) => Some(seq![trim(remaining.take(q))] + rest),
                    None => None,
                }
            }
        }
    }
}

/// The chunks a text is sent in for a given byte limit; `None` where the
/// original splitting would cut inside a multi-byte character.
pub open spec fn chunk_text(text: Seq<char>, limit: nat) -> Option<Seq<Seq<char>>> {
    if byte_len(text) <= limit {
        Some(seq![text])
    } else {
        chunk_rest(trim(text), limit)
    }
}

/// The character sequences held by a vector of character vectors.
pub open spec fn views(c: Seq<Vec<char>>) -> Seq<Seq<char>> {
    c.map_values(|x: Vec<char>| x@)
}

pub open spec fn prepend_chunks(
    done: Seq<Seq<char>>,
    rest: Option<Seq<Seq<char>>>,
) -> Option<Seq<Seq<char>>> {
    match rest {
        Some(r) => Some(done + r),
        None => None,
    }
}

/// How many characters of `v[lo..hi]` fit in `limit` bytes, and their byte count.
fn fit_prefix(v: &Vec<char>, lo: usize, hi: usize, limit: usize) -> (r: (usize, usize))
    requires
        lo <= hi <= v.len(),
    ensures
        r.0 == fit_count(v@.subrange(lo as int, hi as int), limit as nat),
        r.1 == byte_len(v@.subrange(lo as int, hi as int).take(r.0 as int)),
        r.0 <= hi - lo,
{
    let ghost s = v@.subrange(lo as int, hi as int);
    let mut i: usize = 0;
    let mut total: usize = 0;
    let mut full = false;
    proof {
        assert(s.take(0) =~= Seq::<char>::empty());
    }
    while lo + i < hi && !full
        invariant
            lo <= hi <= v.len(),
            i <= hi - lo,
            s == v@.subrange(lo as int, hi as int),
            total == byte_len(s.take(i as int)),
            total <= limit,
            full ==> lo + i < hi && fit_from(s, limit as nat, i as int) == i,
            fit_count(s, limit as nat) == fit_from(s, limit as nat, i as int),
        decreases 2 * (hi - lo - i) + if full {
            0int
        } else {
            1int
        },
    {
        let w = char_width(v[lo + i]);
        proof {
            lemma_byte_len_take_step(s, i as int);
        }
        if w > limit - total {
            full = true;
        } else {
            total = total + w;
            i = i + 1;
        }
    }
    (i, total)
}

/// Splits `text` into chunks of at most `limit` UTF-8 bytes: a text that fits
/// is sent whole; a longer one is trimmed and cut repeatedly after the last
/// newline (else space) within the limit, each piece trimmed.  `None` where
/// the original slicing would cut inside a multi-byte character.
pub fn try_chunk_chars(v: &Vec<char>, limit: usize) -> (r: Option<Vec<Vec<char>>>)
    requires
        limit > 0,
    ensures
        r matches Some(c) ==> chunk_text(v@, limit as nat) == Some(views(c@)),
        r is None ==> chunk_text(v@, limit as nat) is None,
{
    let len = v.len();
    let (n0, _t0) = fit_prefix(v, 0, len, limit);
    proof {
        let s = v@.subrange(0, len as int);
        assert(s =~= v@);
        assert(s.take(0) =~= Seq::<char>::empty());
        lemma_fit_from(s, limit as nat, 0);
    }
    if n0 == len {
        let mut one: Vec<Vec<char>> = Vec::new();
        one.push(copy_range(v, 0, len));
        proof {
            assert(v@.subrange(0, len as int) =~= v@);
            assert(views(one@) =~= seq![v@]);
        }
        return Some(one);
    }
    let (mut start, end) = trim_bounds(v, 0, len);
    proof {
        assert(v@.subrange(0, len as int) =~= v@);
    }
    let mut chunks: Vec<Vec<char>> = Vec::new();
    proof {
        assert(views(chunks@) =~= Seq::<Seq<char>>::empty());
        assert(Seq::<Seq<char>>::empty() + chunk_rest(trim(v@), limit as nat).unwrap_or(
            Seq::empty(),
        ) =~= chunk_rest(trim(v@), limit as nat).unwrap_or(Seq::empty()));
    }
    let mut done = false;
    while start < end && !done
        invariant
            start <= end <= len == v.len(),
            done ==> byte_len(v@.subrange(start as int, end as int)) <= limit,
            limit > 0,
            chunk_text(v@, limit as nat) == prepend_chunks(
                views(chunks@),
                chunk_rest(v@.subrange(start as int, end as int), limit as nat),
            ),
        decreases 2 * (end - start) + if done {
            0int
        } else {
            1int
        },
    {
        let ghost s = v@.subrange(start as int, end as int);
        let (n, total) = fit_prefix(v, start, end, limit);
        proof {
            assert(s.take(0) =~= Seq::<char>::empty());
            lemma_fit_from(s, limit as nat, 0);
        }
        if n == end - start {
            done = true;
            continue;
        }
        if total != limit {
            return None;
        }
        let ghost fitting = s.take(n as int);
        proof {
            assert(fitting =~= v@.subrange(start as int, start + n));
            lemma_cut_point_bounds(fitting);
        }
        let nl = rfind_char(v, start, start + n, '\n');
        let sp = match nl {
            Some(p) => p,
            None => match rfind_char(v, start, start + n, ' ') {
                Some(p) => p,
                None => n,
            },
        };
        let q = if sp < 1 {
            1
        } else {
            sp
        };
        assert(q == cut_point(fitting));
        let (a, b) = trim_bounds(v, start, start + q);
        let head = copy_range(v, a, b);
        let next = skip_ws(v, start + q, end);
        proof {
            assert(s.take(q as int) =~= v@.subrange(start as int, start + q));
            assert(s.skip(q as int) =~= v@.subrange(start + q, end as int));
            let old_chunks = views(chunks@);
            assert(old_chunks.push(head@) + chunk_rest(
                v@.subrange(next as int, end as int),
                limit as nat,
            ).unwrap_or(Seq::empty()) =~= old_chunks + (seq![head@] + chunk_rest(
                v@.subrange(next as int, end as int),
                limit as nat,
            ).unwrap_or(Seq::empty())));
        }
        let ghost before = views(chunks@);
        chunks.push(head);
        proof {
            assert(views(chunks@) =~= before.push(v@.subrange(a as int, b as int)));
        }
        start = next;
    }
    proof {
        let s = v@.subrange(start as int, end as int);
        assert(s.take(0) =~= Seq::<char>::empty());
        lemma_fit_from(s, limit as nat, 0);
    }
    if start < end {
        let last = copy_range(v, start, end);
        chunks.push(last);
    }
    Some(chunks)
}

/// Whether `s` neither begins nor ends with whitespace.
pub open spec fn is_trimmed(s: Seq<char>) -> bool {
    s.len() == 0 || (!is_ws(s[0]) && !is_ws(s.last()))
}

proof fn lemma_trim_start_suffix(s: Seq<char>)
    ensures
        trim_start(s) == s.skip(s.len() - trim_start(s).len()),
        trim_start(s).len() <= s.len(),
    decreases s.len(),
{
    if s.len() > 0 && is_ws(s[0]) {
        lemma_trim_start_suffix(s.drop_first());
        assert(s.drop_first().skip(s.drop_first().len() - trim_start(s).len()) =~= s.skip(
            s.len() - trim_start(s).len(),
        ));
    } else {
        assert(s.skip(0) =~= s);
    }
}

proof fn lemma_trim_end_prefix(s: Seq<char>)
    ensures
        trim_end(s) == s.take(trim_end(s).len() as int),
        trim_end(s).len() <= s.len(),
    decreases s.len(),
{
    if s.len() > 0 && is_ws(s.last()) {
        lemma_trim_end_prefix(s.drop_last());
        assert(s.drop_last().take(trim_end(s).len() as int) =~= s.take(
            trim_end(s).len() as int,
        ));
    } else {
        assert(s.take(s.len() as int) =~= s);
    }
}

proof fn lemma_byte_len_skip(s: Seq<char>, k: int)
    requires
        0 <= k <= s.len(),
    ensures
        byte_len(s.skip(k)) <= byte_len(s),
{
    assert(s =~= s.take(k) + s.skip(k));
    lemma_byte_len_concat(s.take(k), s.skip(k));
}

proof fn lemma_byte_len_take(s: Seq<char>, k: int)
    requires
        0 <= k <= s.len(),
    ensures
        byte_len(s.take(k)) <= byte_len(s),
{
    assert(s =~= s.take(k) + s.skip(k));
    lemma_byte_len_concat(s.take(k), s.skip(k));
}

/// Trimming never lengthens a text, and its result is trimmed.
pub proof fn lemma_trim_shrinks(s: Seq<char>)
    ensures
        byte_len(trim(s)) <= byte_len(s),
        is_trimmed(trim(s)),
{
    lemma_trim_start_suffix(s);
    lemma_byte_len_skip(s, s.len() - trim_start(s).len());
    lemma_trim_end_prefix(trim_start(s));
    lemma_byte_len_take(trim_start(s), trim_end(trim_start(s)).len() as int);
    lemma_trim_start_len(s);
    crate::text::lemma_trim_end_len(trim_start(s));
    let t = trim_start(s);
    if trim(s).len() > 0 {
        assert(trim(s)[0] == t[0]);
    }
}

/// Every chunk of a trimmed remainder fits the limit and is a non-empty,
/// trimmed text.
proof fn lemma_chunk_rest_fits(remaining: Seq<char>, limit: nat)
    requires
        is_trimmed(remaining),
        limit > 0,
    ensures
        chunk_rest(remaining, limit) matches Some(cs) ==> forall|i: int|
            0 <= i < cs.len() ==> byte_len(#[trigger] cs[i]) <= limit && cs[i].len() > 0
                && is_trimmed(cs[i]),
    decreases remaining.len(),
{
    if byte_len(remaining) <= limit {
    } else {
        let n = fit_count(remaining, limit);
        if byte_len(remaining.take(n)) == limit {
            let q = cut_point(remaining.take(n));
            assert(remaining.take(0) =~= Seq::<char>::empty());
            lemma_fit_from(remaining, limit, 0);
            lemma_cut_point_bounds(remaining.take(n));
            lemma_trim_start_len(remaining.skip(q));
            if q <= remaining.len() {
                let tail = trim_start(remaining.skip(q));
                lemma_trim_start_suffix(remaining.skip(q));
                if tail.len() > 0 {
                    assert(tail.last() == remaining.last());
                }
                lemma_chunk_rest_fits(tail, limit);
                let head = remaining.take(q);
                lemma_trim_shrinks(head);
                lemma_byte_len_take_mono(remaining, q, n);
                assert(remaining.take(n).len() == n);
                assert(head[0] == remaining[0]);
                assert(!is_ws(head[0]));
                assert(trim_start(head) == head);
                crate::text::lemma_trim_end_len(head);
                assert(trim(head).len() > 0) by {
                    if trim(head).len() == 0 {
                        assert(trim_end(head) == head) by {
                            assert(head.len() > 0);
                            if is_ws(head.last()) {
                                lemma_trim_end_keeps_first(head);
                            }
                        }
                    }
                }
                match chunk_rest(tail, limit) {
                    Some(rest) => {
                        let cs = seq![trim(head)] + rest;
                        assert forall|i: int| 0 <= i < cs.len() implies byte_len(#[trigger] cs[i])
                            <= limit && cs[i].len() > 0 && is_trimmed(cs[i]) by {
                            if i > 0 {
                                assert(cs[i] == rest[i - 1]);
                            }
                        }
                    },
                    None => {},
                }
            }
        }
    }
}

proof fn lemma_trim_end_keeps_first(s: Seq<char>)
    requires
        s.len() > 0,
        !is_ws(s[0]),
    ensures
        trim_end(s).len() > 0,
        trim_end(s)[0] == s[0],
    decreases s.len(),
{
    if is_ws(s.last()) {
        assert(s.len() > 1);
        lemma_trim_end_keeps_first(s.drop_last());
    }
}

/// A text is sent in pieces of at most `limit` bytes each; once a text is
/// longer than the limit, no piece is empty and none begins or ends with
/// whitespace.
pub proof fn law_chunks_fit_limit(text: Seq<char>, limit: nat)
    requires
        limit > 0,
    ensures
        chunk_text(text, limit) matches Some(cs) ==> forall|i: int|
            0 <= i < cs.len() ==> byte_len(#[trigger] cs[i]) <= limit,
        byte_len(text) > limit ==> (chunk_text(text, limit) matches Some(cs) ==> forall|i: int|
            0 <= i < cs.len() ==> (#[trigger] cs[i]).len() > 0 && is_trimmed(cs[i])),
{
    if byte_len(text) > limit {
        lemma_trim_shrinks(text);
        lemma_chunk_rest_fits(trim(text), limit);
    }
}

proof fn lemma_last_index_of_is_last(s: Seq<char>, c: char)
    ensures
        match last_index_of(s, c) {
            Some(i) => 0 <= i < s.len() && s[i] == c && forall|j: int| i < j < s.len() ==> s[j] != c,
            None => forall|j: int| 0 <= j < s.len() ==> s[j] != c,
        },
    decreases s.len(),
{
    if s.len() > 0 && s.last() != c {
        lemma_last_index_of_is_last(s.drop_last(), c);
        assert forall|j: int| 0 <= j < s.len() - 1 implies s.drop_last()[j] == s[j] by {}
    }
}

/// Where a chunk ends: in the longest part of the remaining text that fits
/// the limit (its first `n` characters), at its last newline; without one, at
/// its last space; without either, at the limit. So no chunk but the last
/// could run on to a later newline or space and still fit.  The first chunk
/// is the text before the cut, trimmed, and the rest is chunked from the
/// cut on, leading whitespace dropped.
pub proof fn law_chunk_cuts_at_last_break(remaining: Seq<char>, limit: nat)
    requires
        limit > 0,
        byte_len(remaining) > limit,
        remaining.len() > 0,
        !is_ws(remaining[0]),
        chunk_rest(remaining, limit) is Some,
    ensures
        ({
            let n = fit_count(remaining, limit);
            let cs = chunk_rest(remaining, limit)->0;
            exists|q: int|
                #![trigger remaining.take(q)]
                1 <= q <= n && n < remaining.len() && cs.len() > 0 && cs[0] == trim(remaining.take(q))
                    && chunk_rest(trim_start(remaining.skip(q)), limit) == Some(cs.drop_first()) && (
                (exists|j: int| 0 <= j < n && remaining[j] == '\n') ==> remaining[q] == '\n'
                    && forall|j: int| q < j < n ==> remaining[j] != '\n') && ((forall|j: int|
                0 <= j < n ==> remaining[j] != '\n') && (exists|j: int| 0 <= j < n && remaining[j] == ' ')
                ==> remaining[q] == ' ' && forall|j: int| q < j < n ==> remaining[j] != ' ') && ((forall|
                j: int,
            |
                0 <= j < n ==> remaining[j] != '\n' && remaining[j] != ' ') ==> q == n)
        }),
{
    let n = fit_count(remaining, limit);
    assert(remaining.take(0) =~= Seq::<char>::empty());
    lemma_fit_from(remaining, limit, 0);
    let f = remaining.take(n);
    let q = cut_point(f);
    lemma_cut_point_bounds(f);
    lemma_trim_start_len(remaining.skip(q));
    lemma_last_index_of_is_last(f, '\n');
    lemma_last_index_of_is_last(f, ' ');
    assert(byte_len(f) == limit);
    assert(n > 0) by {
        if n == 0 {
            assert(f =~= Seq::<char>::empty());
        }
    }
    assert forall|j: int| 0 <= j < n implies f[j] == remaining[j] by {}
    let cs = chunk_rest(remaining, limit)->0;
    let rest = chunk_rest(trim_start(remaining.skip(q)), limit);
    assert(rest is Some);
    assert(cs == seq![trim(remaining.take(q))] + rest->0);
    assert(cs.drop_first() =~= rest->0);
    assert(is_ws('\n') && is_ws(' '));
    assert(remaining.take(q) == remaining.take(q));
}

/// The characters of a text that are not whitespace, in order.
pub open spec fn visible(s: Seq<char>) -> Seq<char>
    decreases s.len(),
{
    if s.len() == 0 {
        Seq::empty()
    } else {
        (if is_ws(s[0]) {
            Seq::empty()
        } else {
            seq![s[0]]
        }) + visible(s.drop_first())
    }
}

/// The chunks one after another.
pub open spec fn concat_all(cs: Seq<Seq<char>>) -> Seq<char>
    decreases cs.len(),
{
    if cs.len() == 0 {
        Seq::empty()
    } else {
        cs[0] + concat_all(cs.drop_first())
    }
}

proof fn lemma_visible_concat(a: Seq<char>, b: Seq<char>)
    ensures
        visible(a + b) == visible(a) + visible(b),
    decreases a.len(),
{
    if a.len() == 0 {
        assert(a + b =~= b);
        assert(visible(a) + visible(b) =~= visible(b));
    } else {
        lemma_visible_concat(a.drop_first(), b);
        assert((a + b).drop_first() =~= a.drop_first() + b);
        assert((a + b)[0] == a[0]);
        let h = if is_ws(a[0]) { Seq::<char>::empty() } else { seq![a[0]] };
        assert(visible(a + b) == h + (visible(a.drop_first()) + visible(b)));
        assert(h + (visible(a.drop_first()) + visible(b)) =~= (h + visible(a.drop_first())) + visible(b));
    }
}

proof fn lemma_visible_trim_start(s: Seq<char>)
    ensures
        visible(trim_start(s)) == visible(s),
    decreases s.len(),
{
    if s.len() > 0 && is_ws(s[0]) {
        lemma_visible_trim_start(s.drop_first());
        assert(visible(s) =~= visible(s.drop_first()));
    }
}

proof fn lemma_visible_trim_end(s: Seq<char>)
    ensures
        visible(trim_end(s)) == visible(s),
    decreases s.len(),
{
    if s.len() > 0 && is_ws(s.last()) {
        lemma_visible_trim_end(s.drop_last());
        assert(s =~= s.drop_last() + seq![s.last()]);
        lemma_visible_concat(s.drop_last(), seq![s.last()]);
        assert(seq![s.last()].drop_first() =~= Seq::<char>::empty());
        assert(visible(Seq::<char>::empty()) == Seq::<char>::empty());
        assert(visible(seq![s.last()]) =~= Seq::<char>::empty());
        assert(visible(s.drop_last()) + Seq::<char>::empty() =~= visible(s.drop_last()));
    }
}

proof fn lemma_visible_trim(s: Seq<char>)
    ensures
        visible(trim(s)) == visible(s),
{
    lemma_visible_trim_start(s);
    lemma_visible_trim_end(trim_start(s));
}

proof fn lemma_chunk_rest_visible(remaining: Seq<char>, limit: nat)
    ensures
        chunk_rest(remaining, limit) matches Some(cs) ==> visible(concat_all(cs)) == visible(remaining),
    decreases remaining.len(),
{
    if byte_len(remaining) <= limit {
        if remaining.len() > 0 {
            let cs = seq![remaining];
            assert(cs.drop_first() =~= Seq::<Seq<char>>::empty());
            assert(concat_all(Seq::<Seq<char>>::empty()) == Seq::<char>::empty());
            assert(concat_all(cs) =~= remaining);
        }
    } else {
        let n = fit_count(remaining, limit);
        if byte_len(remaining.take(n)) == limit {
            let q = cut_point(remaining.take(n));
            lemma_cut_point_bounds(remaining.take(n));
            lemma_trim_start_len(remaining.skip(q));
            if q <= remaining.len() {
                let tail = trim_start(remaining.skip(q));
                lemma_chunk_rest_visible(tail, limit);
                if let Some(rest) = chunk_rest(tail, limit) {
                    let cs = seq![trim(remaining.take(q))] + rest;
                    assert(cs.drop_first() =~= rest);
                    assert(concat_all(cs) == trim(remaining.take(q)) + concat_all(rest));
                    lemma_visible_concat(trim(remaining.take(q)), concat_all(rest));
                    lemma_visible_trim(remaining.take(q));
                    lemma_visible_trim_start(remaining.skip(q));
                    assert(remaining =~= remaining.take(q) + remaining.skip(q));
                    lemma_visible_concat(remaining.take(q), remaining.skip(q));
                }
            }
        }
    }
}

/// Splitting a message drops only whitespace: the chunks, one after
/// another, hold the text's other characters, all of them and in order.
pub proof fn law_chunks_keep_visible_text(text: Seq<char>, limit: nat)
    ensures
        chunk_text(text, limit) matches Some(cs) ==> visible(concat_all(cs)) == visible(text),
{
    if byte_len(text) <= limit {
        let cs = seq![text];
        assert(cs.drop_first() =~= Seq::<Seq<char>>::empty());
        assert(concat_all(Seq::<Seq<char>>::empty()) == Seq::<char>::empty());
        assert(concat_all(cs) =~= text);
    } else {
        lemma_chunk_rest_visible(trim(text), limit);
        lemma_visible_trim(text);
    }
}

/// The characters of the given strings.
pub open spec fn string_views(c: Seq<String>) -> Seq<Seq<char>> {
    c.map_values(|s: String| s@)
}

/// The largest message body Discord accepts here, in UTF-8 bytes.
pub const DISCORD_MESSAGE_LIMIT: usize = 1900;

/// The largest plain message body sent to Telegram, in UTF-8 bytes.
pub const TELEGRAM_MESSAGE_LIMIT: usize = 3900;

/// Splits `text` for a byte limit (see `try_chunk_chars`); `None` exactly when
/// the split would fall inside a multi-byte character.
pub fn try_chunk_message(text: &str, limit: usize) -> (r: Option<Vec<String>>)
    requires
        limit > 0,
    ensures
        r matches Some(c) ==> chunk_text(text@, limit as nat) == Some(string_views(c@)),
        r is None <==> chunk_text(text@, limit as nat) is None,
{
    let v = crate::text::chars_of(text);
    match try_chunk_chars(&v, limit) {
        None => None,
        Some(parts) => {
            let mut out: Vec<String> = Vec::new();
            let mut i: usize = 0;
            while i < parts.len()
                invariant
                    i <= parts.len(),
                    string_views(out@) == views(parts@).take(i as int),
                decreases parts.len() - i,
            {
                let piece = crate::text::string_of(&parts[i]);
                let ghost before = out@;
                out.push(piece);
                i = i + 1;
                proof {
                    assert(string_views(out@) =~= string_views(before).push(piece@));
                    assert(views(parts@).take(i as int) =~= views(parts@).take(i - 1).push(
                        parts@[i - 1]@,
                    ));
                }
            }
            proof {
                assert(views(parts@).take(parts.len() as int) =~= views(parts@));
            }
            Some(out)
        },
    }
}

/// The pieces a Discord message is sent in.
pub fn chunk_discord_message(text: &str) -> (r: Vec<String>)
    requires
        chunk_text(text@, DISCORD_MESSAGE_LIMIT as nat) is Some,
    ensures
        chunk_text(text@, DISCORD_MESSAGE_LIMIT as nat) == Some(string_views(r@)),
{
    match try_chunk_message(text, DISCORD_MESSAGE_LIMIT) {
        Some(c) => c,
        None => Vec::new(),
    }
}

/// The pieces a plain Telegram message is sent in.
pub fn chunk_telegram_plain_message(text: &str) -> (r: Vec<String>)
    requires
        chunk_text(text@, TELEGRAM_MESSAGE_LIMIT as nat) is Some,
    ensures
        chunk_text(text@, TELEGRAM_MESSAGE_LIMIT as nat) == Some(string_views(r@)),
{
    match try_chunk_message(text, TELEGRAM_MESSAGE_LIMIT) {
        Some(c) => c,
        None => Vec::new(),
    }
}

} // verus!
