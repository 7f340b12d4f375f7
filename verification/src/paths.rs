//! Unix paths held as text: joining, the components that `std::path::Path`
//! sees in them, the order and equality of paths by those components, and a
//! sorted list of distinct paths.

use vstd::prelude::*;
use crate::chunk::string_views;
use crate::text::{
    append_str, chars_of, find_chars, find_from, lemma_find_from_bounds, lemma_find_from_shift,
    owned, push_char,
};

verus! {

/// `Path::join` on Unix: an absolute name replaces the base; otherwise a `/`
/// separates the two unless the base is empty or already ends with one.
pub open spec fn path_join(base: Seq<char>, name: Seq<char>) -> Seq<char> {
    if name.len() > 0 && name[0] == '/' {
        name
    } else if base.len() == 0 || base.last() == '/' {
        base + name
    } else {
        base + seq!['/'] + name
    }
}

/// `base.join(name)`.
pub fn join_path(base: &str, name: &str) -> (r: String)
    ensures
        r@ == path_join(base@, name@),
{
    let n = chars_of(name);
    if n.len() > 0 && n[0] == '/' {
        return owned(name);
    }
    let b = chars_of(base);
    let mut r = owned(base);
    if !(b.len() == 0 || b[b.len() - 1] == '/') {
        push_char(&mut r, '/');
    }
    append_str(&mut r, name);
    r
}

/// The `/`-separated pieces of a text, empty pieces included.
pub open spec fn split_slash(s: Seq<char>) -> Seq<Seq<char>>
    decreases s.len(),
{
    match find_from(s, seq!['/'], 0) {
        Some(k) => {
            proof {
                lemma_find_from_bounds(s, seq!['/'], 0);
            }
            seq![s.take(k)] + split_slash(s.skip(k + 1))
        },
        None => seq![s],
    }
}

/// A component as the order of `std::path::Component` sees it: a tag for
/// its kind (root, current directory, parent directory, normal name), then,
/// for a normal name, its text.
pub open spec fn root_component() -> Seq<char> {
    seq!['\u{1}']
}

pub open spec fn cur_dir_component() -> Seq<char> {
    seq!['\u{2}']
}

pub open spec fn parent_dir_component() -> Seq<char> {
    seq!['\u{3}']
}

pub open spec fn normal_component(name: Seq<char>) -> Seq<char> {
    seq!['\u{4}'] + name
}

/// The components of pieces that follow the start of a path: empty and `.`
/// pieces are skipped, `..` is the parent directory, anything else a name.
pub open spec fn piece_components(ps: Seq<Seq<char>>) -> Seq<Seq<char>>
    decreases ps.len(),
{
    if ps.len() == 0 {
        Seq::empty()
    } else {
        let rest = piece_components(ps.drop_first());
        let p = ps[0];
        if p.len() == 0 || p == seq!['.'] {
            rest
        } else if p == seq!['.', '.'] {
            seq![parent_dir_component()] + rest
        } else {
            seq![normal_component(p)] + rest
        }
    }
}

/// `Path::components` on Unix: a leading `/` is the root; a relative path
/// whose first piece is `.` starts with the current directory; the pieces
/// follow.
pub open spec fn path_components(s: Seq<char>) -> Seq<Seq<char>> {
    let ps = split_slash(s);
    let start = if s.len() > 0 && s[0] == '/' {
        seq![root_component()]
    } else if ps[0] == seq!['.'] {
        seq![cur_dir_component()]
    } else {
        Seq::empty()
    };
    start + piece_components(ps)
}

/// `Path::file_name`: the last component when it is a name.
pub open spec fn file_name(s: Seq<char>) -> Option<Seq<char>> {
    let cs = path_components(s);
    if cs.len() > 0 && cs.last().len() > 0 && cs.last()[0] == '\u{4}' {
        Some(cs.last().skip(1))
    } else {
        None
    }
}

/// Lexicographic order on sequences, by a strict order on their items; a
/// proper prefix comes first.
pub open spec fn lex_lt<A>(a: Seq<A>, b: Seq<A>, lt: spec_fn(A, A) -> bool) -> bool
    decreases a.len(),
{
    if a.len() == 0 {
        b.len() > 0
    } else if b.len() == 0 {
        false
    } else if a[0] == b[0] {
        lex_lt(a.drop_first(), b.drop_first(), lt)
    } else {
        lt(a[0], b[0])
    }
}

/// Whether `lt` is a strict total order.
pub open spec fn strict_total<A>(lt: spec_fn(A, A) -> bool) -> bool {
    &&& forall|x: A| !#[trigger] lt(x, x)
    &&& forall|x: A, y: A| x != y ==> #[trigger] lt(x, y) || #[trigger] lt(y, x)
    &&& forall|x: A, y: A, z: A| #[trigger] lt(x, y) && #[trigger] lt(y, z) ==> lt(x, z)
}

/// Characters by code point (the order of their UTF-8 bytes).
pub open spec fn char_lt(a: char, b: char) -> bool {
    (a as int) < (b as int)
}

/// Components by kind, then by name.
pub open spec fn component_lt(a: Seq<char>, b: Seq<char>) -> bool {
    lex_lt(a, b, |x: char, y: char| char_lt(x, y))
}

/// The order of `PathBuf`: its components, compared in turn.
#[verifier::opaque]
pub open spec fn path_lt(a: Seq<char>, b: Seq<char>) -> bool {
    lex_lt(
        path_components(a),
        path_components(b),
        |x: Seq<char>, y: Seq<char>| component_lt(x, y),
    )
}

/// The equality of `PathBuf`: the same components.
#[verifier::opaque]
pub open spec fn same_path(a: Seq<char>, b: Seq<char>) -> bool {
    path_components(a) == path_components(b)
}

proof fn lemma_lex_irreflexive<A>(a: Seq<A>, lt: spec_fn(A, A) -> bool)
    requires
        strict_total(lt),
    ensures
        !lex_lt(a, a, lt),
    decreases a.len(),
{
    if a.len() > 0 {
        lemma_lex_irreflexive(a.drop_first(), lt);
    }
}

proof fn lemma_lex_total<A>(a: Seq<A>, b: Seq<A>, lt: spec_fn(A, A) -> bool)
    requires
        strict_total(lt),
        a != b,
    ensures
        lex_lt(a, b, lt) || lex_lt(b, a, lt),
    decreases a.len(),
{
    if a.len() > 0 && b.len() > 0 && a[0] == b[0] {
        if a.drop_first() == b.drop_first() {
            assert(a =~= seq![a[0]] + a.drop_first());
            assert(b =~= seq![b[0]] + b.drop_first());
        }
        lemma_lex_total(a.drop_first(), b.drop_first(), lt);
    } else if a.len() > 0 && b.len() > 0 {
        assert(lt(a[0], b[0]) || lt(b[0], a[0]));
    } else if a.len() == 0 && b.len() == 0 {
        assert(a =~= b);
    }
}

proof fn lemma_lex_transitive<A>(a: Seq<A>, b: Seq<A>, c: Seq<A>, lt: spec_fn(A, A) -> bool)
    requires
        strict_total(lt),
        lex_lt(a, b, lt),
        lex_lt(b, c, lt),
    ensures
        lex_lt(a, c, lt),
    decreases a.len(),
{
    if a.len() > 0 && b.len() > 0 && c.len() > 0 {
        if a[0] == b[0] && b[0] == c[0] {
            lemma_lex_transitive(a.drop_first(), b.drop_first(), c.drop_first(), lt);
        } else if a[0] == b[0] {
            assert(lt(b[0], c[0]));
        } else if b[0] == c[0] {
            assert(lt(a[0], b[0]));
        } else {
            assert(lt(a[0], b[0]) && lt(b[0], c[0]));
            assert(lt(a[0], c[0]));
            if a[0] == c[0] {
                assert(!lt(a[0], a[0]));
            }
        }
    }
}

/// Lexicographic order by a strict total order is a strict total order.
pub proof fn lemma_lex_strict_total<A>(lt: spec_fn(A, A) -> bool)
    requires
        strict_total(lt),
    ensures
        strict_total(|x: Seq<A>, y: Seq<A>| lex_lt(x, y, lt)),
{
    let l = |x: Seq<A>, y: Seq<A>| lex_lt(x, y, lt);
    assert forall|x: Seq<A>| !#[trigger] l(x, x) by {
        lemma_lex_irreflexive(x, lt);
    }
    assert forall|x: Seq<A>, y: Seq<A>| x != y implies #[trigger] l(x, y) || #[trigger] l(y, x) by {
        lemma_lex_total(x, y, lt);
    }
    assert forall|x: Seq<A>, y: Seq<A>, z: Seq<A>| #[trigger] l(x, y) && #[trigger] l(y, z) implies l(
        x,
        z,
    ) by {
        lemma_lex_transitive(x, y, z, lt);
    }
}

/// The order of paths is a strict total order on their components.
pub proof fn lemma_path_order()
    ensures
        strict_total(|x: Seq<Seq<char>>, y: Seq<Seq<char>>| lex_lt(x, y, |p: Seq<char>, q: Seq<char>| component_lt(p, q))),
{
    let cl = |x: char, y: char| char_lt(x, y);
    assert(strict_total(cl));
    lemma_lex_strict_total(cl);
    let ql = |p: Seq<char>, q: Seq<char>| component_lt(p, q);
    assert(ql == |p: Seq<char>, q: Seq<char>| lex_lt(p, q, cl));
    lemma_lex_strict_total(ql);
}

/// The views of a list of character vectors.
pub open spec fn vviews(s: Seq<Vec<char>>) -> Seq<Seq<char>> {
    s.map_values(|v: Vec<char>| v@)
}

proof fn lemma_split_slash_step(s: Seq<char>)
    ensures
        split_slash(s) == match find_from(s, seq!['/'], 0) {
            Some(k) => seq![s.take(k)] + split_slash(s.skip(k + 1)),
            None => seq![s],
        },
        split_slash(s).len() > 0,
{
}

proof fn lemma_piece_components_cons(p: Seq<char>, tail: Seq<Seq<char>>)
    ensures
        piece_components(seq![p] + tail) == if p.len() == 0 || p == seq!['.'] {
            piece_components(tail)
        } else if p == seq!['.', '.'] {
            seq![parent_dir_component()] + piece_components(tail)
        } else {
            seq![normal_component(p)] + piece_components(tail)
        },
{
    assert((seq![p] + tail).drop_first() =~= tail);
}

fn tagged_piece(piece: Vec<char>) -> (r: Vec<char>)
    ensures
        r@ == normal_component(piece@),
{
    let mut r: Vec<char> = Vec::new();
    r.push('\u{4}');
    let mut p = piece;
    r.append(&mut p);
    proof {
        assert(r@ =~= normal_component(piece@));
    }
    r
}

fn is_dot(v: &Vec<char>) -> (r: bool)
    ensures
        r == (v@ == seq!['.']),
{
    let r = v.len() == 1 && v[0] == '.';
    proof {
        if v.len() == 1 && v[0] == '.' {
            assert(v@ =~= seq!['.']);
        }
    }
    r
}

fn is_dot_dot(v: &Vec<char>) -> (r: bool)
    ensures
        r == (v@ == seq!['.', '.']),
{
    let r = v.len() == 2 && v[0] == '.' && v[1] == '.';
    proof {
        if r {
            assert(v@ =~= seq!['.', '.']);
        }
    }
    r
}

/// The components of a path (`Path::components`).
pub fn components_of(s: &str) -> (r: Vec<Vec<char>>)
    ensures
        vviews(r@) == path_components(s@),
{
    let v = chars_of(s);
    let slash: Vec<char> = vec!['/'];
    let mut out: Vec<Vec<char>> = Vec::new();
    proof {
        assert(slash@ =~= seq!['/']);
        lemma_split_slash_step(v@);
        lemma_find_from_bounds(v@, slash@, 0);
    }
    let first_end = match find_chars(&v, &slash, 0) {
        Some(k) => k,
        None => v.len(),
    };
    let first = crate::text::copy_range(&v, 0, first_end);
    let ghost start: Seq<Seq<char>>;
    if v.len() > 0 && v[0] == '/' {
        let c: Vec<char> = vec!['\u{1}'];
        out.push(c);
        proof {
            start = seq![root_component()];
            assert(c@ =~= root_component());
            assert(vviews(out@) =~= start);
        }
    } else if is_dot(&first) {
        let c: Vec<char> = vec!['\u{2}'];
        out.push(c);
        proof {
            start = seq![cur_dir_component()];
            assert(c@ =~= cur_dir_component());
            assert(vviews(out@) =~= start);
        }
    } else {
        proof {
            start = Seq::empty();
        }
    }
    proof {
        if first_end < v.len() {
            assert(first@ =~= v@.take(first_end as int));
        } else {
            assert(first@ =~= v@);
        }
        assert(split_slash(v@)[0] == first@);
        assert(vviews(out@) =~= start);
        assert(v@.skip(0) =~= v@);
    }
    let mut pos: usize = 0;
    while pos <= v.len()
        invariant
            pos <= v.len(),
            v@ == s@,
            slash@ == seq!['/'],
            path_components(s@) == start + piece_components(split_slash(v@)),
            start + piece_components(split_slash(v@)) == vviews(out@) + piece_components(
                split_slash(v@.skip(pos as int)),
            ),
        decreases v.len() - pos,
    {
        let ghost rest = v@.skip(pos as int);
        proof {
            lemma_find_from_shift(v@, slash@, pos as int, 0);
            lemma_find_from_bounds(v@, slash@, pos as int);
            lemma_split_slash_step(rest);
        }
        let (end, more) = match find_chars(&v, &slash, pos) {
            Some(k) => (k, true),
            None => (v.len(), false),
        };
        let piece = crate::text::copy_range(&v, pos, end);
        proof {
            assert(piece@ =~= rest.take(end - pos));
            if more {
                assert(rest.skip(end - pos + 1) =~= v@.skip(end + 1));
                lemma_piece_components_cons(piece@, split_slash(v@.skip(end + 1)));
            } else {
                assert(piece@ =~= rest);
                assert(split_slash(rest) == seq![piece@]);
                assert(seq![piece@] =~= seq![piece@] + Seq::<Seq<char>>::empty());
                lemma_piece_components_cons(piece@, Seq::empty());
                assert(piece_components(Seq::<Seq<char>>::empty()) =~= Seq::<Seq<char>>::empty());
            }
        }
        let ghost before = vviews(out@);
        if piece.len() == 0 || is_dot(&piece) {
        } else if is_dot_dot(&piece) {
            let c: Vec<char> = vec!['\u{3}'];
            out.push(c);
            proof {
                assert(c@ =~= parent_dir_component());
                assert(vviews(out@) =~= before + seq![parent_dir_component()]);
            }
        } else {
            let c = tagged_piece(piece);
            out.push(c);
            proof {
                assert(vviews(out@) =~= before + seq![normal_component(rest.take(end - pos))]);
            }
        }
        if !more {
            proof {
                assert(vviews(out@) =~= start + piece_components(split_slash(v@)));
            }
            return out;
        }
        pos = end + 1;
    }
    out
}

fn chars_equal(a: &Vec<char>, b: &Vec<char>) -> (r: bool)
    ensures
        r == (a@ == b@),
{
    if a.len() != b.len() {
        return false;
    }
    let mut i: usize = 0;
    while i < a.len()
        invariant
            i <= a.len() == b.len(),
            forall|t: int| 0 <= t < i ==> a@[t] == b@[t],
        decreases a.len() - i,
    {
        if a[i] != b[i] {
            return false;
        }
        i = i + 1;
    }
    proof {
        assert(a@ =~= b@);
    }
    true
}

fn component_before(a: &Vec<char>, b: &Vec<char>) -> (r: bool)
    ensures
        r == component_lt(a@, b@),
{
    let ghost cl = |x: char, y: char| char_lt(x, y);
    let mut i: usize = 0;
    proof {
        assert(a@.skip(0) =~= a@);
        assert(b@.skip(0) =~= b@);
    }
    while i < a.len() && i < b.len() && a[i] == b[i]
        invariant
            i <= a.len(),
            i <= b.len(),
            component_lt(a@, b@) == lex_lt(a@.skip(i as int), b@.skip(i as int), cl),
        decreases a.len() - i,
    {
        proof {
            assert(a@.skip(i as int).drop_first() =~= a@.skip(i + 1));
            assert(b@.skip(i as int).drop_first() =~= b@.skip(i + 1));
        }
        i = i + 1;
    }
    proof {
        if i < a.len() && i < b.len() {
            assert(a@.skip(i as int)[0] == a@[i as int]);
            assert(b@.skip(i as int)[0] == b@[i as int]);
        }
    }
    if i == a.len() {
        i < b.len()
    } else if i == b.len() {
        false
    } else {
        a[i] < b[i]
    }
}

fn components_equal(a: &Vec<Vec<char>>, b: &Vec<Vec<char>>) -> (r: bool)
    ensures
        r == (vviews(a@) == vviews(b@)),
{
    if a.len() != b.len() {
        proof {
            assert(vviews(a@).len() != vviews(b@).len());
        }
        return false;
    }
    let mut i: usize = 0;
    while i < a.len()
        invariant
            i <= a.len() == b.len(),
            forall|t: int| 0 <= t < i ==> a@[t]@ == b@[t]@,
        decreases a.len() - i,
    {
        if !chars_equal(&a[i], &b[i]) {
            proof {
                assert(vviews(a@)[i as int] != vviews(b@)[i as int]);
            }
            return false;
        }
        i = i + 1;
    }
    proof {
        assert(vviews(a@) =~= vviews(b@));
    }
    true
}

fn components_before(a: &Vec<Vec<char>>, b: &Vec<Vec<char>>) -> (r: bool)
    ensures
        r == lex_lt(vviews(a@), vviews(b@), |x: Seq<char>, y: Seq<char>| component_lt(x, y)),
{
    let ghost ql = |x: Seq<char>, y: Seq<char>| component_lt(x, y);
    let ghost av = vviews(a@);
    let ghost bv = vviews(b@);
    let mut i: usize = 0;
    proof {
        assert(av.skip(0) =~= av);
        assert(bv.skip(0) =~= bv);
    }
    while i < a.len() && i < b.len() && chars_equal(&a[i], &b[i])
        invariant
            i <= a.len(),
            i <= b.len(),
            av == vviews(a@),
            bv == vviews(b@),
            lex_lt(av, bv, ql) == lex_lt(av.skip(i as int), bv.skip(i as int), ql),
        decreases a.len() - i,
    {
        proof {
            assert(av.skip(i as int).drop_first() =~= av.skip(i + 1));
            assert(bv.skip(i as int).drop_first() =~= bv.skip(i + 1));
        }
        i = i + 1;
    }
    if i == a.len() {
        i < b.len()
    } else if i == b.len() {
        false
    } else {
        component_before(&a[i], &b[i])
    }
}

/// Whether path `a` sorts before path `b` (`PathBuf`'s `<`).
pub fn path_before(a: &str, b: &str) -> (r: bool)
    ensures
        r == path_lt(a@, b@),
{
    reveal(path_lt);
    let ca = components_of(a);
    let cb = components_of(b);
    components_before(&ca, &cb)
}

/// Whether two path texts name the same path (`PathBuf`'s `==`).
pub fn is_same_path(a: &str, b: &str) -> (r: bool)
    ensures
        r == same_path(a@, b@),
{
    reveal(same_path);
    let ca = components_of(a);
    let cb = components_of(b);
    components_equal(&ca, &cb)
}

/// Whether `paths[j]` is the first of the paths equal to it.
pub open spec fn first_of_its_path(paths: Seq<Seq<char>>, j: int) -> bool {
    forall|t: int| 0 <= t < j ==> !same_path(#[trigger] paths[t], paths[j])
}

/// `r[i]` is one of the first `n` of `paths`, the first given of its path.
pub open spec fn drawn_from(r: Seq<Seq<char>>, paths: Seq<Seq<char>>, n: int, i: int) -> bool {
    exists|j: int| #![trigger paths[j]] 0 <= j < n && r[i] == paths[j] && first_of_its_path(paths, j)
}

/// The path `paths[j]` occurs in `r`.
pub open spec fn kept_in(r: Seq<Seq<char>>, paths: Seq<Seq<char>>, j: int) -> bool {
    exists|i: int| #![trigger r[i]] 0 <= i < r.len() && same_path(r[i], paths[j])
}

/// `r` holds the paths among the first `n` of `paths`, each path once, as
/// first given, in increasing order.
#[verifier::opaque]
pub open spec fn sorted_distinct_upto(r: Seq<Seq<char>>, paths: Seq<Seq<char>>, n: int) -> bool {
    &&& forall|i: int, j: int| 0 <= i < j < r.len() ==> path_lt(#[trigger] r[i], #[trigger] r[j])
    &&& forall|i: int| 0 <= i < r.len() ==> #[trigger] drawn_from(r, paths, n, i)
    &&& forall|j: int| 0 <= j < n ==> #[trigger] kept_in(r, paths, j)
}

/// `r` is `paths` sorted, with each run of equal paths cut to its first
/// (`sort` then `dedup` on `PathBuf`s): one path for each path of `paths`,
/// the first given of them, in increasing order.
pub open spec fn sorted_distinct(r: Seq<Seq<char>>, paths: Seq<Seq<char>>) -> bool {
    sorted_distinct_upto(r, paths, paths.len() as int)
}

proof fn lemma_path_lt_total(x: Seq<char>, y: Seq<char>)
    ensures
        same_path(x, y) || path_lt(x, y) || path_lt(y, x),
{
    reveal(path_lt);
    reveal(same_path);
    lemma_path_order();
    let l = |p: Seq<Seq<char>>, q: Seq<Seq<char>>| lex_lt(p, q, |a: Seq<char>, b: Seq<char>| component_lt(a, b));
    if path_components(x) != path_components(y) {
        assert(l(path_components(x), path_components(y)) || l(path_components(y), path_components(x)));
    }
}

proof fn lemma_path_lt_transitive(x: Seq<char>, y: Seq<char>, z: Seq<char>)
    requires
        path_lt(x, y),
        path_lt(y, z),
    ensures
        path_lt(x, z),
{
    reveal(path_lt);
    lemma_path_order();
    let l = |p: Seq<Seq<char>>, q: Seq<Seq<char>>| lex_lt(p, q, |a: Seq<char>, b: Seq<char>| component_lt(a, b));
    assert(l(path_components(x), path_components(y)));
    assert(l(path_components(y), path_components(z)));
}

proof fn lemma_same_path_not_lt(x: Seq<char>, y: Seq<char>)
    requires
        same_path(x, y),
    ensures
        !path_lt(x, y),
        !path_lt(y, x),
        same_path(y, x),
{
    reveal(path_lt);
    reveal(same_path);
    lemma_path_order();
    let l = |p: Seq<Seq<char>>, q: Seq<Seq<char>>| lex_lt(p, q, |a: Seq<char>, b: Seq<char>| component_lt(a, b));
    assert(!l(path_components(x), path_components(x)));
}

proof fn lemma_same_path_transitive(x: Seq<char>, y: Seq<char>, z: Seq<char>)
    requires
        same_path(x, y),
        same_path(y, z),
    ensures
        same_path(x, z),
{
    reveal(same_path);
}

proof fn lemma_same_path_reflexive(x: Seq<char>)
    ensures
        same_path(x, x),
{
    reveal(same_path);
}

proof fn lemma_insert_keeps_sorted_distinct(
    ov: Seq<Seq<char>>,
    pv: Seq<Seq<char>>,
    i: int,
    j: int,
)
    requires
        0 <= i < pv.len(),
        0 <= j <= ov.len(),
        sorted_distinct_upto(ov, pv, i),
        forall|a: int| 0 <= a < j ==> path_lt(#[trigger] ov[a], pv[i]),
        j < ov.len() ==> !path_lt(ov[j], pv[i]) && !same_path(ov[j], pv[i]),
    ensures
        sorted_distinct_upto(ov.insert(j, pv[i]), pv, i + 1),
{
    reveal(sorted_distinct_upto);
    let x = pv[i];
    let nv = ov.insert(j, x);
    if j < ov.len() {
        lemma_path_lt_total(ov[j], x);
    }
    assert forall|a: int| j <= a < ov.len() implies path_lt(x, #[trigger] ov[a]) by {
        if a > j {
            assert(path_lt(ov[j], ov[a]));
            lemma_path_lt_transitive(x, ov[j], ov[a]);
        }
    }
    assert forall|a: int, b: int| 0 <= a < b < nv.len() implies path_lt(#[trigger] nv[a], #[trigger] nv[b]) by {
        if b < j {
            assert(path_lt(ov[a], ov[b]));
        } else if b == j {
            assert(path_lt(ov[a], x));
        } else if a < j {
            assert(path_lt(ov[a], x));
            assert(path_lt(x, ov[b - 1]));
            lemma_path_lt_transitive(ov[a], x, ov[b - 1]);
        } else if a == j {
            assert(path_lt(x, ov[b - 1]));
        } else {
            assert(path_lt(ov[a - 1], ov[b - 1]));
        }
    }
    assert forall|t: int| 0 <= t < i implies !same_path(#[trigger] pv[t], pv[i]) by {
        if same_path(pv[t], x) {
            assert(kept_in(ov, pv, t));
            let a = choose|a: int| #![trigger ov[a]] 0 <= a < ov.len() && same_path(ov[a], pv[t]);
            lemma_same_path_transitive(ov[a], pv[t], x);
            lemma_same_path_not_lt(ov[a], x);
            if a < j {
                assert(path_lt(ov[a], x));
            } else {
                assert(path_lt(x, ov[a]));
            }
        }
    }
    assert(first_of_its_path(pv, i));
    assert forall|a: int| 0 <= a < nv.len() implies #[trigger] drawn_from(nv, pv, i + 1, a) by {
        if a == j {
            assert(nv[a] == pv[i]);
        } else if a < j {
            assert(nv[a] == ov[a]);
            assert(drawn_from(ov, pv, i, a));
        } else {
            assert(nv[a] == ov[a - 1]);
            assert(drawn_from(ov, pv, i, a - 1));
        }
    }
    assert forall|t: int| 0 <= t < i + 1 implies #[trigger] kept_in(nv, pv, t) by {
        if t == i {
            assert(nv[j] == x);
            lemma_same_path_reflexive(x);
        } else {
            assert(kept_in(ov, pv, t));
            let a = choose|a: int| #![trigger ov[a]] 0 <= a < ov.len() && same_path(ov[a], pv[t]);
            if a < j {
                assert(nv[a] == ov[a]);
            } else {
                assert(nv[a + 1] == ov[a]);
            }
        }
    }
}

proof fn lemma_skip_keeps_sorted_distinct(ov: Seq<Seq<char>>, pv: Seq<Seq<char>>, i: int, j: int)
    requires
        0 <= i < pv.len(),
        0 <= j < ov.len(),
        sorted_distinct_upto(ov, pv, i),
        same_path(ov[j], pv[i]),
    ensures
        sorted_distinct_upto(ov, pv, i + 1),
{
    reveal(sorted_distinct_upto);
    assert forall|a: int| 0 <= a < ov.len() implies #[trigger] drawn_from(ov, pv, i + 1, a) by {
        assert(drawn_from(ov, pv, i, a));
    }
    assert forall|t: int| 0 <= t < i + 1 implies #[trigger] kept_in(ov, pv, t) by {
        if t == i {
            assert(same_path(ov[j], pv[t]));
        } else {
            assert(kept_in(ov, pv, t));
        }
    }
}

/// The paths sorted, each path once (`sort` then `dedup` on `PathBuf`s).
pub fn sorted_unique_paths(paths: &Vec<String>) -> (r: Vec<String>)
    ensures
        sorted_distinct(string_views(r@), string_views(paths@)),
{
    let ghost pv = string_views(paths@);
    let mut out: Vec<String> = Vec::new();
    let mut i: usize = 0;
    proof {
        reveal(sorted_distinct_upto);
        assert(string_views(out@) =~= Seq::<Seq<char>>::empty());
    }
    while i < paths.len()
        invariant
            i <= paths.len(),
            pv == string_views(paths@),
            sorted_distinct_upto(string_views(out@), pv, i as int),
        decreases paths.len() - i,
    {
        let ghost ov = string_views(out@);
        let mut j: usize = 0;
        while j < out.len() && path_before(out[j].as_str(), paths[i].as_str())
            invariant
                j <= out.len(),
                i < paths.len(),
                ov == string_views(out@),
                pv == string_views(paths@),
                forall|a: int| 0 <= a < j ==> path_lt(#[trigger] ov[a], pv[i as int]),
            decreases out.len() - j,
        {
            j = j + 1;
        }
        if j < out.len() && is_same_path(out[j].as_str(), paths[i].as_str()) {
            proof {
                lemma_skip_keeps_sorted_distinct(ov, pv, i as int, j as int);
            }
        } else {
            let item = owned(paths[i].as_str());
            out.insert(j, item);
            proof {
                assert(string_views(out@) =~= ov.insert(j as int, pv[i as int]));
                lemma_insert_keeps_sorted_distinct(ov, pv, i as int, j as int);
            }
        }
        i = i + 1;
    }
    out
}

/// Whether a path's file name is `name` (`path.file_name() == Some(name)`).
pub fn file_name_is(path: &str, name: &str) -> (r: bool)
    ensures
        r == (file_name(path@) == Some(name@)),
{
    let cs = components_of(path);
    if cs.len() == 0 {
        return false;
    }
    let last = &cs[cs.len() - 1];
    proof {
        assert(vviews(cs@).last() == last@);
    }
    if last.len() == 0 || last[0] != '\u{4}' {
        return false;
    }
    let rest = crate::text::copy_range(last, 1, last.len());
    let n = chars_of(name);
    proof {
        assert(rest@ =~= last@.skip(1));
    }
    chars_equal(&rest, &n)
}

/// `Path::file_name`, as text.
pub fn file_name_of(path: &str) -> (r: Option<String>)
    ensures
        match r {
            Some(n) => file_name(path@) == Some(n@),
            None => file_name(path@) is None,
        },
{
    let cs = components_of(path);
    if cs.len() == 0 {
        return None;
    }
    let last = &cs[cs.len() - 1];
    proof {
        assert(vviews(cs@).last() == last@);
    }
    if last.len() == 0 || last[0] != '\u{4}' {
        return None;
    }
    let rest = crate::text::copy_range(last, 1, last.len());
    proof {
        assert(rest@ =~= last@.skip(1));
    }
    Some(crate::text::string_of(&rest))
}

/// Two lists in increasing path order that hold the same paths are the
/// same list.
proof fn lemma_sorted_same_members(r1: Seq<Seq<char>>, r2: Seq<Seq<char>>)
    requires
        forall|i: int, j: int| 0 <= i < j < r1.len() ==> path_lt(#[trigger] r1[i], #[trigger] r1[j]),
        forall|i: int, j: int| 0 <= i < j < r2.len() ==> path_lt(#[trigger] r2[i], #[trigger] r2[j]),
        forall|i: int| 0 <= i < r1.len() ==> r2.contains(#[trigger] r1[i]),
        forall|i: int| 0 <= i < r2.len() ==> r1.contains(#[trigger] r2[i]),
    ensures
        r1 == r2,
    decreases r1.len(),
{
    if r1.len() == 0 {
        if r2.len() > 0 {
            assert(r1.contains(r2[0]));
        }
        assert(r1 =~= r2);
    } else if r2.len() == 0 {
        assert(r2.contains(r1[0]));
    } else {
        let x = r1[0];
        let y = r2[0];
        assert(r2.contains(x));
        assert(r1.contains(y));
        let k = choose|k: int| 0 <= k < r2.len() && r2[k] == x;
        let m = choose|m: int| 0 <= m < r1.len() && r1[m] == y;
        lemma_same_path_reflexive(x);
        lemma_same_path_not_lt(x, x);
        lemma_same_path_reflexive(y);
        lemma_same_path_not_lt(y, y);
        if k > 0 {
            assert(path_lt(r2[0], r2[k]));
            if m > 0 {
                assert(path_lt(r1[0], r1[m]));
                lemma_path_lt_transitive(x, y, x);
            }
            assert(false);
        }
        let t1 = r1.drop_first();
        let t2 = r2.drop_first();
        assert forall|i: int| 0 <= i < t1.len() implies t2.contains(#[trigger] t1[i]) by {
            assert(r1[i + 1] == t1[i]);
            assert(r2.contains(r1[i + 1]));
            let p = choose|p: int| 0 <= p < r2.len() && r2[p] == r1[i + 1];
            assert(path_lt(r1[0], r1[i + 1]));
            assert(p != 0);
            assert(t2[p - 1] == t1[i]);
        }
        assert forall|i: int| 0 <= i < t2.len() implies t1.contains(#[trigger] t2[i]) by {
            assert(r2[i + 1] == t2[i]);
            assert(r1.contains(r2[i + 1]));
            let p = choose|p: int| 0 <= p < r1.len() && r1[p] == r2[i + 1];
            assert(path_lt(r2[0], r2[i + 1]));
            assert(p != 0);
            assert(t1[p - 1] == t2[i]);
        }
        assert forall|i: int, j: int| 0 <= i < j < t1.len() implies path_lt(#[trigger] t1[i], #[trigger] t1[j]) by {
            assert(path_lt(r1[i + 1], r1[j + 1]));
        }
        assert forall|i: int, j: int| 0 <= i < j < t2.len() implies path_lt(#[trigger] t2[i], #[trigger] t2[j]) by {
            assert(path_lt(r2[i + 1], r2[j + 1]));
        }
        lemma_sorted_same_members(t1, t2);
        assert(r1 =~= seq![x] + t1);
        assert(r2 =~= seq![y] + t2);
    }
}

/// Every path of one list of `paths` sorted, each path once, is in any
/// other such list.
proof fn lemma_sorted_distinct_members(a: Seq<Seq<char>>, b: Seq<Seq<char>>, paths: Seq<Seq<char>>)
    requires
        sorted_distinct(a, paths),
        sorted_distinct(b, paths),
    ensures
        forall|i: int| 0 <= i < a.len() ==> b.contains(#[trigger] a[i]),
{
    reveal(sorted_distinct_upto);
    let n = paths.len() as int;
    assert forall|i: int| 0 <= i < a.len() implies b.contains(#[trigger] a[i]) by {
        assert(drawn_from(a, paths, n, i));
        let j = choose|j: int| #![trigger paths[j]] 0 <= j < n && a[i] == paths[j] && first_of_its_path(paths, j);
        assert(kept_in(b, paths, j));
        let i2 = choose|i2: int| #![trigger b[i2]] 0 <= i2 < b.len() && same_path(b[i2], paths[j]);
        assert(drawn_from(b, paths, n, i2));
        let j2 = choose|j2: int| #![trigger paths[j2]] 0 <= j2 < n && b[i2] == paths[j2] && first_of_its_path(
            paths,
            j2,
        );
        lemma_same_path_not_lt(paths[j2], paths[j]);
        if j2 < j {
            assert(!same_path(paths[j2], paths[j]));
        } else if j < j2 {
            assert(!same_path(paths[j], paths[j2]));
        }
        assert(b[i2] == a[i]);
    }
}

/// The paths sorted with each path once are one list: two lists that both
/// are `paths` so sorted are equal.
pub proof fn lemma_sorted_distinct_unique(r1: Seq<Seq<char>>, r2: Seq<Seq<char>>, paths: Seq<Seq<char>>)
    requires
        sorted_distinct(r1, paths),
        sorted_distinct(r2, paths),
    ensures
        r1 == r2,
{
    lemma_sorted_distinct_members(r1, r2, paths);
    lemma_sorted_distinct_members(r2, r1, paths);
    reveal(sorted_distinct_upto);
    lemma_sorted_same_members(r1, r2);
}

} // verus!
