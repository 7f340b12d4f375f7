//! A JSON value model: the values that remote updates, native messages and
//! configuration files carry, with accessors and compact serialization.

use vstd::prelude::*;
use crate::text::{append_chars, append_str, push_char};

verus! {

/// The mathematical value of a JSON document.
pub enum JsonV {
    Null,
    Bool(bool),
    /// An integer (the range of `i64` and `u64` together).
    Number(int),
    /// A number with a fraction or exponent, kept as its JSON text.
    Float(Seq<char>),
    Str(Seq<char>),
    Array(Seq<JsonV>),
    Object(Seq<(Seq<char>, JsonV)>),
}

/// A JSON document.
#[derive(Debug, PartialEq)]
pub enum Json {
    Null,
    Bool(bool),
    /// An integer in the range of `i64` or `u64`.
    Number(i128),
    /// A number with a fraction or exponent, kept as its JSON text.
    Float(String),
    Str(String),
    Array(Vec<Json>),
    /// Members in document order.
    Object(Vec<(String, Json)>),
}

pub open spec fn json_view(j: Json) -> JsonV
    decreases j,
{
    match j {
        Json::Null => JsonV::Null,
        Json::Bool(b) => JsonV::Bool(b),
        Json::Number(n) => JsonV::Number(n as int),
        Json::Float(t) => JsonV::Float(t@),
        Json::Str(s) => JsonV::Str(s@),
        Json::Array(v) => JsonV::Array(items_view(v@)),
        Json::Object(v) => JsonV::Object(entries_view(v@)),
    }
}

pub open spec fn items_view(s: Seq<Json>) -> Seq<JsonV>
    decreases s,
{
    if s.len() == 0 {
        Seq::empty()
    } else {
        seq![json_view(s[0])] + items_view(s.drop_first())
    }
}

pub open spec fn entries_view(s: Seq<(String, Json)>) -> Seq<(Seq<char>, JsonV)>
    decreases s,
{
    if s.len() == 0 {
        Seq::empty()
    } else {
        seq![(s[0].0@, json_view(s[0].1))] + entries_view(s.drop_first())
    }
}

impl View for Json {
    type V = JsonV;

    open spec fn view(&self) -> JsonV {
        json_view(*self)
    }
}

pub proof fn lemma_items_view(s: Seq<Json>)
    ensures
        items_view(s).len() == s.len(),
        forall|i: int| 0 <= i < s.len() ==> #[trigger] items_view(s)[i] == json_view(s[i]),
    decreases s.len(),
{
    if s.len() > 0 {
        lemma_items_view(s.drop_first());
        assert forall|i: int| 0 <= i < s.len() implies #[trigger] items_view(s)[i] == json_view(
            s[i],
        ) by {
            if i > 0 {
                assert(s.drop_first()[i - 1] == s[i]);
            }
        }
    }
}

pub proof fn lemma_entries_view(s: Seq<(String, Json)>)
    ensures
        entries_view(s).len() == s.len(),
        forall|i: int|
            0 <= i < s.len() ==> #[trigger] entries_view(s)[i] == (s[i].0@, json_view(s[i].1)),
    decreases s.len(),
{
    if s.len() > 0 {
        lemma_entries_view(s.drop_first());
        assert forall|i: int| 0 <= i < s.len() implies #[trigger] entries_view(s)[i] == (
            s[i].0@,
            json_view(s[i].1),
        ) by {
            if i > 0 {
                assert(s.drop_first()[i - 1] == s[i]);
            }
        }
    }
}

/// The value of the first member named `key`, looking from member `i` on.
pub open spec fn lookup_from(es: Seq<(Seq<char>, JsonV)>, key: Seq<char>, i: int) -> Option<JsonV>
    decreases es.len() - i,
{
    if i < 0 || i >= es.len() {
        None
    } else if es[i].0 == key {
        Some(es[i].1)
    } else {
        lookup_from(es, key, i + 1)
    }
}

/// `value.get(key)`: the member `key` of an object; `None` for other values.
pub open spec fn jget(j: JsonV, key: Seq<char>) -> Option<JsonV> {
    match j {
        JsonV::Object(es) => lookup_from(es, key, 0),
        _ => None,
    }
}

/// `get` on an optional value (`and_then(|v| v.get(key))`).
pub open spec fn jget_opt(j: Option<JsonV>, key: Seq<char>) -> Option<JsonV> {
    match j {
        Some(v) => jget(v, key),
        None => None,
    }
}

/// `Value::as_str`.
pub open spec fn jas_str(j: JsonV) -> Option<Seq<char>> {
    match j {
        JsonV::Str(s) => Some(s),
        _ => None,
    }
}

pub open spec fn jas_str_opt(j: Option<JsonV>) -> Option<Seq<char>> {
    match j {
        Some(v) => jas_str(v),
        None => None,
    }
}

/// `Value::as_i64`.
pub open spec fn jas_i64(j: JsonV) -> Option<int> {
    match j {
        JsonV::Number(n) => if i64::MIN <= n <= i64::MAX {
            Some(n)
        } else {
            None
        },
        _ => None,
    }
}

pub open spec fn jas_i64_opt(j: Option<JsonV>) -> Option<int> {
    match j {
        Some(v) => jas_i64(v),
        None => None,
    }
}

/// `Value::as_u64`.
pub open spec fn jas_u64(j: JsonV) -> Option<int> {
    match j {
        JsonV::Number(n) => if 0 <= n <= u64::MAX {
            Some(n)
        } else {
            None
        },
        _ => None,
    }
}

/// `Value::as_bool`.
pub open spec fn jas_bool(j: JsonV) -> Option<bool> {
    match j {
        JsonV::Bool(b) => Some(b),
        _ => None,
    }
}

/// `Value::as_array`.
pub open spec fn jas_array(j: JsonV) -> Option<Seq<JsonV>> {
    match j {
        JsonV::Array(items) => Some(items),
        _ => None,
    }
}

/// A lower-case hexadecimal digit.
pub open spec fn hex_digit(n: u32) -> char {
    if n < 10 {
        (n + 48) as char
    } else {
        (n + 87) as char
    }
}

/// How a JSON string writes one character: `"` and the backslash after a backslash;
/// backspace, tab, line feed, form feed and carriage return as `\b`, `\t`,
/// `\n`, `\f`, `\r`; the other characters below U+0020 as `\u00XX` with
/// lower-case hex digits; everything else as itself.
pub open spec fn json_char_escape(c: char) -> Seq<char> {
    let u = c as u32;
    if c == '"' {
        seq!['\\', '"']
    } else if c == '\\' {
        seq!['\\', '\\']
    } else if u == 0x08 {
        seq!['\\', 'b']
    } else if u == 0x09 {
        seq!['\\', 't']
    } else if u == 0x0a {
        seq!['\\', 'n']
    } else if u == 0x0c {
        seq!['\\', 'f']
    } else if u == 0x0d {
        seq!['\\', 'r']
    } else if u < 0x20 {
        seq!['\\', 'u', '0', '0', hex_digit(u / 16), hex_digit(u % 16)]
    } else {
        seq![c]
    }
}

/// The characters of a string, each written as a JSON string writes it.
pub open spec fn json_escaped(s: Seq<char>) -> Seq<char>
    decreases s.len(),
{
    if s.len() == 0 {
        Seq::empty()
    } else {
        json_escaped(s.drop_last()) + json_char_escape(s.last())
    }
}

/// The JSON text of a string: the string escaped, between double quotes.
pub open spec fn json_quoted(s: Seq<char>) -> Seq<char> {
    seq!['"'] + json_escaped(s) + seq!['"']
}

/// The JSON string literal for `s`.
///
/// Trusted: calls `serde_json::to_string` on a `&str`, which writes the
/// string between double quotes, escaping each character as
/// `json_char_escape` says (`format_escaped_str` and its `ESCAPE` table in
/// serde_json's serializer, with `write_char_escape` of the compact
/// formatter).  Serializing a `str` cannot fail, so the error arm is never
/// taken.
#[verifier::external_body]
fn quote_json_string(s: &str) -> (r: String)
    ensures
        r@ == json_quoted(s@),
{
    match serde_json::to_string(s) {
        Ok(t) => t,
        Err(_) => String::from("\"\""),
    }
}

/// The character of a decimal digit.
pub open spec fn digit_char(d: int) -> char {
    if d == 0 {
        '0'
    } else if d == 1 {
        '1'
    } else if d == 2 {
        '2'
    } else if d == 3 {
        '3'
    } else if d == 4 {
        '4'
    } else if d == 5 {
        '5'
    } else if d == 6 {
        '6'
    } else if d == 7 {
        '7'
    } else if d == 8 {
        '8'
    } else {
        '9'
    }
}

/// The decimal digits of `n`, most significant first, without leading zeros.
pub open spec fn digits(n: nat) -> Seq<char>
    decreases n,
{
    if n < 10 {
        seq![digit_char(n as int)]
    } else {
        digits(n / 10).push(digit_char((n % 10) as int))
    }
}

/// The decimal text of an integer (`i64`'s and `u64`'s `Display`).
pub open spec fn decimal(n: int) -> Seq<char> {
    if n < 0 {
        seq!['-'] + digits((-n) as nat)
    } else {
        digits(n as nat)
    }
}

fn digit(d: u128) -> (c: char)
    requires
        d < 10,
    ensures
        c == digit_char(d as int),
{
    if d == 0 {
        '0'
    } else if d == 1 {
        '1'
    } else if d == 2 {
        '2'
    } else if d == 3 {
        '3'
    } else if d == 4 {
        '4'
    } else if d == 5 {
        '5'
    } else if d == 6 {
        '6'
    } else if d == 7 {
        '7'
    } else if d == 8 {
        '8'
    } else {
        '9'
    }
}

/// The decimal text of `n`.
pub fn decimal_chars(n: i128) -> (r: Vec<char>)
    ensures
        r@ == decimal(n as int),
{
    let m: u128 = if n < 0 {
        ((-(n + 1)) as u128) + 1
    } else {
        n as u128
    };
    let mut q: u128 = m;
    let mut acc: Vec<char> = Vec::new();
    while q >= 10
        invariant
            digits(m as nat) == digits(q as nat) + acc@,
        decreases q,
    {
        let d = digit(q % 10);
        acc.insert(0, d);
        proof {
            assert(digits(q as nat) == digits((q / 10) as nat).push(d));
        }
        let ghost before = acc@;
        q = q / 10;
        proof {
            assert(digits(m as nat) =~= digits(q as nat) + acc@);
        }
    }
    let d = digit(q);
    acc.insert(0, d);
    proof {
        assert(digits(m as nat) =~= acc@);
    }
    if n < 0 {
        acc.insert(0, '-');
    }
    proof {
        if n < 0 {
            assert(acc@ =~= seq!['-'] + digits(m as nat));
        }
    }
    acc
}

/// Appends the decimal text of `n` to `out`.
pub fn append_decimal(out: &mut String, n: i128)
    ensures
        final(out)@ == old(out)@ + decimal(n as int),
{
    let d = decimal_chars(n);
    append_chars(out, &d);
}

/// The compact JSON text of a value (`Value::to_string`).
pub open spec fn json_text(j: JsonV) -> Seq<char>
    decreases j,
{
    match j {
        JsonV::Null => seq!['n', 'u', 'l', 'l'],
        JsonV::Bool(b) => if b {
            seq!['t', 'r', 'u', 'e']
        } else {
            seq!['f', 'a', 'l', 's', 'e']
        },
        JsonV::Number(n) => decimal(n),
        JsonV::Float(t) => t,
        JsonV::Str(s) => json_quoted(s),
        JsonV::Array(items) => seq!['['] + items_text(items) + seq![']'],
        JsonV::Object(es) => seq!['{'] + members_text(es) + seq!['}'],
    }
}

/// The elements of an array, separated by commas.
pub open spec fn items_text(items: Seq<JsonV>) -> Seq<char>
    decreases items,
{
    if items.len() == 0 {
        Seq::empty()
    } else if items.len() == 1 {
        json_text(items[0])
    } else {
        json_text(items[0]) + seq![','] + items_text(items.drop_first())
    }
}

/// The members of an object, separated by commas.
pub open spec fn members_text(es: Seq<(Seq<char>, JsonV)>) -> Seq<char>
    decreases es,
{
    if es.len() == 0 {
        Seq::empty()
    } else if es.len() == 1 {
        json_quoted(es[0].0) + seq![':'] + json_text(es[0].1)
    } else {
        json_quoted(es[0].0) + seq![':'] + json_text(es[0].1) + seq![','] + members_text(
            es.drop_first(),
        )
    }
}

proof fn lemma_items_text_push(s: Seq<JsonV>, x: JsonV)
    ensures
        items_text(s.push(x)) == if s.len() == 0 {
            json_text(x)
        } else {
            items_text(s) + seq![','] + json_text(x)
        },
    decreases s.len(),
{
    if s.len() > 0 {
        assert(s.push(x).drop_first() =~= s.drop_first().push(x));
        lemma_items_text_push(s.drop_first(), x);
        if s.len() == 1 {
            assert(s.drop_first() =~= Seq::<JsonV>::empty());
            assert(items_text(seq![x]) == json_text(x));
        } else {
            assert(items_text(s.push(x)) =~= items_text(s) + seq![','] + json_text(x));
        }
    }
}

proof fn lemma_members_text_push(s: Seq<(Seq<char>, JsonV)>, x: (Seq<char>, JsonV))
    ensures
        members_text(s.push(x)) == if s.len() == 0 {
            json_quoted(x.0) + seq![':'] + json_text(x.1)
        } else {
            members_text(s) + seq![','] + json_quoted(x.0) + seq![':'] + json_text(x.1)
        },
    decreases s.len(),
{
    if s.len() > 0 {
        assert(s.push(x).drop_first() =~= s.drop_first().push(x));
        lemma_members_text_push(s.drop_first(), x);
        if s.len() == 1 {
            assert(s.drop_first() =~= Seq::<(Seq<char>, JsonV)>::empty());
            assert(members_text(seq![x]) == json_quoted(x.0) + seq![':'] + json_text(x.1));
            assert(members_text(s.push(x)) =~= members_text(s) + seq![','] + json_quoted(x.0)
                + seq![':'] + json_text(x.1));
        } else {
            assert(members_text(s.push(x)) =~= members_text(s) + seq![','] + json_quoted(x.0)
                + seq![':'] + json_text(x.1));
        }
    }
}

/// A string value.
pub fn jstr(s: &str) -> (r: Json)
    ensures
        r@ == JsonV::Str(s@),
{
    Json::Str(crate::text::owned(s))
}

/// An object with no members.
pub fn empty_object() -> (r: Json)
    ensures
        r@ == JsonV::Object(Seq::empty()),
{
    let r = Json::Object(Vec::new());
    proof {
        assert(entries_view(Seq::<(String, Json)>::empty()) =~= Seq::<(Seq<char>, JsonV)>::empty());
    }
    r
}

/// An empty array.
pub fn empty_array() -> (r: Json)
    ensures
        r@ == JsonV::Array(Seq::empty()),
{
    let r = Json::Array(Vec::new());
    proof {
        assert(items_view(Seq::<Json>::empty()) =~= Seq::<JsonV>::empty());
    }
    r
}

/// An object with one member.
pub fn obj1(k1: &str, v1: Json) -> (r: Json)
    ensures
        r@ == JsonV::Object(seq![(k1@, v1@)]),
{
    let ghost e = seq![(k1@, v1@)];
    let mut m: Vec<(String, Json)> = Vec::new();
    m.push((crate::text::owned(k1), v1));
    proof {
        lemma_entries_view(m@);
        assert(entries_view(m@) =~= e);
    }
    Json::Object(m)
}

/// An object with two members, in order.
pub fn obj2(k1: &str, v1: Json, k2: &str, v2: Json) -> (r: Json)
    ensures
        r@ == JsonV::Object(seq![(k1@, v1@), (k2@, v2@)]),
{
    let ghost e = seq![(k1@, v1@), (k2@, v2@)];
    let mut m: Vec<(String, Json)> = Vec::new();
    m.push((crate::text::owned(k1), v1));
    m.push((crate::text::owned(k2), v2));
    proof {
        lemma_entries_view(m@);
        assert(entries_view(m@) =~= e);
    }
    Json::Object(m)
}

/// An object with three members, in order.
pub fn obj3(k1: &str, v1: Json, k2: &str, v2: Json, k3: &str, v3: Json) -> (r: Json)
    ensures
        r@ == JsonV::Object(seq![(k1@, v1@), (k2@, v2@), (k3@, v3@)]),
{
    let ghost e = seq![(k1@, v1@), (k2@, v2@), (k3@, v3@)];
    let mut m: Vec<(String, Json)> = Vec::new();
    m.push((crate::text::owned(k1), v1));
    m.push((crate::text::owned(k2), v2));
    m.push((crate::text::owned(k3), v3));
    proof {
        lemma_entries_view(m@);
        assert(entries_view(m@) =~= e);
    }
    Json::Object(m)
}

/// An object with four members, in order.
pub fn obj4(k1: &str, v1: Json, k2: &str, v2: Json, k3: &str, v3: Json, k4: &str, v4: Json) -> (r: Json)
    ensures
        r@ == JsonV::Object(seq![(k1@, v1@), (k2@, v2@), (k3@, v3@), (k4@, v4@)]),
{
    let ghost e = seq![(k1@, v1@), (k2@, v2@), (k3@, v3@), (k4@, v4@)];
    let mut m: Vec<(String, Json)> = Vec::new();
    m.push((crate::text::owned(k1), v1));
    m.push((crate::text::owned(k2), v2));
    m.push((crate::text::owned(k3), v3));
    m.push((crate::text::owned(k4), v4));
    proof {
        lemma_entries_view(m@);
        assert(entries_view(m@) =~= e);
    }
    Json::Object(m)
}

/// An object with five members, in order.
pub fn obj5(
    k1: &str,
    v1: Json,
    k2: &str,
    v2: Json,
    k3: &str,
    v3: Json,
    k4: &str,
    v4: Json,
    k5: &str,
    v5: Json,
) -> (r: Json)
    ensures
        r@ == JsonV::Object(seq![(k1@, v1@), (k2@, v2@), (k3@, v3@), (k4@, v4@), (k5@, v5@)]),
{
    let ghost e = seq![(k1@, v1@), (k2@, v2@), (k3@, v3@), (k4@, v4@), (k5@, v5@)];
    let mut m: Vec<(String, Json)> = Vec::new();
    m.push((crate::text::owned(k1), v1));
    m.push((crate::text::owned(k2), v2));
    m.push((crate::text::owned(k3), v3));
    m.push((crate::text::owned(k4), v4));
    m.push((crate::text::owned(k5), v5));
    proof {
        lemma_entries_view(m@);
        assert(entries_view(m@) =~= e);
    }
    Json::Object(m)
}

/// An object with six members, in order.
pub fn obj6(
    k1: &str,
    v1: Json,
    k2: &str,
    v2: Json,
    k3: &str,
    v3: Json,
    k4: &str,
    v4: Json,
    k5: &str,
    v5: Json,
    k6: &str,
    v6: Json,
) -> (r: Json)
    ensures
        r@ == JsonV::Object(
            seq![(k1@, v1@), (k2@, v2@), (k3@, v3@), (k4@, v4@), (k5@, v5@), (k6@, v6@)],
        ),
{
    let ghost e = seq![(k1@, v1@), (k2@, v2@), (k3@, v3@), (k4@, v4@), (k5@, v5@), (k6@, v6@)];
    let mut m: Vec<(String, Json)> = Vec::new();
    m.push((crate::text::owned(k1), v1));
    m.push((crate::text::owned(k2), v2));
    m.push((crate::text::owned(k3), v3));
    m.push((crate::text::owned(k4), v4));
    m.push((crate::text::owned(k5), v5));
    m.push((crate::text::owned(k6), v6));
    proof {
        lemma_entries_view(m@);
        assert(entries_view(m@) =~= e);
    }
    Json::Object(m)
}

/// An array of one value.
pub fn arr1(v1: Json) -> (r: Json)
    ensures
        r@ == JsonV::Array(seq![v1@]),
{
    let ghost e = seq![v1@];
    let mut m: Vec<Json> = Vec::new();
    m.push(v1);
    proof {
        lemma_items_view(m@);
        assert(items_view(m@) =~= e);
    }
    Json::Array(m)
}

/// An array of two values, in order.
pub fn arr2(v1: Json, v2: Json) -> (r: Json)
    ensures
        r@ == JsonV::Array(seq![v1@, v2@]),
{
    let ghost e = seq![v1@, v2@];
    let mut m: Vec<Json> = Vec::new();
    m.push(v1);
    m.push(v2);
    proof {
        lemma_items_view(m@);
        assert(items_view(m@) =~= e);
    }
    Json::Array(m)
}

impl Json {
    /// Appends the compact JSON text of this value to `out`.
    #[verifier::loop_isolation(false)]
    pub fn write_compact(&self, out: &mut String)
        ensures
            final(out)@ == old(out)@ + json_text(self@),
        decreases self,
    {
        match self {
            Json::Null => {
                proof {
                    reveal_strlit("null");
                }
                append_str(out, "null");
            },
            Json::Bool(b) => {
                if *b {
                    proof {
                        reveal_strlit("true");
                    }
                    append_str(out, "true");
                } else {
                    proof {
                        reveal_strlit("false");
                    }
                    append_str(out, "false");
                }
            },
            Json::Number(n) => {
                append_decimal(out, *n);
            },
            Json::Float(t) => {
                append_str(out, t.as_str());
            },
            Json::Str(st) => {
                let q = quote_json_string(st.as_str());
                append_str(out, q.as_str());
            },
            Json::Array(v) => {
                push_char(out, '[');
                let ghost start = old(out)@.push('[');
                proof {
                    lemma_items_view(v@);
                    assert(items_view(v@).take(0) =~= Seq::<JsonV>::empty());
                    assert(out@ =~= start + items_text(items_view(v@).take(0)));
                }
                let mut i: usize = 0;
                while i < v.len()
                    invariant
                        i <= v.len(),
                        items_view(v@).len() == v@.len(),
                        forall|j: int|
                            0 <= j < v@.len() ==> #[trigger] items_view(v@)[j] == json_view(v@[j]),
                        out@ == start + items_text(items_view(v@).take(i as int)),
                    decreases v.len() - i,
                {
                    if i > 0 {
                        push_char(out, ',');
                    }
                    proof {
                        vstd::std_specs::vec::axiom_vec_index_decreases(*v, i as int);
                    }
                    v[i].write_compact(out);
                    proof {
                        let p = items_view(v@).take(i as int);
                        assert(items_view(v@).take(i + 1) =~= p.push(json_view(v@[i as int])));
                        lemma_items_text_push(p, json_view(v@[i as int]));
                        if i > 0 {
                            assert(out@ =~= start + items_text(items_view(v@).take(i + 1)));
                        } else {
                            assert(out@ =~= start + items_text(items_view(v@).take(i + 1)));
                        }
                    }
                    i = i + 1;
                }
                push_char(out, ']');
                proof {
                    assert(items_view(v@).take(v@.len() as int) =~= items_view(v@));
                    assert(out@ =~= old(out)@ + json_text(self@));
                }
            },
            Json::Object(es) => {
                push_char(out, '{');
                let ghost start = old(out)@.push('{');
                proof {
                    lemma_entries_view(es@);
                    assert(entries_view(es@).take(0) =~= Seq::<(Seq<char>, JsonV)>::empty());
                    assert(out@ =~= start + members_text(entries_view(es@).take(0)));
                }
                let mut i: usize = 0;
                while i < es.len()
                    invariant
                        i <= es.len(),
                        entries_view(es@).len() == es@.len(),
                        forall|j: int|
                            0 <= j < es@.len() ==> #[trigger] entries_view(es@)[j] == (
                                es@[j].0@,
                                json_view(es@[j].1),
                            ),
                        out@ == start + members_text(entries_view(es@).take(i as int)),
                    decreases es.len() - i,
                {
                    if i > 0 {
                        push_char(out, ',');
                    }
                    let q = quote_json_string(es[i].0.as_str());
                    append_str(out, q.as_str());
                    push_char(out, ':');
                    proof {
                        vstd::std_specs::vec::axiom_vec_index_decreases(*es, i as int);
                        assert(decreases_to!(es@[i as int] => es@[i as int].1));
                    }
                    es[i].1.write_compact(out);
                    proof {
                        let p = entries_view(es@).take(i as int);
                        let x = entries_view(es@)[i as int];
                        assert(entries_view(es@).take(i + 1) =~= p.push(x));
                        lemma_members_text_push(p, x);
                        assert(out@ =~= start + members_text(entries_view(es@).take(i + 1)));
                    }
                    i = i + 1;
                }
                push_char(out, '}');
                proof {
                    assert(entries_view(es@).take(es@.len() as int) =~= entries_view(es@));
                    assert(out@ =~= old(out)@ + json_text(self@));
                }
            },
        }
    }

    /// The compact JSON text of this value (`Value::to_string`).
    pub fn to_compact(&self) -> (r: String)
        ensures
            r@ == json_text(self@),
    {
        let mut out = String::new();
        self.write_compact(&mut out);
        proof {
            assert(out@ =~= json_text(self@));
        }
        out
    }

    /// The member `key` of an object (`Value::get` with a string key).
    #[verifier::loop_isolation(false)]
    pub fn get(&self, key: &str) -> (r: Option<&Json>)
        ensures
            r matches Some(x) ==> jget(self@, key@) == Some(x@),
            r is None ==> jget(self@, key@) is None,
    {
        match self {
            Json::Object(es) => {
                let k = key.to_owned();
                proof {
                    lemma_entries_view(es@);
                }
                let mut i: usize = 0;
                while i < es.len()
                    invariant
                        i <= es.len(),
                        k@ == key@,
                        entries_view(es@).len() == es@.len(),
                        forall|j: int|
                            0 <= j < es@.len() ==> #[trigger] entries_view(es@)[j] == (
                                es@[j].0@,
                                json_view(es@[j].1),
                            ),
                        lookup_from(entries_view(es@), key@, 0) == lookup_from(
                            entries_view(es@),
                            key@,
                            i as int,
                        ),
                    decreases es.len() - i,
                {
                    if es[i].0 == k {
                        proof {
                            assert(entries_view(es@)[i as int].0 == key@);
                            assert(self@ == JsonV::Object(entries_view(es@)));
                        }
                        return Some(&es[i].1);
                    }
                    i = i + 1;
                }
                None
            },
            _ => None,
        }
    }

    /// `Value::as_str`.
    pub fn as_str(&self) -> (r: Option<&String>)
        ensures
            r matches Some(s) ==> jas_str(self@) == Some(s@),
            r is None ==> jas_str(self@) is None,
    {
        match self {
            Json::Str(s) => Some(s),
            _ => None,
        }
    }

    /// `Value::as_i64`.
    pub fn as_i64(&self) -> (r: Option<i64>)
        ensures
            r matches Some(n) ==> jas_i64(self@) == Some(n as int),
            r is None ==> jas_i64(self@) is None,
    {
        match self {
            Json::Number(n) => {
                if i64::MIN as i128 <= *n && *n <= i64::MAX as i128 {
                    Some(*n as i64)
                } else {
                    None
                }
            },
            _ => None,
        }
    }

    /// `Value::as_u64`.
    pub fn as_u64(&self) -> (r: Option<u64>)
        ensures
            r matches Some(n) ==> jas_u64(self@) == Some(n as int),
            r is None ==> jas_u64(self@) is None,
    {
        match self {
            Json::Number(n) => {
                if 0 <= *n && *n <= u64::MAX as i128 {
                    Some(*n as u64)
                } else {
                    None
                }
            },
            _ => None,
        }
    }

    /// `Value::as_bool`.
    pub fn as_bool(&self) -> (r: Option<bool>)
        ensures
            r == jas_bool(self@),
    {
        match self {
            Json::Bool(b) => Some(*b),
            _ => None,
        }
    }

    /// `Value::as_array`.
    pub fn as_array(&self) -> (r: Option<&Vec<Json>>)
        ensures
            r matches Some(v) ==> jas_array(self@) == Some(items_view(v@)),
            r is None ==> jas_array(self@) is None,
    {
        match self {
            Json::Array(v) => Some(v),
            _ => None,
        }
    }

    /// A copy of this value.
    #[verifier::loop_isolation(false)]
    pub fn copy(&self) -> (r: Json)
        ensures
            r@ == self@,
        decreases self,
    {
        match self {
            Json::Null => Json::Null,
            Json::Bool(b) => Json::Bool(*b),
            Json::Number(n) => Json::Number(*n),
            Json::Float(t) => Json::Float(t.clone()),
            Json::Str(s) => Json::Str(s.clone()),
            Json::Array(v) => {
                let mut out: Vec<Json> = Vec::new();
                let mut i: usize = 0;
                while i < v.len()
                    invariant
                        i <= v.len(),
                        out@.len() == i,
                        forall|j: int| 0 <= j < i ==> json_view(#[trigger] out@[j]) == json_view(
                            v@[j],
                        ),
                    decreases v.len() - i,
                {
                    proof {
                        vstd::std_specs::vec::axiom_vec_index_decreases(*v, i as int);
                    }
                    let c = v[i].copy();
                    out.push(c);
                    i = i + 1;
                }
                proof {
                    lemma_items_view(out@);
                    lemma_items_view(v@);
                    assert(items_view(out@) =~= items_view(v@));
                }
                Json::Array(out)
            },
            Json::Object(es) => {
                let mut out: Vec<(String, Json)> = Vec::new();
                let mut i: usize = 0;
                while i < es.len()
                    invariant
                        i <= es.len(),
                        out@.len() == i,
                        forall|j: int|
                            0 <= j < i ==> (#[trigger] out@[j]).0@ == es@[j].0@ && json_view(
                                out@[j].1,
                            ) == json_view(es@[j].1),
                    decreases es.len() - i,
                {
                    let k = es[i].0.clone();
                    proof {
                        vstd::std_specs::vec::axiom_vec_index_decreases(*es, i as int);
                        assert(decreases_to!(es@[i as int] => es@[i as int].1));
                    }
                    let c = es[i].1.copy();
                    out.push((k, c));
                    i = i + 1;
                }
                proof {
                    lemma_entries_view(out@);
                    lemma_entries_view(es@);
                    assert(entries_view(out@) =~= entries_view(es@));
                }
                Json::Object(out)
            },
        }
    }
}

} // verus!
