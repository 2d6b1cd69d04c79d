//! JSON text: string literals, and values read out of it.

use crate::encoding::char_len;
use crate::encoding::lemma_ascii_len;
use crate::encoding::lemma_utf8_len_add;
use crate::encoding::lemma_utf8_len_push;
use crate::encoding::len_utf8;
use crate::encoding::utf8_len;
use crate::text::chars_of;
use crate::value::maybe_json;
use crate::value::seen;
use crate::value::Json;
use crate::value::JsonNumber;
use crate::value::JsonView;
use vstd::prelude::*;
use vstd::utf8::*;

verus! {

/// The lower-case hexadecimal digit for `n`, which is below sixteen.
pub open spec fn hex_digit(n: int) -> char {
    if n < 10 {
        ('0' as int + n) as char
    } else {
        ('a' as int + n - 10) as char
    }
}

/// `c` as it stands inside a JSON string literal.
pub open spec fn escaped_char(c: char) -> Seq<char> {
    if c == '"' {
        seq!['\\', '"']
    } else if c == '\\' {
        seq!['\\', '\\']
    } else if c == '\u{8}' {
        seq!['\\', 'b']
    } else if c == '\t' {
        seq!['\\', 't']
    } else if c == '\n' {
        seq!['\\', 'n']
    } else if c == '\u{c}' {
        seq!['\\', 'f']
    } else if c == '\r' {
        seq!['\\', 'r']
    } else if c <= '\u{1f}' {
        seq!['\\', 'u', '0', '0', hex_digit(c as int / 16), hex_digit(c as int % 16)]
    } else {
        seq![c]
    }
}

/// `s` as it stands inside a JSON string literal.
pub open spec fn escaped(s: Seq<char>) -> Seq<char>
    decreases s.len(),
{
    if s.len() == 0 {
        seq![]
    } else {
        escaped(s.drop_last()) + escaped_char(s.last())
    }
}

/// `s` as a JSON string literal.
pub open spec fn json_string(s: Seq<char>) -> Seq<char> {
    seq!['"'] + escaped(s) + seq!['"']
}

/// The number of bytes of `c` inside a JSON string literal.
pub open spec fn escaped_char_len(c: char) -> nat {
    if c == '"' || c == '\\' || c == '\u{8}' || c == '\t' || c == '\n' || c == '\u{c}' || c == '\r' {
        2
    } else if c <= '\u{1f}' {
        6
    } else {
        char_len(c)
    }
}

/// The number of bytes of `s` inside a JSON string literal.
pub open spec fn escaped_len(s: Seq<char>) -> nat
    decreases s.len(),
{
    if s.len() == 0 {
        0
    } else {
        escaped_len(s.drop_last()) + escaped_char_len(s.last())
    }
}

proof fn lemma_escaped_char_len(c: char)
    ensures
        utf8_len(escaped_char(c)) == escaped_char_len(c),
{
    if c <= '\u{1f}' || c == '"' || c == '\\' {
        assert(is_ascii_chars(escaped_char(c)));
        lemma_ascii_len(escaped_char(c));
    } else {
        lemma_utf8_len_push(seq![], c);
        assert(Seq::<char>::empty().push(c) =~= seq![c]);
    }
}

/// [`escaped_len`] is the length of the escaped text.
pub proof fn lemma_escaped_len(s: Seq<char>)
    ensures
        utf8_len(escaped(s)) == escaped_len(s),
    decreases s.len(),
{
    if s.len() > 0 {
        lemma_escaped_len(s.drop_last());
        lemma_utf8_len_add(escaped(s.drop_last()), escaped_char(s.last()));
        lemma_escaped_char_len(s.last());
    }
}

/// A JSON string literal is two bytes longer than the text inside it.
pub proof fn lemma_json_string_len(s: Seq<char>)
    ensures
        utf8_len(json_string(s)) == escaped_len(s) + 2,
{
    let quote: Seq<char> = seq!['"'];
    lemma_escaped_len(s);
    assert(is_ascii_chars(quote));
    lemma_ascii_len(quote);
    lemma_utf8_len_add(quote, escaped(s));
    lemma_utf8_len_add(quote + escaped(s), quote);
}

/// A single character is as long as its escape.
pub proof fn lemma_escaped_len_one(c: char)
    ensures
        escaped_len(seq![c]) == escaped_char_len(c),
{
    let one: Seq<char> = seq![c];
    assert(one.drop_last() =~= Seq::<char>::empty());
    assert(escaped_len(one.drop_last()) == 0);
    assert(one.last() == c);
}

/// The parts of a text are escaped one by one.
pub proof fn lemma_escaped_len_add(a: Seq<char>, b: Seq<char>)
    ensures
        escaped_len(a + b) == escaped_len(a) + escaped_len(b),
    decreases b.len(),
{
    if b.len() == 0 {
        assert(a + b =~= a);
    } else {
        assert((a + b).drop_last() =~= a + b.drop_last());
        lemma_escaped_len_add(a, b.drop_last());
    }
}

/// A prefix is no longer than the whole.
pub proof fn lemma_escaped_len_prefix(s: Seq<char>, n: int)
    requires
        0 <= n <= s.len(),
    ensures
        escaped_len(s.take(n)) <= escaped_len(s),
{
    assert(s =~= s.take(n) + s.skip(n));
    lemma_escaped_len_add(s.take(n), s.skip(n));
}

/// The number of bytes of `c` inside a JSON string literal.
pub fn json_escaped_char_len(c: char) -> (r: usize)
    ensures
        r == escaped_char_len(c),
        1 <= r <= 6,
{
    if c == '"' || c == '\\' || c == '\u{8}' || c == '\t' || c == '\n' || c == '\u{c}' || c == '\r' {
        2
    } else if c <= '\u{1f}' {
        6
    } else {
        len_utf8(c)
    }
}

/// The number of bytes of `s` inside a JSON string literal, or nothing when
/// they are more than `limit`.
pub fn json_escaped_len_within(s: &str, limit: usize) -> (r: Option<usize>)
    ensures
        r is Some <==> escaped_len(s@) <= limit,
        r matches Some(n) ==> n == escaped_len(s@),
{
    let cs = chars_of(s);
    let mut n: usize = 0;
    let mut i: usize = 0;
    while i < cs.len()
        invariant
            i <= cs@.len(),
            cs@ == s@,
            n == escaped_len(cs@.take(i as int)),
            n <= limit,
        decreases cs@.len() - i,
    {
        let w: usize = json_escaped_char_len(cs[i]);
        proof {
            assert(cs@.take(i + 1).drop_last() =~= cs@.take(i as int));
            lemma_escaped_len_prefix(cs@, i + 1);
        }
        if w > limit - n {
            return None;
        }
        n += w;
        i += 1;
    }
    assert(cs@.take(cs@.len() as int) =~= cs@);
    Some(n)
}

/// The number of bytes of `s` inside a JSON string literal.
pub fn json_escaped_len(s: &str) -> (r: usize)
    requires
        escaped_len(s@) <= usize::MAX,
    ensures
        r == escaped_len(s@),
{
    match json_escaped_len_within(s, usize::MAX) {
        Some(n) => n,
        None => 0,
    }
}

/// `serde_json::to_string` on a string: the text between double quotes, with
/// quotes, backslashes and control characters escaped and every other
/// character as it is.
#[verifier::external_body]
pub(crate) fn quoted(s: &str) -> (r: String)
    ensures
        r@ == json_string(s@),
{
    serde_json::to_string(s).expect("a string serializes")
}

/// `serde_json::Value`, a JSON value as the parser hands it out.
#[verifier::external_type_specification]
#[verifier::external_body]
pub struct ExValue(serde_json::Value);

/// The JSON value that a `serde_json::Value` holds, with the members of an
/// object in the order in which its map hands them out.
pub uninterp spec fn value_seen(v: serde_json::Value) -> JsonView;

/// What `serde_json::from_str` reads out of a text: a value, or nothing where
/// the text is not one JSON value.
pub uninterp spec fn parsed_json(text: Seq<char>) -> Option<JsonView>;

/// One level of a `serde_json::Value`.
enum OpenValue<'a> {
    Null,
    Bool(bool),
    Number(JsonNumber),
    Text(String),
    Array(&'a Vec<serde_json::Value>),
    Object(Vec<(&'a String, &'a serde_json::Value)>),
}

/// What one level of a value says of the whole.
spec fn opened(o: OpenValue) -> JsonView {
    match o {
        OpenValue::Null => JsonView::Null,
        OpenValue::Bool(b) => JsonView::Bool(b),
        OpenValue::Number(n) => JsonView::Number(n@),
        OpenValue::Text(s) => JsonView::Text(s@),
        OpenValue::Array(items) => JsonView::Array(
            items@.map_values(|v: serde_json::Value| value_seen(v)),
        ),
        OpenValue::Object(members) => JsonView::Object(
            members@.map_values(
                |m: (&String, &serde_json::Value)| (m.0@, value_seen(*m.1)),
            ),
        ),
    }
}

/// `serde_json::from_str` into a `serde_json::Value`: the value that the text
/// is, which is what [`parsed_json`] names; nothing where it is none.
#[verifier::external_body]
fn read_value(text: &str) -> (r: Option<serde_json::Value>)
    ensures
        match r {
            Some(v) => parsed_json(text@) == Some(value_seen(v)),
            None => parsed_json(text@) is None,
        },
{
    serde_json::from_str::<serde_json::Value>(text).ok()
}

/// The variants of `serde_json::Value`, with the three kinds of
/// `serde_json::Number` told apart by `as_u64` and `as_i64`, and the members of
/// an object as `Map::iter` gives them.
#[verifier::external_body]
fn open_value(v: &serde_json::Value) -> (r: OpenValue<'_>)
    ensures
        value_seen(*v) == opened(r),
{
    match v {
        serde_json::Value::Null => OpenValue::Null,
        serde_json::Value::Bool(b) => OpenValue::Bool(*b),
        serde_json::Value::Number(n) => OpenValue::Number(match (n.as_u64(), n.as_i64()) {
            (Some(u), _) => JsonNumber::Unsigned(u),
            (None, Some(i)) => JsonNumber::Negative(i),
            (None, None) => JsonNumber::Other(n.to_string()),
        }),
        serde_json::Value::String(s) => OpenValue::Text(s.clone()),
        serde_json::Value::Array(items) => OpenValue::Array(items),
        serde_json::Value::Object(map) => OpenValue::Object(map.iter().collect()),
    }
}

/// The JSON value that a `serde_json::Value` holds.
pub fn json_of(v: &serde_json::Value) -> (r: Json)
    ensures
        r@ == value_seen(*v),
    decreases value_seen(*v),
{
    let ghost whole = value_seen(*v);
    match open_value(v) {
        OpenValue::Null => Json::Null,
        OpenValue::Bool(b) => Json::Bool(b),
        OpenValue::Number(n) => Json::Number(n),
        OpenValue::Text(s) => Json::Text(s),
        OpenValue::Array(items) => {
            let mut out: Vec<Json> = Vec::new();
            let mut i: usize = 0;
            while i < items.len()
                invariant
                    i <= items@.len(),
                    whole == value_seen(*v),
                    whole == opened(OpenValue::Array(items)),
                    out@.len() == i,
                    forall|k: int|
                        0 <= k < i ==> (#[trigger] out@[k])@ == value_seen(items@[k]),
                decreases items@.len() - i,
            {
                proof {
                    let inner = whole->Array_0;
                    assert(decreases_to!(whole => inner));
                    assert(decreases_to!(inner => inner[i as int]));
                    assert(inner[i as int] == value_seen(items@[i as int]));
                }
                let item = json_of(&items[i]);
                out.push(item);
                i += 1;
            }
            assert(seen(Json::Array(out))->Array_0 =~= whole->Array_0);
            Json::Array(out)
        },
        OpenValue::Object(members) => {
            let mut out: Vec<(String, Json)> = Vec::new();
            let mut i: usize = 0;
            while i < members.len()
                invariant
                    i <= members@.len(),
                    whole == value_seen(*v),
                    whole == opened(OpenValue::Object(members)),
                    out@.len() == i,
                    forall|k: int|
                        0 <= k < i ==> (#[trigger] out@[k]).0@ == members@[k].0@ && out@[k].1@
                            == value_seen(*members@[k].1),
                decreases members@.len() - i,
            {
                let (name, value) = members[i];
                proof {
                    let inner = whole->Object_0;
                    let member = inner[i as int];
                    assert(decreases_to!(whole => inner));
                    assert(decreases_to!(inner => inner[i as int]));
                    assert(decreases_to!(member => member.1));
                    assert(member.1 == value_seen(*value));
                }
                out.push((name.clone(), json_of(value)));
                i += 1;
            }
            assert(seen(Json::Object(out))->Object_0 =~= whole->Object_0);
            Json::Object(out)
        },
    }
}

/// The JSON value that a text is; nothing where it is none.
pub fn parse_json(text: &str) -> (r: Option<Json>)
    ensures
        maybe_json(r) == parsed_json(text@),
{
    match read_value(text) {
        Some(v) => Some(json_of(&v)),
        None => None,
    }
}

/// A text is escaped character by character, and a character that needs no
/// escape stays as it is.
pub proof fn law_escaping_goes_by_character(a: Seq<char>, b: Seq<char>, c: char)
    ensures
        escaped(a + b) == escaped(a) + escaped(b),
        escaped(a.push(c)) == escaped(a) + escaped_char(c),
        c > '\u{1f}' && c != '"' && c != '\\' ==> escaped_char(c) == seq![c],
        escaped(seq![]).len() == 0,
    decreases b.len(),
{
    assert(a.push(c).drop_last() =~= a);
    if b.len() == 0 {
        assert(a + b =~= a);
        assert(escaped(a) + Seq::<char>::empty() =~= escaped(a));
    } else {
        law_escaping_goes_by_character(a, b.drop_last(), c);
        assert((a + b).drop_last() =~= a + b.drop_last());
        assert((a + b).last() == b.last());
        assert(escaped(a + b) =~= escaped(a) + escaped(b));
    }
}

/// An escape starts with a backslash and holds no control character, and a
/// quotation mark stands in none but right behind the backslash.
proof fn lemma_escape_is_closed(c: char)
    ensures
        ({
            let e = escaped_char(c);
            &&& forall|i: int| 0 <= i < e.len() ==> #[trigger] e[i] > '\u{1f}'
            &&& forall|i: int|
                0 <= i < e.len() && #[trigger] e[i] == '"' ==> i == 1 && e[0] == '\\'
        }),
{
    let (high, low) = (c as int / 16, c as int % 16);
    if c <= '\u{1f}' {
        assert(0 <= high < 2 && 0 <= low < 16);
        assert(hex_digit(high) as int == '0' as int + high);
        assert(hex_digit(low) as int >= '0' as int && hex_digit(low) as int <= 'f' as int);
    }
}

/// Nothing inside a string literal can end it or break the line: it holds no
/// control character, and every quotation mark has a backslash before it.
pub proof fn law_literals_are_closed(s: Seq<char>)
    ensures
        forall|i: int| 0 <= i < escaped(s).len() ==> #[trigger] escaped(s)[i] > '\u{1f}',
        forall|i: int|
            0 <= i < escaped(s).len() && #[trigger] escaped(s)[i] == '"' ==> i > 0 && escaped(s)[i
                - 1] == '\\',
    decreases s.len(),
{
    if s.len() > 0 {
        law_literals_are_closed(s.drop_last());
        lemma_escape_is_closed(s.last());
        let (front, last) = (escaped(s.drop_last()), escaped_char(s.last()));
        let all = escaped(s);
        assert forall|i: int| 0 <= i < all.len() implies #[trigger] all[i] > '\u{1f}' by {
            if i < front.len() {
                assert(all[i] == front[i]);
            } else {
                assert(all[i] == last[i - front.len()]);
            }
        }
        assert forall|i: int| 0 <= i < all.len() && #[trigger] all[i] == '"' implies i > 0 && all[i
            - 1] == '\\' by {
            if i < front.len() {
                assert(all[i] == front[i]);
                assert(all[i - 1] == front[i - 1]);
            } else {
                assert(all[i] == last[i - front.len()]);
                assert(i - front.len() == 1);
                assert(all[i - 1] == last[0]);
            }
        }
    }
}

} // verus!
