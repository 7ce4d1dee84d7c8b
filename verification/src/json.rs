//! JSON values as the log normalisation reads them, parsed and quoted by `serde_json`.

use vstd::prelude::*;

use crate::text::no_newline;

verus! {

/// A parsed JSON value.
pub enum JsonValue {
    Null,
    Bool(bool),
    /// A number, held as the `i64` it equals when it is an integer within
    /// `i64`'s range (what `serde_json::Number::as_i64` gives), else `None`.
    Number(Option<i64>),
    Str(String),
    Array(Vec<JsonValue>),
    /// The members of an object, each key once.
    Object(Vec<(String, JsonValue)>),
}

#[verifier::external_type_specification]
#[verifier::external_body]
pub struct ExSerdeJsonValue(serde_json::Value);

/// What `serde_json::from_str::<serde_json::Value>` makes of `text`, in the
/// form of [`JsonValue`], or `None` where `text` is not one JSON value.
pub uninterp spec fn parsed_json(text: Seq<char>) -> Option<JsonValue>;

/// The lower-case hexadecimal digit for `d` (below 16).
pub open spec fn hex_digit(d: nat) -> char {
    if d < 10 {
        digit_char(d)
    } else if d == 10 {
        'a'
    } else if d == 11 {
        'b'
    } else if d == 12 {
        'c'
    } else if d == 13 {
        'd'
    } else if d == 14 {
        'e'
    } else {
        'f'
    }
}

/// How a JSON string writes the character `c`: quote and backslash behind a
/// backslash, the named escapes for backspace, form feed, line feed, carriage
/// return and tab, `\u00XX` for the other characters below U+0020, and any
/// other character as itself.
pub open spec fn escaped_char(c: char) -> Seq<char> {
    if c == '"' {
        seq!['\\', '"']
    } else if c == '\\' {
        seq!['\\', '\\']
    } else if c == '\u{8}' {
        seq!['\\', 'b']
    } else if c == '\u{c}' {
        seq!['\\', 'f']
    } else if c == '\n' {
        seq!['\\', 'n']
    } else if c == '\r' {
        seq!['\\', 'r']
    } else if c == '\t' {
        seq!['\\', 't']
    } else if (c as u32) < 0x20 {
        seq!['\\', 'u', '0', '0', hex_digit((c as u32 as nat) / 16), hex_digit((c as u32 as nat) % 16)]
    } else {
        seq![c]
    }
}

/// The characters of `s`, each written as a JSON string writes it.
pub open spec fn escaped(s: Seq<char>) -> Seq<char>
    decreases s.len(),
{
    if s.len() == 0 {
        Seq::<char>::empty()
    } else {
        escaped(s.drop_last()) + escaped_char(s.last())
    }
}

/// The JSON string literal for `s`, quotes included, as `serde_json` writes it.
pub open spec fn json_quoted(s: Seq<char>) -> Seq<char> {
    seq!['"'] + escaped(s) + seq!['"']
}

/// The character of the decimal digit `d` (below 10).
pub open spec fn digit_char(d: nat) -> char {
    if d == 0 {
        '0'
    } else if d == 1 {
        '1'
    } else if d == 2 {
        '2'
    } else if d == 3 {
        '3'
    } else if d == 4 {
        '4'
    } else if d == 5 {
        '5'
    } else if d == 6 {
        '6'
    } else if d == 7 {
        '7'
    } else if d == 8 {
        '8'
    } else {
        '9'
    }
}

/// The decimal digits of `n`, without leading zeros (`"0"` for zero).
pub open spec fn digits(n: nat) -> Seq<char>
    decreases n,
{
    if n < 10 {
        seq![digit_char(n)]
    } else {
        digits(n / 10).push(digit_char(n % 10))
    }
}

/// `n` written in decimal, with a leading `'-'` when negative.
pub open spec fn decimal_text(n: int) -> Seq<char> {
    if n < 0 {
        seq!['-'] + digits((-n) as nat)
    } else {
        digits(n as nat)
    }
}

/// The conversion half of [`parse_json`], apart only because it recurses:
/// turns a `serde_json::Value` into a [`JsonValue`] variant by variant, each
/// number into what `serde_json::Number::as_i64` gives for it, each object's
/// members in the order `serde_json::Map` holds them. Nothing is claimed of it
/// but what `parse_json` claims of its result.
#[verifier::external_body]
fn json_value_from(v: serde_json::Value) -> JsonValue {
    match v {
        serde_json::Value::Null => JsonValue::Null,
        serde_json::Value::Bool(b) => JsonValue::Bool(b),
        serde_json::Value::Number(n) => JsonValue::Number(n.as_i64()),
        serde_json::Value::String(s) => JsonValue::Str(s),
        serde_json::Value::Array(a) => JsonValue::Array(a.into_iter().map(json_value_from).collect()),
        serde_json::Value::Object(m) => JsonValue::Object(
            m.into_iter().map(|(k, v)| (k, json_value_from(v))).collect(),
        ),
    }
}

/// Parses `text` with `serde_json::from_str::<serde_json::Value>`.
/// Claimed: the result is `parsed_json(text@)`, a function of the text alone.
#[verifier::external_body]
pub(crate) fn parse_json(text: &str) -> (res: Option<JsonValue>)
    ensures
        res == parsed_json(text@),
{
    serde_json::from_str::<serde_json::Value>(text).ok().map(json_value_from)
}

/// Quotes `s` as a JSON string with `serde_json::to_string`.
/// Claimed: the result is `json_quoted(s@)`, the escaping of `serde_json`'s
/// `format_escaped_str` (serialising a `str` into memory cannot fail).
#[verifier::external_body]
pub(crate) fn quote_json(s: &str) -> (res: String)
    ensures
        res@ == json_quoted(s@),
{
    serde_json::to_string(s).unwrap_or_default()
}

/// The text of the decimal digit `d`.
fn digit_text(d: u64) -> (res: &'static str)
    requires
        d < 10,
    ensures
        res@ == seq![digit_char(d as nat)],
{
    proof {
        reveal_strlit("0");
        reveal_strlit("1");
        reveal_strlit("2");
        reveal_strlit("3");
        reveal_strlit("4");
        reveal_strlit("5");
        reveal_strlit("6");
        reveal_strlit("7");
        reveal_strlit("8");
        reveal_strlit("9");
    }
    if d == 0 {
        "0"
    } else if d == 1 {
        "1"
    } else if d == 2 {
        "2"
    } else if d == 3 {
        "3"
    } else if d == 4 {
        "4"
    } else if d == 5 {
        "5"
    } else if d == 6 {
        "6"
    } else if d == 7 {
        "7"
    } else if d == 8 {
        "8"
    } else {
        "9"
    }
}

/// Appends the decimal digits of `m` to `out`.
fn push_digits(out: &mut String, m: u64)
    ensures
        final(out)@ == old(out)@ + digits(m as nat),
    decreases m,
{
    if m >= 10 {
        push_digits(out, m / 10);
    }
    out.append(digit_text(m % 10));
    proof {
        if m < 10 {
            assert(m % 10 == m);
        }
    }
}

/// `n` written in decimal, as a JSON number (`serde_json` writes an `i64` so).
pub fn decimal_string(n: i64) -> (res: String)
    ensures
        res@ == decimal_text(n as int),
{
    let mut out = String::new();
    if n < 0 {
        out.append("-");
        proof {
            reveal_strlit("-");
        }
        let m: u64 = (0i128 - n as i128) as u64;
        push_digits(&mut out, m);
    } else {
        push_digits(&mut out, n as u64);
    }
    out
}

/// The value of the first member of `members` named `key`.
pub open spec fn lookup(members: Seq<(String, JsonValue)>, key: Seq<char>) -> Option<JsonValue>
    decreases members.len(),
{
    if members.len() == 0 {
        None
    } else if members[0].0@ == key {
        Some(members[0].1)
    } else {
        lookup(members.drop_first(), key)
    }
}

/// The member `key` of `v` where `v` is an object that has one (`Value::get`).
pub open spec fn member(v: JsonValue, key: Seq<char>) -> Option<JsonValue> {
    match v {
        JsonValue::Object(members) => lookup(members@, key),
        _ => None,
    }
}

/// The text of a string value (`Value::as_str`).
pub open spec fn text_of(v: Option<JsonValue>) -> Option<Seq<char>> {
    match v {
        Some(JsonValue::Str(s)) => Some(s@),
        _ => None,
    }
}

/// An object value (`Value::as_object`).
pub open spec fn object_of(v: Option<JsonValue>) -> Option<JsonValue> {
    match v {
        Some(JsonValue::Object(members)) => v,
        _ => None,
    }
}

/// The integer of a number value that fits `i64` (`Value::as_i64`).
pub open spec fn integer_of(v: Option<JsonValue>) -> Option<i64> {
    match v {
        Some(JsonValue::Number(n)) => n,
        _ => None,
    }
}

/// The member `key` of `v`, where `v` is an object that has one.
pub fn get_member<'a>(v: &'a JsonValue, key: &String) -> (res: Option<&'a JsonValue>)
    ensures
        match res {
            Some(r) => member(*v, key@) == Some(*r),
            None => member(*v, key@) is None,
        },
{
    match v {
        JsonValue::Object(members) => {
            let mut i: usize = 0;
            assert(members@.skip(0) =~= members@);
            while i < members.len()
                invariant
                    0 <= i <= members@.len(),
                    member(*v, key@) == lookup(members@, key@),
                    lookup(members@, key@) == lookup(members@.skip(i as int), key@),
                decreases members@.len() - i,
            {
                assert(members@.skip(i as int)[0] == members@[i as int]);
                if members[i].0 == *key {
                    assert(members@[i as int].0@ == key@);
                    assert(lookup(members@.skip(i as int), key@) == Some(members@[i as int].1));
                    return Some(&members[i].1);
                }
                assert(members@.skip(i as int).drop_first() =~= members@.skip(i + 1));
                i += 1;
            }
            None
        },
        _ => None,
    }
}

/// The text of `v` where it is a string.
pub fn as_text(v: Option<&JsonValue>) -> (res: Option<&String>)
    ensures
        match v {
            Some(x) => match res {
                Some(r) => text_of(Some(*x)) == Some(r@),
                None => text_of(Some(*x)) is None,
            },
            None => res is None,
        },
{
    match v {
        Some(JsonValue::Str(s)) => Some(s),
        _ => None,
    }
}

/// The integer of `v` where it is a number that fits `i64`.
pub fn as_integer(v: Option<&JsonValue>) -> (res: Option<i64>)
    ensures
        match v {
            Some(x) => res == integer_of(Some(*x)),
            None => res is None,
        },
{
    match v {
        Some(JsonValue::Number(n)) => *n,
        _ => None,
    }
}

/// A quoted JSON string holds no line feed: a line feed in the text is escaped.
pub proof fn lemma_quoted_one_line(s: Seq<char>)
    ensures
        no_newline(json_quoted(s)),
    decreases s.len(),
{
    lemma_escaped_one_line(s);
    let q = json_quoted(s);
    assert forall|i: int| 0 <= i < q.len() implies q[i] != '\n' by {
        if 0 < i < q.len() - 1 {
            assert(q[i] == escaped(s)[i - 1]);
        }
    }
}

proof fn lemma_escaped_one_line(s: Seq<char>)
    ensures
        no_newline(escaped(s)),
    decreases s.len(),
{
    if s.len() > 0 {
        lemma_escaped_one_line(s.drop_last());
        let a = escaped(s.drop_last());
        let b = escaped_char(s.last());
        assert(no_newline(b));
        assert forall|i: int| 0 <= i < (a + b).len() implies (a + b)[i] != '\n' by {
            if i >= a.len() {
                assert((a + b)[i] == b[i - a.len()]);
            }
        }
    }
}

/// Decimal digits hold no line feed.
pub proof fn lemma_digits_one_line(n: nat)
    ensures
        no_newline(digits(n)),
    decreases n,
{
    if n >= 10 {
        lemma_digits_one_line(n / 10);
    }
}

/// A decimal number holds no line feed.
pub proof fn lemma_decimal_one_line(n: int)
    ensures
        no_newline(decimal_text(n)),
{
    if n < 0 {
        lemma_digits_one_line((-n) as nat);
        let d = digits((-n) as nat);
        assert forall|i: int| 0 <= i < (seq!['-'] + d).len() implies (seq!['-'] + d)[i] != '\n' by {
            if i > 0 {
                assert((seq!['-'] + d)[i] == d[i - 1]);
            }
        }
    } else {
        lemma_digits_one_line(n as nat);
    }
}

/// The number a sequence of decimal digit characters writes.
pub open spec fn digits_value(ds: Seq<char>) -> int
    decreases ds.len(),
{
    if ds.len() == 0 {
        0
    } else {
        digits_value(ds.drop_last()) * 10 + (ds.last() as int - '0' as int)
    }
}

proof fn lemma_digit_char_value(d: nat)
    requires
        d < 10,
    ensures
        digit_char(d) as int - '0' as int == d,
        '0' <= digit_char(d) <= '9',
        d > 0 ==> digit_char(d) != '0',
{
}

/// The decimal digits of `n` are digit characters that read back as `n`,
/// without a leading zero (but for zero itself).
pub proof fn digits_read_back(n: nat)
    ensures
        digits(n).len() > 0,
        forall|i: int| 0 <= i < digits(n).len() ==> '0' <= #[trigger] digits(n)[i] <= '9',
        digits_value(digits(n)) == n,
        n > 0 ==> digits(n)[0] != '0',
    decreases n,
{
    lemma_digit_char_value(n % 10);
    if n < 10 {
        assert(n % 10 == n);
        assert(seq![digit_char(n)].drop_last() =~= Seq::<char>::empty());
        assert(digits_value(Seq::<char>::empty()) == 0);
        assert(digits_value(digits(n)) == digits_value(Seq::<char>::empty()) * 10 + (
        digit_char(n) as int - '0' as int));
    }
    if n >= 10 {
        digits_read_back(n / 10);
        let d = digits(n / 10);
        assert(digits(n).drop_last() =~= d);
        assert forall|i: int| 0 <= i < digits(n).len() implies '0' <= #[trigger] digits(n)[i]
            <= '9' by {
            if i < d.len() {
                assert(digits(n)[i] == d[i]);
            }
        }
        assert(digits(n)[0] == d[0]);
        assert(digits(n).last() == digit_char(n % 10));
        assert(n == (n / 10) * 10 + n % 10);
        assert(digits_value(digits(n)) == digits_value(d) * 10 + (digit_char(n % 10) as int
            - '0' as int));
    }
}

} // verus!
