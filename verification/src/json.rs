//! JSON values as the validator reads them.
//!
//! Text is parsed by `serde_json`; its `Value` is carried over into
//! `JsonValue` one node for one node. Numbers keep the three shapes that
//! `serde_json` keeps: a non-negative integer, a negative integer, and a
//! double, which is held as the decimal text that `serde_json` prints for
//! it.

use vstd::prelude::*;
use crate::number::{Dec, parse_dec, parse_decimal, dec_lt, dec_is_integral, dec_less, dec_integral};
use crate::text::{decimal_text, int_text, u64_text, i64_text, str_eq};

verus! {

#[verifier::external_type_specification]
#[verifier::external_body]
pub struct ExSerdeValue(serde_json::Value);

/// A JSON number.
#[derive(Debug)]
pub enum JsonNumber {
    /// An integer from zero up.
    PosInt(u64),
    /// A negative integer.
    NegInt(i64),
    /// A double, as the decimal text that `serde_json` prints for it.
    Float(String),
}

/// A JSON value. Object members keep the order in which `serde_json`
/// hands them out (sorted by key).
#[derive(Debug)]
pub enum JsonValue {
    Null,
    Bool(bool),
    Number(JsonNumber),
    String(String),
    Array(Vec<JsonValue>),
    Object(Vec<(String, JsonValue)>),
}

/// What `serde_json::from_str::<serde_json::Value>` gives for a text:
/// the parsed value, or the message of its error.
pub uninterp spec fn serde_json_parse(text: Seq<char>) -> Result<JsonValue, Seq<char>>;

/// What `format!("{:?}", s)` gives for a string: `s` in double quotes with
/// Rust's escapes.
pub uninterp spec fn str_debug_text(s: Seq<char>) -> Seq<char>;

/// Calls `serde_json::from_str` to parse `text` into a `serde_json::Value`
/// and carries the value over node for node (by `json_from_serde`); an
/// error becomes its message. The contract claims only that the outcome
/// is the one that `serde_json_parse` names for the text.
#[verifier::external_body]
fn serde_json_from_str(text: &str) -> (r: Result<JsonValue, String>)
    ensures
        match r {
            Ok(v) => serde_json_parse(text@) == Ok::<JsonValue, Seq<char>>(v),
            Err(e) => serde_json_parse(text@) == Err::<JsonValue, Seq<char>>(e@),
        },
{
    match serde_json::from_str::<serde_json::Value>(text) {
        Ok(v) => Ok(json_from_serde(v)),
        Err(e) => Err(e.to_string()),
    }
}

/// Carries a `serde_json::Value` over into a `JsonValue`, one node for one
/// node; a number keeps `serde_json`'s shape for it (`as_u64`, `as_i64`,
/// or else its printed text). Used only by `serde_json_from_str`.
#[verifier::external_body]
fn json_from_serde(v: serde_json::Value) -> JsonValue {
    match v {
        serde_json::Value::Null => JsonValue::Null,
        serde_json::Value::Bool(b) => JsonValue::Bool(b),
        serde_json::Value::Number(n) => JsonValue::Number(match (n.as_u64(), n.as_i64()) {
            (Some(u), _) => JsonNumber::PosInt(u),
            (None, Some(i)) => JsonNumber::NegInt(i),
            (None, None) => JsonNumber::Float(n.to_string()),
        }),
        serde_json::Value::String(s) => JsonValue::String(s),
        serde_json::Value::Array(a) => JsonValue::Array(a.into_iter().map(json_from_serde).collect()),
        serde_json::Value::Object(o) => JsonValue::Object(o.into_iter().map(|(k, x)| (k, json_from_serde(x))).collect()),
    }
}

/// Formats `s` with `{:?}` (Rust's `Debug` for `str`).
#[verifier::external_body]
pub(crate) fn debug_text(s: &str) -> (r: String)
    ensures
        r@ == str_debug_text(s@),
{
    format!("{:?}", s)
}

/// The double that stands for `2^63` (`i64::MAX as f64`), as a decimal.
pub open spec fn two_pow_63() -> Dec {
    Dec { neg: false, coef: 9223372036854776, exp: 3 }
}

/// `-2^63` (`i64::MIN as f64`), as a decimal.
pub open spec fn minus_two_pow_63() -> Dec {
    Dec { neg: true, coef: 9223372036854776, exp: 3 }
}

impl JsonNumber {
    /// The number as an `i64`, where it is an integer that fits.
    pub open spec fn spec_as_i64(self) -> Option<i64> {
        match self {
            JsonNumber::PosInt(n) => if n <= i64::MAX { Some(n as i64) } else { None },
            JsonNumber::NegInt(n) => Some(n),
            JsonNumber::Float(_) => None,
        }
    }

    /// The number as a `u64`, where it is a non-negative integer.
    pub open spec fn spec_as_u64(self) -> Option<u64> {
        match self {
            JsonNumber::PosInt(n) => Some(n),
            _ => None,
        }
    }

    /// The number as a decimal, where it has one.
    pub open spec fn spec_as_dec(self) -> Option<Dec> {
        match self {
            JsonNumber::PosInt(n) => Some(Dec { neg: false, coef: n, exp: 0 }),
            JsonNumber::NegInt(n) => Some(Dec {
                neg: n < 0,
                coef: (if n < 0 { -n } else { n as int }) as u64,
                exp: 0,
            }),
            JsonNumber::Float(t) => parse_dec(t@),
        }
    }

    /// The number is held as a double with a whole value between `-2^63`
    /// and `2^63`.
    pub open spec fn spec_is_integral_double(self) -> bool {
        match self {
            JsonNumber::Float(t) => match parse_dec(t@) {
                Some(d) => dec_is_integral(d) && !dec_lt(d, minus_two_pow_63()) && !dec_lt(two_pow_63(), d),
                None => false,
            },
            _ => false,
        }
    }

    /// How the number prints with `{}`.
    pub open spec fn spec_text(self) -> Seq<char> {
        match self {
            JsonNumber::PosInt(n) => decimal_text(n as nat),
            JsonNumber::NegInt(n) => int_text(n as int),
            JsonNumber::Float(t) => t@,
        }
    }

    /// The number as an `i64`, where it is an integer that fits.
    pub fn as_i64(&self) -> (r: Option<i64>)
        ensures
            r == self.spec_as_i64(),
    {
        match self {
            JsonNumber::PosInt(n) => if *n <= 9223372036854775807u64 { Some(*n as i64) } else { None },
            JsonNumber::NegInt(n) => Some(*n),
            JsonNumber::Float(_) => None,
        }
    }

    /// Whether the number is held as a double.
    pub fn is_float(&self) -> (r: bool)
        ensures
            r == (self is Float),
    {
        match self {
            JsonNumber::Float(_) => true,
            _ => false,
        }
    }

    /// The number as a `u64`, where it is a non-negative integer.
    pub fn as_u64(&self) -> (r: Option<u64>)
        ensures
            r == self.spec_as_u64(),
    {
        match self {
            JsonNumber::PosInt(n) => Some(*n),
            _ => None,
        }
    }

    /// The number as a decimal, where it has one.
    pub fn as_dec(&self) -> (r: Option<Dec>)
        ensures
            r == self.spec_as_dec(),
    {
        match self {
            JsonNumber::PosInt(n) => Some(Dec { neg: false, coef: *n, exp: 0 }),
            JsonNumber::NegInt(n) => {
                let neg = *n < 0;
                let m: u64 = if neg { (0i128 - *n as i128) as u64 } else { *n as u64 };
                Some(Dec { neg, coef: m, exp: 0 })
            }
            JsonNumber::Float(t) => parse_decimal(t.as_str()),
        }
    }

    /// Whether the number is held as a double with a whole value between
    /// `-2^63` and `2^63`.
    pub fn is_integral_double(&self) -> (r: bool)
        ensures
            r == self.spec_is_integral_double(),
    {
        match self {
            JsonNumber::Float(t) => match parse_decimal(t.as_str()) {
                Some(d) => {
                    let lo = Dec { neg: true, coef: 9223372036854776, exp: 3 };
                    let hi = Dec { neg: false, coef: 9223372036854776, exp: 3 };
                    dec_integral(&d) && !dec_less(&d, &lo) && !dec_less(&hi, &d)
                }
                None => false,
            },
            _ => false,
        }
    }

    /// How the number prints with `{}`.
    pub fn text(&self) -> (r: String)
        ensures
            r@ == self.spec_text(),
    {
        match self {
            JsonNumber::PosInt(n) => u64_text(*n),
            JsonNumber::NegInt(n) => i64_text(*n),
            JsonNumber::Float(t) => t.clone(),
        }
    }
}

/// The value of the first member named `key`.
pub open spec fn member_lookup(members: Seq<(String, JsonValue)>, key: Seq<char>) -> Option<JsonValue>
    decreases members.len(),
{
    if members.len() == 0 {
        None
    } else if members[0].0@ == key {
        Some(members[0].1)
    } else {
        member_lookup(members.skip(1), key)
    }
}

proof fn lemma_lookup_skip(members: Seq<(String, JsonValue)>, key: Seq<char>, i: int)
    requires
        0 <= i <= members.len(),
        forall|j: int| 0 <= j < i ==> members[j].0@ != key,
    ensures
        member_lookup(members, key) == member_lookup(members.skip(i), key),
    decreases i,
{
    if i > 0 {
        lemma_lookup_skip(members.skip(1), key, i - 1);
        assert(members.skip(1).skip(i - 1) =~= members.skip(i));
    } else {
        assert(members.skip(0) =~= members);
    }
}

impl JsonValue {
    /// Parses JSON text, as `serde_json::from_str` does; an error comes
    /// back as its message.
    pub fn parse(text: &str) -> (r: Result<JsonValue, String>)
        ensures
            match r {
                Ok(v) => serde_json_parse(text@) == Ok::<JsonValue, Seq<char>>(v),
                Err(e) => serde_json_parse(text@) == Err::<JsonValue, Seq<char>>(e@),
            },
    {
        serde_json_from_str(text)
    }

    /// The member named `key`, where this is an object (`Value::get`).
    pub open spec fn spec_get(self, key: Seq<char>) -> Option<JsonValue> {
        match self {
            JsonValue::Object(members) => member_lookup(members@, key),
            _ => None,
        }
    }

    /// The text, where this is a string.
    pub open spec fn spec_as_str(self) -> Option<Seq<char>> {
        match self {
            JsonValue::String(s) => Some(s@),
            _ => None,
        }
    }

    /// The member named `key`, where this is an object (`Value::get`).
    pub fn get(&self, key: &str) -> (r: Option<&JsonValue>)
        ensures
            r is Some <==> self.spec_get(key@) is Some,
            r matches Some(v) ==> self.spec_get(key@) == Some(*v),
    {
        match self {
            JsonValue::Object(members) => {
                let n = members.len();
                let mut i: usize = 0;
                while i < n
                    invariant
                        n == members@.len(),
                        i <= n,
                        self.spec_get(key@) == member_lookup(members@, key@),
                        forall|j: int| 0 <= j < i ==> members@[j].0@ != key@,
                    decreases n - i,
                {
                    if str_eq(members[i].0.as_str(), key) {
                        proof {
                            lemma_lookup_skip(members@, key@, i as int);
                            assert(members@.skip(i as int)[0] == members@[i as int]);
                            assert(member_lookup(members@.skip(i as int), key@) == Some(members@[i as int].1));
                        }
                        return Some(&members[i].1);
                    }
                    i = i + 1;
                }
                proof {
                    lemma_lookup_skip(members@, key@, n as int);
                    assert(members@.skip(n as int).len() == 0);
                }
                None
            }
            _ => None,
        }
    }

    /// The text, where this is a string.
    pub fn as_str(&self) -> (r: Option<&str>)
        ensures
            r is Some <==> self.spec_as_str() is Some,
            r matches Some(s) ==> self.spec_as_str() == Some(s@),
    {
        match self {
            JsonValue::String(s) => Some(s.as_str()),
            _ => None,
        }
    }

    /// The text of member `key`, where this is an object whose member
    /// `key` is a string (`v.get(key).and_then(Value::as_str)`).
    pub open spec fn spec_str_member(self, key: Seq<char>) -> Option<Seq<char>> {
        match self.spec_get(key) {
            Some(m) => m.spec_as_str(),
            None => None,
        }
    }

    /// The text of member `key`, where this is an object whose member
    /// `key` is a string.
    pub fn str_member(&self, key: &str) -> (r: Option<&str>)
        ensures
            r is Some <==> self.spec_str_member(key@) is Some,
            r matches Some(s) ==> self.spec_str_member(key@) == Some(s@),
    {
        match self.get(key) {
            Some(m) => m.as_str(),
            None => None,
        }
    }
}

impl JsonValue {
    /// The flag of member `key`, where it is a boolean.
    pub open spec fn spec_bool_member(self, key: Seq<char>) -> Option<bool> {
        match self.spec_get(key) {
            Some(JsonValue::Bool(b)) => Some(b),
            _ => None,
        }
    }

    /// The elements of member `key`, where it is an array.
    pub open spec fn spec_array_member(self, key: Seq<char>) -> Option<Seq<JsonValue>> {
        match self.spec_get(key) {
            Some(JsonValue::Array(a)) => Some(a@),
            _ => None,
        }
    }

    /// Member `key` as an `i64` (`Value::as_i64`).
    pub open spec fn spec_i64_member(self, key: Seq<char>) -> Option<i64> {
        match self.spec_get(key) {
            Some(JsonValue::Number(n)) => n.spec_as_i64(),
            _ => None,
        }
    }

    /// Member `key` as a `u64` (`Value::as_u64`).
    pub open spec fn spec_u64_member(self, key: Seq<char>) -> Option<u64> {
        match self.spec_get(key) {
            Some(JsonValue::Number(n)) => n.spec_as_u64(),
            _ => None,
        }
    }

    /// Member `key` as a decimal, where it is a number (`Value::as_f64`).
    pub open spec fn spec_dec_member(self, key: Seq<char>) -> Option<Dec> {
        match self.spec_get(key) {
            Some(JsonValue::Number(n)) => n.spec_as_dec(),
            _ => None,
        }
    }

    /// The flag of member `key`, where it is a boolean.
    pub fn bool_member(&self, key: &str) -> (r: Option<bool>)
        ensures
            r == self.spec_bool_member(key@),
    {
        match self.get(key) {
            Some(JsonValue::Bool(b)) => Some(*b),
            _ => None,
        }
    }

    /// The elements of member `key`, where it is an array.
    pub fn array_member(&self, key: &str) -> (r: Option<&Vec<JsonValue>>)
        ensures
            r is Some <==> self.spec_array_member(key@) is Some,
            r matches Some(a) ==> self.spec_array_member(key@) == Some(a@),
    {
        match self.get(key) {
            Some(JsonValue::Array(a)) => Some(a),
            _ => None,
        }
    }

    /// Member `key` as an `i64`.
    pub fn i64_member(&self, key: &str) -> (r: Option<i64>)
        ensures
            r == self.spec_i64_member(key@),
    {
        match self.get(key) {
            Some(JsonValue::Number(n)) => n.as_i64(),
            _ => None,
        }
    }

    /// Member `key` as a `u64`.
    pub fn u64_member(&self, key: &str) -> (r: Option<u64>)
        ensures
            r == self.spec_u64_member(key@),
    {
        match self.get(key) {
            Some(JsonValue::Number(n)) => n.as_u64(),
            _ => None,
        }
    }

    /// Member `key` as a decimal, where it is a number.
    pub fn dec_member(&self, key: &str) -> (r: Option<Dec>)
        ensures
            r == self.spec_dec_member(key@),
    {
        match self.get(key) {
            Some(JsonValue::Number(n)) => n.as_dec(),
            _ => None,
        }
    }
}

} // verus!
