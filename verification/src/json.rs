//! The JSON messages of the service: declarations, rules and events as its
//! clients send them, read into the engine's types.
//!
//! A message's text is parsed by [`parse_json`] into a [`JsonValue`]; each
//! conversion gives `None` exactly where the message does not have the shape
//! the service expects (a missing member, a member of another kind, text
//! that does not read as a number). This is deliberate: the service stops on
//! such a message, and a reader that gives `None` lets it do so where the
//! library itself never panics. The shapes are those the service's code
//! reads, not the draft sample in its documentation.

use vstd::prelude::*;
use rustc_serialize::json::Json;
use vstd::string::*;
use crate::engine::{TRex, attribute_index, first_named};
use crate::expressions::{BasicType, BinaryOperator, Expression, UnaryOperator, Value};
use crate::predicates::{Aggregator, AttributeOrdering, ConstrainedTuple, EventSelection, Order, ParameterDeclaration, Predicate, PredicateType, SpecPredicate, SpecPredicateType, Timing, TimingBound};
use crate::tuples::{AttributeDeclaration, Event, EventTemplate, Rule, Tuple, TupleDeclaration, TupleType};

verus! {

/// A JSON value; a number with a fraction is held by the bit pattern of its
/// `f64`, and an object by its members in increasing order of key.
#[derive(Debug)]
pub enum JsonValue {
    Null,
    Bool(bool),
    I64(i64),
    U64(u64),
    F64(u64),
    String(String),
    Array(Vec<JsonValue>),
    Object(Vec<(String, JsonValue)>),
}

#[verifier::external_type_specification]
#[verifier::external_body]
pub struct ExJson(Json);

/// The value that the text of a message parses to, `None` for text that is
/// not JSON.
pub uninterp spec fn parsed_json(text: Seq<char>) -> Option<JsonValue>;

/// The library's value of a parsed `rustc_serialize` value, one for one: an
/// object's members in the increasing order of key its map keeps.
#[verifier::external_body]
fn json_value_of(json: &Json) -> JsonValue {
    match json {
        Json::Null => JsonValue::Null,
        Json::Boolean(b) => JsonValue::Bool(*b),
        Json::I64(i) => JsonValue::I64(*i),
        Json::U64(u) => JsonValue::U64(*u),
        Json::F64(f) => JsonValue::F64(f.to_bits()),
        Json::String(s) => JsonValue::String(s.clone()),
        Json::Array(v) => JsonValue::Array(v.iter().map(json_value_of).collect()),
        Json::Object(m) => JsonValue::Object(m.iter().map(|(k, v)| (k.clone(), json_value_of(v))).collect()),
    }
}

/// `rustc_serialize::json::Json::from_str`: the message a text holds,
/// `None` where the parser refuses the text. The result is named
/// [`parsed_json`]: a function of the text alone.
#[verifier::external_body]
pub fn parse_json(text: &str) -> (r: Option<JsonValue>)
    ensures
        r == parsed_json(text@),
{
    match Json::from_str(text) {
        Ok(json) => Some(json_value_of(&json)),
        Err(_) => None,
    }
}

/// The value of the first member named `key` from index `k` on.
pub open spec fn member_from(entries: Seq<(String, JsonValue)>, key: Seq<char>, k: int) -> Option<JsonValue>
    decreases entries.len() - k,
{
    if k < 0 || k >= entries.len() {
        None
    } else if entries[k].0@ == key {
        Some(entries[k].1)
    } else {
        member_from(entries, key, k + 1)
    }
}

/// The member `key` of an object; `None` for anything else or a missing
/// member.
pub open spec fn field(j: JsonValue, key: Seq<char>) -> Option<JsonValue> {
    match j {
        JsonValue::Object(entries) => member_from(entries@, key, 0),
        _ => None,
    }
}

/// The member `key` of an optional object.
pub open spec fn field_of(o: Option<JsonValue>, key: Seq<char>) -> Option<JsonValue> {
    match o {
        Some(j) => field(j, key),
        None => None,
    }
}

/// The text of a string.
pub open spec fn text(o: Option<JsonValue>) -> Option<Seq<char>> {
    match o {
        Some(JsonValue::String(s)) => Some(s@),
        _ => None,
    }
}

/// A number as a `u64`: a non-negative integer.
pub open spec fn unsigned(o: Option<JsonValue>) -> Option<u64> {
    match o {
        Some(JsonValue::I64(i)) => if i >= 0 {
            Some(i as u64)
        } else {
            None
        },
        Some(JsonValue::U64(u)) => Some(u),
        _ => None,
    }
}

/// The elements of an array.
pub open spec fn elements(o: Option<JsonValue>) -> Option<Seq<JsonValue>> {
    match o {
        Some(JsonValue::Array(v)) => Some(v@),
        _ => None,
    }
}

/// Whether a character is a decimal digit.
pub open spec fn is_digit(c: char) -> bool {
    '0' <= c <= '9'
}

/// The value of a non-empty sequence of decimal digits.
pub open spec fn digits_value(s: Seq<char>) -> Option<int>
    decreases s.len(),
{
    if s.len() == 0 || !is_digit(s.last()) {
        None
    } else if s.len() == 1 {
        Some(s.last() as int - 48)
    } else {
        match digits_value(s.drop_last()) {
            Some(v) => Some(v * 10 + (s.last() as int - 48)),
            None => None,
        }
    }
}

/// The value of a decimal integer with an optional sign, as `str::parse`
/// reads it for a signed type.
pub open spec fn signed_value(s: Seq<char>) -> Option<int> {
    if s.len() > 0 && s[0] == '-' {
        match digits_value(s.drop_first()) {
            Some(v) => Some(-v),
            None => None,
        }
    } else if s.len() > 0 && s[0] == '+' {
        digits_value(s.drop_first())
    } else {
        digits_value(s)
    }
}

/// The value of a decimal integer with an optional `+`, as `str::parse`
/// reads it for an unsigned type.
pub open spec fn unsigned_value(s: Seq<char>) -> Option<int> {
    if s.len() > 0 && s[0] == '+' {
        digits_value(s.drop_first())
    } else {
        digits_value(s)
    }
}

/// `s.parse::<usize>()`.
pub open spec fn parse_usize_spec(s: Seq<char>) -> Option<usize> {
    match unsigned_value(s) {
        Some(v) => if v <= usize::MAX {
            Some(v as usize)
        } else {
            None
        },
        None => None,
    }
}

/// `s.parse::<i64>()`.
pub open spec fn parse_i64_spec(s: Seq<char>) -> Option<i64> {
    match signed_value(s) {
        Some(v) => if i64::MIN <= v <= i64::MAX {
            Some(v as i64)
        } else {
            None
        },
        None => None,
    }
}

/// `s.parse::<i32>()`, widened.
pub open spec fn parse_i32_spec(s: Seq<char>) -> Option<i64> {
    match signed_value(s) {
        Some(v) => if i32::MIN <= v <= i32::MAX {
            Some(v as i64)
        } else {
            None
        },
        None => None,
    }
}

/// `s.parse::<bool>()`.
pub open spec fn parse_bool_spec(s: Seq<char>) -> Option<bool> {
    if s == "true"@ {
        Some(true)
    } else if s == "false"@ {
        Some(false)
    } else {
        None
    }
}

/// The member `key` of a value, if it is an object that has it.
pub fn get_field<'a>(j: &'a JsonValue, key: &str) -> (r: Option<&'a JsonValue>)
    ensures
        match r {
            Some(v) => field(*j, key@) == Some(*v),
            None => field(*j, key@) is None,
        },
{
    match j {
        JsonValue::Object(entries) => {
            let wanted = key.to_owned();
            let mut k: usize = 0;
            while k < entries.len()
                invariant
                    wanted@ == key@,
                    field(*j, key@) == member_from(entries@, key@, 0),
                    k <= entries@.len(),
                    member_from(entries@, key@, 0) == member_from(entries@, key@, k as int),
                decreases entries@.len() - k,
            {
                if entries[k].0 == wanted {
                    return Some(&entries[k].1);
                }
                k = k + 1;
            }
            None
        },
        _ => None,
    }
}

/// The member `key` of an optional value.
pub fn get_field_of<'a>(o: Option<&'a JsonValue>, key: &str) -> (r: Option<&'a JsonValue>)
    ensures
        match r {
            Some(v) => field_of(opt_value(o), key@) == Some(*v),
            None => field_of(opt_value(o), key@) is None,
        },
{
    match o {
        Some(j) => get_field(j, key),
        None => None,
    }
}

/// The value an optional reference points to.
pub open spec fn opt_value(o: Option<&JsonValue>) -> Option<JsonValue> {
    match o {
        Some(j) => Some(*j),
        None => None,
    }
}

/// The text of an optional string.
pub fn as_string<'a>(o: Option<&'a JsonValue>) -> (r: Option<&'a String>)
    ensures
        match r {
            Some(s) => text(opt_value(o)) == Some(s@),
            None => text(opt_value(o)) is None,
        },
{
    match o {
        Some(JsonValue::String(s)) => Some(s),
        _ => None,
    }
}

/// An optional number as a `u64`.
pub fn as_u64(o: Option<&JsonValue>) -> (r: Option<u64>)
    ensures
        r == unsigned(opt_value(o)),
{
    match o {
        Some(JsonValue::I64(i)) => if *i >= 0 {
            Some(*i as u64)
        } else {
            None
        },
        Some(JsonValue::U64(u)) => Some(*u),
        _ => None,
    }
}

/// The elements of an optional array.
pub fn as_array<'a>(o: Option<&'a JsonValue>) -> (r: Option<&'a Vec<JsonValue>>)
    ensures
        match r {
            Some(v) => elements(opt_value(o)) == Some(v@),
            None => elements(opt_value(o)) is None,
        },
{
    match o {
        Some(JsonValue::Array(v)) => Some(v),
        _ => None,
    }
}

/// The value of the digits of `s` from index `lo` on, if they are all
/// digits, there is at least one, and the value fits a `u64`.
fn parse_digits(s: &str, lo: usize) -> (r: Option<u64>)
    requires
        lo <= s@.len(),
    ensures
        match r {
            Some(v) => digits_value(s@.subrange(lo as int, s@.len() as int)) == Some(v as int),
            None => digits_value(s@.subrange(lo as int, s@.len() as int)) matches Some(v) ==> v > u64::MAX,
        },
{
    let n = s.unicode_len();
    if lo >= n {
        proof {
            assert(s@.subrange(lo as int, s@.len() as int).len() == 0);
        }
        return None;
    }
    let mut value: u64 = 0;
    let mut k: usize = lo;
    while k < n
        invariant
            n == s@.len(),
            lo < n,
            lo <= k <= n,
            k == lo ==> value == 0,
            k > lo ==> digits_value(s@.subrange(lo as int, k as int)) == Some(value as int),
        decreases n - k,
    {
        let c = s.get_char(k);
        let ghost pre = s@.subrange(lo as int, k + 1);
        proof {
            assert(pre.drop_last() =~= s@.subrange(lo as int, k as int));
            assert(pre.last() == c);
        }
        if c < '0' || c > '9' {
            proof {
                assert(s@.subrange(lo as int, s@.len() as int).subrange(0, k - lo + 1) =~= pre);
                lemma_digits_prefix_none(s@.subrange(lo as int, s@.len() as int), k - lo + 1);
            }
            return None;
        }
        let d = (c as u32 - 48) as u64;
        proof {
            assert(d == c as int - 48);
            if k > lo {
                assert(digits_value(pre) == Some(value * 10 + d));
            } else {
                assert(pre.len() == 1);
                assert(digits_value(pre) == Some(d as int));
            }
        }
        if value > (u64::MAX - d) / 10 {
            proof {
                assert(value * 10 + d > u64::MAX) by (nonlinear_arith)
                    requires
                        value > (u64::MAX - d) / 10,
                        d <= 9,
                ;
                assert(s@.subrange(lo as int, s@.len() as int).subrange(0, k - lo + 1) =~= pre);
                lemma_digits_prefix_big(s@.subrange(lo as int, s@.len() as int), k - lo + 1);
            }
            return None;
        }
        proof {
            assert(value * 10 + d <= u64::MAX) by (nonlinear_arith)
                requires
                    value <= (u64::MAX - d) / 10,
                    d <= 9,
            ;
        }
        value = value * 10 + d;
        k = k + 1;
    }
    Some(value)
}

/// A prefix that is not all digits makes the whole not all digits.
proof fn lemma_digits_prefix_none(s: Seq<char>, k: int)
    requires
        0 < k <= s.len(),
        digits_value(s.subrange(0, k)) is None,
    ensures
        digits_value(s) is None,
    decreases s.len() - k,
{
    if k < s.len() {
        assert(s.subrange(0, k + 1).drop_last() =~= s.subrange(0, k));
        lemma_digits_prefix_none(s, k + 1);
    } else {
        assert(s.subrange(0, k) =~= s);
    }
}

/// Digits whose prefix is worth more than a `u64` are worth more than a `u64`.
proof fn lemma_digits_prefix_big(s: Seq<char>, k: int)
    requires
        0 < k <= s.len(),
        digits_value(s.subrange(0, k)) matches Some(v) ==> v > u64::MAX,
    ensures
        digits_value(s) matches Some(v) ==> v > u64::MAX,
    decreases s.len() - k,
{
    if k < s.len() {
        let pre = s.subrange(0, k + 1);
        assert(pre.drop_last() =~= s.subrange(0, k));
        lemma_digits_prefix_big(s, k + 1);
    } else {
        assert(s.subrange(0, k) =~= s);
    }
}


/// The index the digits of a number start at, after an optional sign that
/// `signed` allows to be `-`, and whether the sign was `-`.
fn sign_end(s: &str, signed: bool) -> (r: (usize, bool))
    ensures
        r.0 <= s@.len(),
        signed ==> (if s@.len() > 0 && s@[0] == '-' {
            r == (1usize, true)
        } else if s@.len() > 0 && s@[0] == '+' {
            r == (1usize, false)
        } else {
            r == (0usize, false)
        }),
        !signed ==> (if s@.len() > 0 && s@[0] == '+' {
            r == (1usize, false)
        } else {
            r == (0usize, false)
        }),
{
    if s.unicode_len() == 0 {
        return (0, false);
    }
    let c = s.get_char(0);
    if signed && c == '-' {
        (1, true)
    } else if c == '+' {
        (1, false)
    } else {
        (0, false)
    }
}

/// `s.parse::<usize>()`.
pub fn parse_usize(s: &String) -> (r: Option<usize>)
    ensures
        r == parse_usize_spec(s@),
{
    let (start, _) = sign_end(s.as_str(), false);
    proof {
        if start == 1 {
            assert(s@.subrange(1, s@.len() as int) =~= s@.drop_first());
        } else {
            assert(s@.subrange(0, s@.len() as int) =~= s@);
        }
    }
    match parse_digits(s.as_str(), start) {
        Some(v) => if v <= usize::MAX as u64 {
            Some(v as usize)
        } else {
            None
        },
        None => None,
    }
}

/// `s.parse::<i64>()`.
pub fn parse_i64(s: &String) -> (r: Option<i64>)
    ensures
        r == parse_i64_spec(s@),
{
    let (start, negative) = sign_end(s.as_str(), true);
    proof {
        if start == 1 {
            assert(s@.subrange(1, s@.len() as int) =~= s@.drop_first());
        } else {
            assert(s@.subrange(0, s@.len() as int) =~= s@);
        }
    }
    match parse_digits(s.as_str(), start) {
        Some(v) => if negative {
            if v <= 9223372036854775808u64 {
                if v == 9223372036854775808u64 {
                    Some(i64::MIN)
                } else {
                    Some(-(v as i64))
                }
            } else {
                None
            }
        } else if v <= i64::MAX as u64 {
            Some(v as i64)
        } else {
            None
        },
        None => None,
    }
}

/// `s.parse::<i32>()`, widened to `i64`.
pub fn parse_i32(s: &String) -> (r: Option<i64>)
    ensures
        r == parse_i32_spec(s@),
{
    match parse_i64(s) {
        Some(v) => if i32::MIN as i64 <= v && v <= i32::MAX as i64 {
            Some(v)
        } else {
            None
        },
        None => {
            None
        },
    }
}

/// `s.parse::<bool>()`.
pub fn parse_bool(s: &String) -> (r: Option<bool>)
    ensures
        r == parse_bool_spec(s@),
{
    let t = String::from_str("true");
    let f = String::from_str("false");
    if *s == t {
        Some(true)
    } else if *s == f {
        Some(false)
    } else {
        None
    }
}


/// What reads a floating-point number from its text, giving its bit pattern.
pub trait FloatReader {
    fn read_float(&self, text: &String) -> Option<u64>;
}

/// A basic type from its name; an unknown name is a string.
pub open spec fn basic_type_json(o: Option<JsonValue>) -> Option<BasicType> {
    match text(o) {
        Some(t) => Some(if t == "Int"@ {
            BasicType::Int
        } else if t == "Float"@ {
            BasicType::Float
        } else if t == "Bool"@ {
            BasicType::Bool
        } else {
            BasicType::Str
        }),
        None => None,
    }
}

/// Whether a value message holds a floating-point number.
pub open spec fn is_float_value(j: JsonValue) -> bool {
    text(field(j, "type"@)) == Some("Float"@)
}

/// A value from a message `{ "type": .., "value": .. }` whose value is text:
/// an `i32` for `Int`, `true` or `false` for `Bool`, any text otherwise
/// (floating-point numbers are read by a reader).
pub open spec fn value_json(j: JsonValue) -> Option<Value> {
    match text(field(j, "type"@)) {
        Some(t) => match field(j, "value"@) {
            Some(JsonValue::String(v)) => if t == "Int"@ {
                match parse_i32_spec(v@) {
                    Some(x) => Some(Value::Int(x)),
                    None => None,
                }
            } else if t == "Float"@ {
                None
            } else if t == "Bool"@ {
                match parse_bool_spec(v@) {
                    Some(b) => Some(Value::Bool(b)),
                    None => None,
                }
            } else {
                Some(Value::Str(v))
            },
            _ => None,
        },
        None => None,
    }
}

/// A unary operator from `{ "UnaryOperator": name }`; `Minus` by default.
pub open spec fn unary_json(j: JsonValue) -> Option<UnaryOperator> {
    match text(field(j, "UnaryOperator"@)) {
        Some(t) => Some(if t == "Not"@ {
            UnaryOperator::Not
        } else {
            UnaryOperator::Minus
        }),
        None => None,
    }
}

/// A binary operator from its name; `None` for an unknown name.
pub open spec fn binary_named(t: Seq<char>) -> Option<BinaryOperator> {
    if t == "Plus"@ {
        Some(BinaryOperator::Plus)
    } else if t == "Minus"@ {
        Some(BinaryOperator::Minus)
    } else if t == "Times"@ {
        Some(BinaryOperator::Times)
    } else if t == "Division"@ {
        Some(BinaryOperator::Division)
    } else if t == "Equal"@ {
        Some(BinaryOperator::Equal)
    } else if t == "NotEqual"@ {
        Some(BinaryOperator::NotEqual)
    } else if t == "GreaterThan"@ {
        Some(BinaryOperator::GreaterThan)
    } else if t == "GreaterEqual"@ {
        Some(BinaryOperator::GreaterEqual)
    } else if t == "LowerThan"@ {
        Some(BinaryOperator::LowerThan)
    } else if t == "LowerEqual"@ {
        Some(BinaryOperator::LowerEqual)
    } else {
        None
    }
}

/// A binary operator from `{ "BinaryOperator": name }`; `Plus` by default.
pub open spec fn binary_json(j: JsonValue) -> Option<BinaryOperator> {
    match text(field(j, "BinaryOperator"@)) {
        Some(t) => Some(match binary_named(t) {
            Some(op) => op,
            None => BinaryOperator::Plus,
        }),
        None => None,
    }
}

/// The name of a basic type.
fn basic_type_named(t: &String) -> (r: BasicType)
    ensures
        basic_type_json(Some(JsonValue::String(*t))) == Some(r),
{
    if *t == String::from_str("Int") {
        BasicType::Int
    } else if *t == String::from_str("Float") {
        BasicType::Float
    } else if *t == String::from_str("Bool") {
        BasicType::Bool
    } else {
        BasicType::Str
    }
}

impl BasicType {
    /// A basic type from its name; an unknown name is a string.
    pub fn from_json(json: &JsonValue) -> (r: Option<BasicType>)
        ensures
            r == basic_type_json(Some(*json)),
    {
        match json {
            JsonValue::String(t) => Some(basic_type_named(t)),
            _ => None,
        }
    }
}

impl Value {
    /// A value from `{ "type": .., "value": .. }`.
    pub fn from_json<R: FloatReader>(json: &JsonValue, reader: &R) -> (r: Option<Value>)
        ensures
            !is_float_value(*json) ==> r == value_json(*json),
            is_float_value(*json) ==> (r matches Some(v) ==> v is Float),
    {
        proof {
            reveal_strlit("Int");
            reveal_strlit("Float");
        }
        let t = match as_string(get_field(json, "type")) {
            Some(t) => t,
            None => return None,
        };
        let v = match get_field(json, "value") {
            Some(JsonValue::String(v)) => v,
            _ => return None,
        };
        proof {
            assert("Float"@.len() == 5 && "Int"@.len() == 3);
        }
        if *t == String::from_str("Int") {
            match parse_i32(v) {
                Some(x) => Some(Value::Int(x)),
                None => None,
            }
        } else if *t == String::from_str("Float") {
            match reader.read_float(v) {
                Some(bits) => Some(Value::Float(bits)),
                None => None,
            }
        } else if *t == String::from_str("Bool") {
            match parse_bool(v) {
                Some(b) => Some(Value::Bool(b)),
                None => None,
            }
        } else {
            Some(Value::Str(v.clone()))
        }
    }
}

impl UnaryOperator {
    /// A unary operator from `{ "UnaryOperator": name }`; `Minus` by default.
    pub fn from_json(json: &JsonValue) -> (r: Option<UnaryOperator>)
        ensures
            r == unary_json(*json),
    {
        match as_string(get_field(json, "UnaryOperator")) {
            Some(t) => Some(if *t == String::from_str("Not") {
                UnaryOperator::Not
            } else {
                UnaryOperator::Minus
            }),
            None => None,
        }
    }
}

/// A binary operator from its name.
fn binary_from_name(t: &String) -> (r: Option<BinaryOperator>)
    ensures
        r == binary_named(t@),
{
    if *t == String::from_str("Plus") {
        Some(BinaryOperator::Plus)
    } else if *t == String::from_str("Minus") {
        Some(BinaryOperator::Minus)
    } else if *t == String::from_str("Times") {
        Some(BinaryOperator::Times)
    } else if *t == String::from_str("Division") {
        Some(BinaryOperator::Division)
    } else if *t == String::from_str("Equal") {
        Some(BinaryOperator::Equal)
    } else if *t == String::from_str("NotEqual") {
        Some(BinaryOperator::NotEqual)
    } else if *t == String::from_str("GreaterThan") {
        Some(BinaryOperator::GreaterThan)
    } else if *t == String::from_str("GreaterEqual") {
        Some(BinaryOperator::GreaterEqual)
    } else if *t == String::from_str("LowerThan") {
        Some(BinaryOperator::LowerThan)
    } else if *t == String::from_str("LowerEqual") {
        Some(BinaryOperator::LowerEqual)
    } else {
        None
    }
}

impl BinaryOperator {
    /// A binary operator from `{ "BinaryOperator": name }`; `Plus` by
    /// default.
    pub fn from_json(json: &JsonValue) -> (r: Option<BinaryOperator>)
        ensures
            r == binary_json(*json),
    {
        match as_string(get_field(json, "BinaryOperator")) {
            Some(t) => Some(match binary_from_name(t) {
                Some(op) => op,
                None => BinaryOperator::Plus,
            }),
            None => None,
        }
    }
}


/// The index of the first `::` in `t` from index `k` on.
pub open spec fn sep_from(t: Seq<char>, k: int) -> Option<int>
    decreases t.len() - k,
{
    if k < 0 || k + 1 >= t.len() {
        None
    } else if t[k] == ':' && t[k + 1] == ':' {
        Some(k)
    } else {
        sep_from(t, k + 1)
    }
}

/// The first two parts of `t` split at `::`: before the first `::`, and
/// from it to the next `::` or the end; `None` without a `::`.
pub open spec fn two_parts(t: Seq<char>) -> Option<(Seq<char>, Seq<char>)> {
    match sep_from(t, 0) {
        Some(i) => {
            let rest = t.subrange(i + 2, t.len() as int);
            let second = match sep_from(rest, 0) {
                Some(k) => rest.subrange(0, k),
                None => rest,
            };
            Some((t.subrange(0, i), second))
        },
        None => None,
    }
}

/// The attribute `tuple::attribute` names: the index of the attribute of the
/// first declared tuple type of that name.
pub open spec fn attr_ref(order: Seq<usize>, tuples: Map<usize, TupleDeclaration>, t: Seq<char>) -> Option<usize> {
    match two_parts(t) {
        Some((a, b)) => match first_named(order, tuples, a) {
            Some(id) => attribute_index(tuples[id].attributes@, b, 0),
            None => None,
        },
        None => None,
    }
}

/// A parameter reference from `{ "predicate": .., "parameter": .. }`.
pub open spec fn parameter_json(o: Option<JsonValue>) -> Option<Expression> {
    match (unsigned(field_of(o, "predicate"@)), unsigned(field_of(o, "parameter"@))) {
        (Some(a), Some(b)) => Some(Expression::Parameter { predicate: a as usize, parameter: b as usize }),
        _ => None,
    }
}

/// Whether an expression message is an immediate floating-point number.
pub open spec fn immediate_float(j: JsonValue) -> bool {
    field(j, "Immediate"@) is Some && (field(j, "value"@) matches Some(v) && is_float_value(v))
}

/// An expression from a message: an immediate `{ "Immediate", "value" }`, a
/// reference `{ "Reference": { "attribute": "tuple::attribute" } }`, a
/// parameter `{ "Parameter": { "predicate", "parameter" } }`, or a comparison
/// `{ "BinaryOperation": { "operator", "left", "right" } }` of a reference
/// with a parameter (with `45` when the right side is not a parameter, and
/// `GreaterThan` for an unknown operator).
pub open spec fn expression_json(j: JsonValue, order: Seq<usize>, tuples: Map<usize, TupleDeclaration>) -> Option<Expression> {
    match j {
        JsonValue::Object(_) => if field(j, "Immediate"@) is Some {
            match field(j, "value"@) {
                Some(v) => match value_json(v) {
                    Some(x) => Some(Expression::Immediate { value: x }),
                    None => None,
                },
                None => None,
            }
        } else if field(j, "Reference"@) is Some {
            match text(field_of(field(j, "Reference"@), "attribute"@)) {
                Some(t) => match attr_ref(order, tuples, t) {
                    Some(a) => Some(Expression::Reference { attribute: a }),
                    None => None,
                },
                None => None,
            }
        } else if field(j, "Parameter"@) is Some {
            parameter_json(field(j, "Parameter"@))
        } else if field(j, "BinaryOperation"@) is Some {
            let b = field(j, "BinaryOperation"@);
            match text(field_of(b, "operator"@)) {
                Some(name) => {
                    let operator = match binary_named(name) {
                        Some(op) => op,
                        None => BinaryOperator::GreaterThan,
                    };
                    match field_of(b, "right"@) {
                        Some(JsonValue::Object(entries)) => {
                            let right = JsonValue::Object(entries);
                            let right_expr = if field(right, "Parameter"@) is Some {
                                parameter_json(field(right, "Parameter"@))
                            } else {
                                Some(Expression::Immediate { value: Value::Int(45) })
                            };
                            match right_expr {
                                Some(re) => match text(field_of(field_of(field_of(b, "left"@), "Reference"@), "attribute"@)) {
                                    Some(t) => match attr_ref(order, tuples, t) {
                                        Some(a) => Some(Expression::BinaryOperation {
                                            operator,
                                            left: Box::new(Expression::Reference { attribute: a }),
                                            right: Box::new(re),
                                        }),
                                        None => None,
                                    },
                                    None => None,
                                },
                                None => None,
                            }
                        },
                        _ => None,
                    }
                },
                None => None,
            }
        } else {
            None
        },
        _ => None,
    }
}

/// The index of the first `::` in `s` from index `k` on.
fn find_sep(s: &str, k: usize) -> (r: Option<usize>)
    requires
        k <= s@.len(),
    ensures
        match r {
            Some(i) => sep_from(s@, k as int) == Some(i as int),
            None => sep_from(s@, k as int) is None,
        },
{
    let n = s.unicode_len();
    let mut i = k;
    while n > 0 && i < n - 1
        invariant
            n == s@.len(),
            k <= i <= n,
            sep_from(s@, k as int) == sep_from(s@, i as int),
        decreases n - i,
    {
        if s.get_char(i) == ':' && s.get_char(i + 1) == ':' {
            return Some(i);
        }
        i = i + 1;
    }
    None
}

/// A `::` found lies within the text.
proof fn lemma_sep_bounds(t: Seq<char>, k: int, i: int)
    requires
        sep_from(t, k) == Some(i),
    ensures
        k <= i,
        i + 1 < t.len(),
    decreases t.len() - k,
{
    if k >= 0 && k + 1 < t.len() && !(t[k] == ':' && t[k + 1] == ':') {
        lemma_sep_bounds(t, k + 1, i);
    }
}

/// The first two parts of `s` split at `::`.
fn split_two(s: &str) -> (r: Option<(&str, &str)>)
    ensures
        match r {
            Some((a, b)) => two_parts(s@) == Some((a@, b@)),
            None => two_parts(s@) is None,
        },
{
    let n = s.unicode_len();
    let i = match find_sep(s, 0) {
        Some(i) => i,
        None => return None,
    };
    proof {
        lemma_sep_bounds(s@, 0, i as int);
    }
    let first = s.substring_char(0, i);
    let rest = s.substring_char(i + 2, n);
    let second = match find_sep(rest, 0) {
        Some(k) => {
            proof {
                lemma_sep_bounds(rest@, 0, k as int);
            }
            rest.substring_char(0, k)
        },
        None => rest,
    };
    Some((first, second))
}

impl Expression {
    /// An expression from a message, its references resolved against the
    /// tuple types the engine declares.
    pub fn from_json<R: FloatReader>(json: &JsonValue, engine: &TRex, reader: &R) -> (r: Option<Expression>)
        requires
            engine.wf(),
        ensures
            !immediate_float(*json) ==> r == expression_json(*json, engine.model().order, engine.model().tuples),
    {
        match json {
            JsonValue::Object(_) => {},
            _ => return None,
        }
        if get_field(json, "Immediate").is_some() {
            match get_field(json, "value") {
                Some(v) => match Value::from_json(v, reader) {
                    Some(x) => Some(Expression::Immediate { value: x }),
                    None => None,
                },
                None => None,
            }
        } else if get_field(json, "Reference").is_some() {
            match as_string(get_field_of(get_field(json, "Reference"), "attribute")) {
                Some(t) => match reference_of(engine, t) {
                    Some(a) => Some(Expression::Reference { attribute: a }),
                    None => None,
                },
                None => None,
            }
        } else if get_field(json, "Parameter").is_some() {
            parameter_of(get_field(json, "Parameter"))
        } else if get_field(json, "BinaryOperation").is_some() {
            let b = get_field(json, "BinaryOperation");
            let name = match as_string(get_field_of(b, "operator")) {
                Some(name) => name,
                None => return None,
            };
            let operator = match binary_from_name(name) {
                Some(op) => op,
                None => BinaryOperator::GreaterThan,
            };
            let right = match get_field_of(b, "right") {
                Some(r) => r,
                None => return None,
            };
            match right {
                JsonValue::Object(_) => {},
                _ => return None,
            }
            let right_expr = if get_field(right, "Parameter").is_some() {
                match parameter_of(get_field(right, "Parameter")) {
                    Some(e) => e,
                    None => return None,
                }
            } else {
                Expression::Immediate { value: Value::Int(45) }
            };
            let t = match as_string(get_field_of(get_field_of(get_field_of(b, "left"), "Reference"), "attribute")) {
                Some(t) => t,
                None => return None,
            };
            match reference_of(engine, t) {
                Some(a) => Some(Expression::BinaryOperation {
                    operator,
                    left: Box::new(Expression::Reference { attribute: a }),
                    right: Box::new(right_expr),
                }),
                None => None,
            }
        } else {
            None
        }
    }
}

/// The attribute `tuple::attribute` names in the engine.
fn reference_of(engine: &TRex, t: &String) -> (r: Option<usize>)
    requires
        engine.wf(),
    ensures
        r == attr_ref(engine.model().order, engine.model().tuples, t@),
{
    match split_two(t.as_str()) {
        Some((a, b)) => engine.tupleattr_id(a, b),
        None => None,
    }
}

/// A parameter reference from `{ "predicate": .., "parameter": .. }`.
fn parameter_of(o: Option<&JsonValue>) -> (r: Option<Expression>)
    ensures
        r == parameter_json(opt_value(o)),
{
    match (as_u64(get_field_of(o, "predicate")), as_u64(get_field_of(o, "parameter"))) {
        (Some(a), Some(b)) => Some(Expression::Parameter { predicate: a as usize, parameter: b as usize }),
        _ => None,
    }
}


/// Whether a message holds, anywhere, a value of type `Float`.
pub open spec fn mentions_float(j: JsonValue) -> bool
    decreases j, 0int,
{
    match j {
        JsonValue::Array(v) => any_float(v@, 0),
        JsonValue::Object(entries) => is_float_value(j) || any_member_float(entries@, 0),
        _ => false,
    }
}

/// Whether an element of `s` from index `k` on mentions a float.
pub open spec fn any_float(s: Seq<JsonValue>, k: int) -> bool
    decreases s, s.len() - k,
{
    if k < 0 || k >= s.len() {
        false
    } else {
        mentions_float(s[k]) || any_float(s, k + 1)
    }
}

/// Whether a member of `s` from index `k` on mentions a float.
pub open spec fn any_member_float(s: Seq<(String, JsonValue)>, k: int) -> bool
    decreases s, s.len() - k,
{
    if k < 0 || k >= s.len() {
        false
    } else {
        mentions_float(s[k].1) || any_member_float(s, k + 1)
    }
}


/// A member that mentions a float makes its list of members mention one.
proof fn lemma_member_float(entries: Seq<(String, JsonValue)>, key: Seq<char>, k: int)
    requires
        0 <= k,
    ensures
        member_from(entries, key, k) matches Some(v) ==> (mentions_float(v) ==> any_member_float(entries, k)),
    decreases entries.len() - k,
{
    if k < entries.len() && entries[k].0@ != key {
        lemma_member_float(entries, key, k + 1);
    }
}

/// A member that mentions a float makes the object mention one.
pub proof fn lemma_field_float(j: JsonValue, key: Seq<char>)
    ensures
        field(j, key) matches Some(v) ==> (mentions_float(v) ==> mentions_float(j)),
{
    match j {
        JsonValue::Object(entries) => lemma_member_float(entries@, key, 0),
        _ => {},
    }
}

/// An element that mentions a float makes the array's elements mention one.
pub proof fn lemma_element_float(s: Seq<JsonValue>, i: int, k: int)
    requires
        0 <= k <= i < s.len(),
        mentions_float(s[i]),
    ensures
        any_float(s, k),
    decreases i - k,
{
    if k < i {
        lemma_element_float(s, i, k + 1);
    }
}

/// A message without floats holds no immediate float.
pub proof fn lemma_no_immediate_float(j: JsonValue)
    requires
        !mentions_float(j),
    ensures
        !immediate_float(j),
        !is_float_value(j),
{
    lemma_field_float(j, "value"@);
}


/// A tuple type from its name; `Static` by default.
pub open spec fn tuple_type_json(o: Option<JsonValue>) -> Option<TupleType> {
    match text(o) {
        Some(t) => Some(if t == "Event"@ {
            TupleType::Event
        } else {
            TupleType::Static
        }),
        None => None,
    }
}

/// An attribute declaration from `{ "name", "ty" }`.
pub open spec fn attribute_json(j: JsonValue) -> Option<AttributeDeclaration> {
    match field(j, "name"@) {
        Some(JsonValue::String(name)) => match basic_type_json(field(j, "ty"@)) {
            Some(ty) => Some(AttributeDeclaration { name, ty }),
            None => None,
        },
        _ => None,
    }
}

/// The attribute declarations of a list of messages.
pub open spec fn attributes_json(v: Seq<JsonValue>) -> Option<Seq<AttributeDeclaration>>
    decreases v.len(),
{
    if v.len() == 0 {
        Some(Seq::empty())
    } else {
        match (attributes_json(v.drop_last()), attribute_json(v.last())) {
            (Some(acc), Some(a)) => Some(acc.push(a)),
            _ => None,
        }
    }
}

/// A tuple declaration from `{ "ty", "id", "name", "attributes" }`: its
/// kind, identifier, name and attributes.
pub open spec fn tuple_declaration_json(j: JsonValue) -> Option<(TupleType, usize, String, Seq<AttributeDeclaration>)> {
    match (tuple_type_json(field(j, "ty"@)), unsigned(field(j, "id"@)), field(j, "name"@), elements(field(j, "attributes"@))) {
        (Some(ty), Some(id), Some(JsonValue::String(name)), Some(v)) => match attributes_json(v) {
            Some(attrs) => Some((ty, id as usize, name, attrs)),
            None => None,
        },
        _ => None,
    }
}

/// An event selection from its name; `Each` by default.
pub open spec fn selection_json(o: Option<JsonValue>) -> Option<EventSelection> {
    match text(o) {
        Some(t) => Some(if t == "First"@ {
            EventSelection::First
        } else if t == "Last"@ {
            EventSelection::Last
        } else {
            EventSelection::Each
        }),
        None => None,
    }
}

/// An aggregator from `{ "Aggregator": name, "value": attribute }`: `Avg`,
/// `Sum`, `Max` or `Min` of the attribute, `Avg` for any other name.
pub open spec fn aggregator_json(j: JsonValue) -> Option<Aggregator> {
    match (text(field(j, "Aggregator"@)), text(field(j, "value"@))) {
        (Some(name), Some(v)) => match parse_usize_spec(v) {
            Some(i) => Some(if name == "Sum"@ {
                Aggregator::Sum(i)
            } else if name == "Max"@ {
                Aggregator::Max(i)
            } else if name == "Min"@ {
                Aggregator::Min(i)
            } else {
                Aggregator::Avg(i)
            }),
            None => None,
        },
        _ => None,
    }
}

/// Nanoseconds per second.
pub const NANOS_PER_SECOND: i64 = 1_000_000_000;

/// Nanoseconds per minute.
pub const NANOS_PER_MINUTE: i64 = 60_000_000_000;

/// A count of units of `unit` nanoseconds, in nanoseconds, when that fits.
pub open spec fn scaled(n: int, unit: int) -> Option<i64> {
    if i64::MIN <= n * unit <= i64::MAX {
        Some((n * unit) as i64)
    } else {
        None
    }
}

/// A timing bound from `{ "type", "lower" }`: `Between` the event of the
/// predicate `lower`, or `Within` a window of `lower` seconds (also for any
/// other type).
pub open spec fn timing_bound_json(j: JsonValue) -> Option<TimingBound> {
    match (text(field(j, "type"@)), text(field(j, "lower"@))) {
        (Some(t), Some(v)) => if t == "Between"@ {
            match parse_usize_spec(v) {
                Some(lower) => Some(TimingBound::Between { lower }),
                None => None,
            }
        } else {
            match parse_i64_spec(v) {
                Some(secs) => match scaled(secs as int, NANOS_PER_SECOND as int) {
                    Some(window) => Some(TimingBound::Within { window }),
                    None => None,
                },
                None => None,
            }
        },
        _ => None,
    }
}

/// A timing from `{ "upper", "bound" }`.
pub open spec fn timing_json(j: JsonValue) -> Option<Timing> {
    match (text(field(j, "upper"@)), field(j, "bound"@)) {
        (Some(u), Some(b)) => match (parse_usize_spec(u), timing_bound_json(b)) {
            (Some(upper), Some(bound)) => Some(Timing { upper, bound }),
            _ => None,
        },
        _ => None,
    }
}

/// A direction from `{ "Order": name }`; ascending by default.
pub open spec fn order_json(j: JsonValue) -> Option<Order> {
    match text(field(j, "Order"@)) {
        Some(t) => Some(if t == "Desc"@ {
            Order::Desc
        } else {
            Order::Asc
        }),
        None => None,
    }
}

/// An ordering criterion from `{ "attribute", "order" }`.
pub open spec fn ordering_json(j: JsonValue) -> Option<AttributeOrdering> {
    match (text(field(j, "attribute"@)), field(j, "order"@)) {
        (Some(a), Some(o)) => match (parse_usize_spec(a), order_json(o)) {
            (Some(attribute), Some(direction)) => Some(AttributeOrdering { attribute, direction }),
            _ => None,
        },
        _ => None,
    }
}

impl TupleType {
    /// A tuple type from its name; `Static` by default.
    pub fn from_json(json: &JsonValue) -> (r: Option<TupleType>)
        ensures
            r == tuple_type_json(Some(*json)),
    {
        match json {
            JsonValue::String(t) => Some(if *t == String::from_str("Event") {
                TupleType::Event
            } else {
                TupleType::Static
            }),
            _ => None,
        }
    }
}

impl AttributeDeclaration {
    /// An attribute declaration from `{ "name", "ty" }`.
    pub fn from_json(json: &JsonValue) -> (r: Option<AttributeDeclaration>)
        ensures
            r == attribute_json(*json),
    {
        let name = match get_field(json, "name") {
            Some(JsonValue::String(n)) => n,
            _ => return None,
        };
        match get_field(json, "ty") {
            Some(t) => match BasicType::from_json(t) {
                Some(ty) => Some(AttributeDeclaration { name: name.clone(), ty }),
                None => None,
            },
            None => None,
        }
    }
}

impl TupleDeclaration {
    /// A tuple declaration from `{ "ty", "id", "name", "attributes" }`.
    pub fn from_json(json: &JsonValue) -> (r: Option<TupleDeclaration>)
        ensures
            match r {
                Some(d) => tuple_declaration_json(*json) == Some((d.ty, d.id, d.name, d.attributes@)),
                None => tuple_declaration_json(*json) is None,
            },
    {
        let ty = match get_field(json, "ty") {
            Some(t) => match TupleType::from_json(t) {
                Some(ty) => ty,
                None => return None,
            },
            None => return None,
        };
        let id = match as_u64(get_field(json, "id")) {
            Some(id) => id as usize,
            None => return None,
        };
        let name = match get_field(json, "name") {
            Some(JsonValue::String(n)) => n.clone(),
            _ => return None,
        };
        let v = match as_array(get_field(json, "attributes")) {
            Some(v) => v,
            None => return None,
        };
        let mut attributes: Vec<AttributeDeclaration> = Vec::new();
        let mut i: usize = 0;
        proof {
            assert(v@.subrange(0, 0) =~= Seq::<JsonValue>::empty());
        }
        while i < v.len()
            invariant
                i <= v@.len(),
                elements(field(*json, "attributes"@)) == Some(v@),
                tuple_type_json(field(*json, "ty"@)) == Some(ty),
                unsigned(field(*json, "id"@)) matches Some(x) && x as usize == id,
                field(*json, "name"@) == Some(JsonValue::String(name)),
                attributes_json(v@.subrange(0, i as int)) == Some(attributes@),
            decreases v@.len() - i,
        {
            proof {
                let pre = v@.subrange(0, i + 1);
                assert(pre.drop_last() =~= v@.subrange(0, i as int));
                assert(pre.last() == v@[i as int]);
            }
            match AttributeDeclaration::from_json(&v[i]) {
                Some(a) => attributes.push(a),
                None => {
                    proof {
                        lemma_attributes_none(v@, i + 1);
                    }
                    return None;
                },
            }
            i = i + 1;
        }
        proof {
            assert(v@.subrange(0, v@.len() as int) =~= v@);
        }
        Some(TupleDeclaration { ty, id, name, attributes })
    }
}

/// Once a prefix of the attributes fails, the whole list fails.
proof fn lemma_attributes_none(v: Seq<JsonValue>, k: int)
    requires
        0 <= k <= v.len(),
        attributes_json(v.subrange(0, k)) is None,
    ensures
        attributes_json(v) is None,
    decreases v.len() - k,
{
    if k < v.len() {
        assert(v.subrange(0, k + 1).drop_last() =~= v.subrange(0, k));
        lemma_attributes_none(v, k + 1);
    } else {
        assert(v.subrange(0, k) =~= v);
    }
}

impl EventSelection {
    /// An event selection from its name; `Each` by default.
    pub fn from_json(json: &JsonValue) -> (r: Option<EventSelection>)
        ensures
            r == selection_json(Some(*json)),
    {
        match json {
            JsonValue::String(t) => Some(if *t == String::from_str("First") {
                EventSelection::First
            } else if *t == String::from_str("Last") {
                EventSelection::Last
            } else {
                EventSelection::Each
            }),
            _ => None,
        }
    }
}

impl Aggregator {
    /// An aggregator from `{ "Aggregator": name, "value": attribute }`; any
    /// name other than `Sum`, `Max` and `Min` (`Count` too) reads as `Avg`.
    /// `None` for a malformed message, on which the service stops.
    pub fn from_json(json: &JsonValue) -> (r: Option<Aggregator>)
        ensures
            r == aggregator_json(*json),
    {
        let name = match as_string(get_field(json, "Aggregator")) {
            Some(n) => n,
            None => return None,
        };
        let i = match as_string(get_field(json, "value")) {
            Some(v) => match parse_usize(v) {
                Some(i) => i,
                None => return None,
            },
            None => return None,
        };
        Some(if *name == String::from_str("Sum") {
            Aggregator::Sum(i)
        } else if *name == String::from_str("Max") {
            Aggregator::Max(i)
        } else if *name == String::from_str("Min") {
            Aggregator::Min(i)
        } else {
            Aggregator::Avg(i)
        })
    }
}

/// A count of units in nanoseconds, when that fits.
fn scale(n: i64, unit: i64) -> (r: Option<i64>)
    requires
        unit > 0,
    ensures
        r == scaled(n as int, unit as int),
{
    n.checked_mul(unit)
}

impl TimingBound {
    /// A timing bound from `{ "type", "lower" }`.
    pub fn from_json(json: &JsonValue) -> (r: Option<TimingBound>)
        ensures
            r == timing_bound_json(*json),
    {
        let t = match as_string(get_field(json, "type")) {
            Some(t) => t,
            None => return None,
        };
        let v = match as_string(get_field(json, "lower")) {
            Some(v) => v,
            None => return None,
        };
        if *t == String::from_str("Between") {
            match parse_usize(v) {
                Some(lower) => Some(TimingBound::Between { lower }),
                None => None,
            }
        } else {
            match parse_i64(v) {
                Some(secs) => match scale(secs, NANOS_PER_SECOND) {
                    Some(window) => Some(TimingBound::Within { window }),
                    None => None,
                },
                None => None,
            }
        }
    }
}

impl Timing {
    /// A timing from `{ "upper", "bound" }`.
    pub fn from_json(json: &JsonValue) -> (r: Option<Timing>)
        ensures
            r == timing_json(*json),
    {
        let upper = match as_string(get_field(json, "upper")) {
            Some(u) => match parse_usize(u) {
                Some(x) => x,
                None => return None,
            },
            None => return None,
        };
        match get_field(json, "bound") {
            Some(b) => match TimingBound::from_json(b) {
                Some(bound) => Some(Timing { upper, bound }),
                None => None,
            },
            None => None,
        }
    }
}

impl Order {
    /// A direction from `{ "Order": name }`; ascending by default.
    pub fn from_json(json: &JsonValue) -> (r: Option<Order>)
        ensures
            r == order_json(*json),
    {
        match as_string(get_field(json, "Order")) {
            Some(t) => Some(if *t == String::from_str("Desc") {
                Order::Desc
            } else {
                Order::Asc
            }),
            None => None,
        }
    }
}

impl AttributeOrdering {
    /// An ordering criterion from `{ "attribute", "order" }`.
    pub fn from_json(json: &JsonValue) -> (r: Option<AttributeOrdering>)
        ensures
            r == ordering_json(*json),
    {
        let attribute = match as_string(get_field(json, "attribute")) {
            Some(a) => match parse_usize(a) {
                Some(x) => x,
                None => return None,
            },
            None => return None,
        };
        match get_field(json, "order") {
            Some(o) => match Order::from_json(o) {
                Some(direction) => Some(AttributeOrdering { attribute, direction }),
                None => None,
            },
            None => None,
        }
    }
}


/// The expressions of a list of messages.
pub open spec fn exprs_json(v: Seq<JsonValue>, order: Seq<usize>, tuples: Map<usize, TupleDeclaration>) -> Option<Seq<Expression>>
    decreases v.len(),
{
    if v.len() == 0 {
        Some(Seq::empty())
    } else {
        match (exprs_json(v.drop_last(), order, tuples), expression_json(v.last(), order, tuples)) {
            (Some(acc), Some(e)) => Some(acc.push(e)),
            _ => None,
        }
    }
}

/// A parameter declaration from `{ "name", "expression" }`.
pub open spec fn param_json(j: JsonValue, order: Seq<usize>, tuples: Map<usize, TupleDeclaration>) -> Option<ParameterDeclaration> {
    match (field(j, "name"@), field(j, "expression"@)) {
        (Some(JsonValue::String(name)), Some(e)) => match expression_json(e, order, tuples) {
            Some(expression) => Some(ParameterDeclaration { name, expression }),
            None => None,
        },
        _ => None,
    }
}

/// The parameter declarations of a list of messages.
pub open spec fn params_json(v: Seq<JsonValue>, order: Seq<usize>, tuples: Map<usize, TupleDeclaration>) -> Option<Seq<ParameterDeclaration>>
    decreases v.len(),
{
    if v.len() == 0 {
        Some(Seq::empty())
    } else {
        match (params_json(v.drop_last(), order, tuples), param_json(v.last(), order, tuples)) {
            (Some(acc), Some(p)) => Some(acc.push(p)),
            _ => None,
        }
    }
}

/// Whether the first `k` elements of `s` mention no float.
pub open spec fn prefix_float_free(s: Seq<JsonValue>, k: int) -> bool {
    forall|i: int| 0 <= i < k ==> !#[trigger] mentions_float(s[i])
}

/// Elements that mention no float, when the array mentions none.
proof fn lemma_elements_float_free(s: Seq<JsonValue>)
    requires
        !any_float(s, 0),
    ensures
        prefix_float_free(s, s.len() as int),
{
    assert forall|i: int| 0 <= i < s.len() implies !#[trigger] mentions_float(s[i]) by {
        if mentions_float(s[i]) {
            lemma_element_float(s, i, 0);
        }
    }
}

/// Once a prefix of the expressions fails, the whole list fails.
proof fn lemma_exprs_none(v: Seq<JsonValue>, k: int, order: Seq<usize>, tuples: Map<usize, TupleDeclaration>)
    requires
        0 <= k <= v.len(),
        exprs_json(v.subrange(0, k), order, tuples) is None,
    ensures
        exprs_json(v, order, tuples) is None,
    decreases v.len() - k,
{
    if k < v.len() {
        assert(v.subrange(0, k + 1).drop_last() =~= v.subrange(0, k));
        lemma_exprs_none(v, k + 1, order, tuples);
    } else {
        assert(v.subrange(0, k) =~= v);
    }
}

/// Once a prefix of the parameters fails, the whole list fails.
proof fn lemma_params_none(v: Seq<JsonValue>, k: int, order: Seq<usize>, tuples: Map<usize, TupleDeclaration>)
    requires
        0 <= k <= v.len(),
        params_json(v.subrange(0, k), order, tuples) is None,
    ensures
        params_json(v, order, tuples) is None,
    decreases v.len() - k,
{
    if k < v.len() {
        assert(v.subrange(0, k + 1).drop_last() =~= v.subrange(0, k));
        lemma_params_none(v, k + 1, order, tuples);
    } else {
        assert(v.subrange(0, k) =~= v);
    }
}

/// The expressions of a list of messages; exactly [`exprs_json`] when the
/// list mentions no float.
fn exprs_from<R: FloatReader>(v: &Vec<JsonValue>, engine: &TRex, reader: &R) -> (r: Option<Vec<Expression>>)
    requires
        engine.wf(),
    ensures
        !any_float(v@, 0) ==> match r {
            Some(x) => exprs_json(v@, engine.model().order, engine.model().tuples) == Some(x@),
            None => exprs_json(v@, engine.model().order, engine.model().tuples) is None,
        },
{
    let ghost free = !any_float(v@, 0);
    proof {
        if free {
            lemma_elements_float_free(v@);
        }
        assert(v@.subrange(0, 0) =~= Seq::<JsonValue>::empty());
    }
    let mut out: Vec<Expression> = Vec::new();
    let mut i: usize = 0;
    while i < v.len()
        invariant
            engine.wf(),
            free == !any_float(v@, 0),
            free ==> prefix_float_free(v@, v@.len() as int),
            i <= v@.len(),
            free ==> exprs_json(v@.subrange(0, i as int), engine.model().order, engine.model().tuples) == Some(out@),
        decreases v@.len() - i,
    {
        proof {
            let pre = v@.subrange(0, i + 1);
            assert(pre.drop_last() =~= v@.subrange(0, i as int));
            assert(pre.last() == v@[i as int]);
            if free {
                assert(!mentions_float(v@[i as int]));
                lemma_no_immediate_float(v@[i as int]);
            }
        }
        match Expression::from_json(&v[i], engine, reader) {
            Some(e) => out.push(e),
            None => {
                proof {
                    if free {
                        lemma_exprs_none(v@, i + 1, engine.model().order, engine.model().tuples);
                    }
                }
                return None;
            },
        }
        i = i + 1;
    }
    proof {
        assert(v@.subrange(0, v@.len() as int) =~= v@);
    }
    Some(out)
}

impl ParameterDeclaration {
    /// A parameter declaration from `{ "name", "expression" }`.
    pub fn from_json<R: FloatReader>(json: &JsonValue, engine: &TRex, reader: &R) -> (r: Option<ParameterDeclaration>)
        requires
            engine.wf(),
        ensures
            !mentions_float(*json) ==> r == param_json(*json, engine.model().order, engine.model().tuples),
    {
        proof {
            lemma_field_float(*json, "expression"@);
            if let Some(e) = field(*json, "expression"@) {
                if !mentions_float(*json) {
                    lemma_no_immediate_float(e);
                }
            }
        }
        let name = match get_field(json, "name") {
            Some(JsonValue::String(n)) => n,
            _ => return None,
        };
        match get_field(json, "expression") {
            Some(e) => match Expression::from_json(e, engine, reader) {
                Some(expression) => Some(ParameterDeclaration { name: name.clone(), expression }),
                None => None,
            },
            None => None,
        }
    }
}

/// The parameter declarations of a list of messages; exactly
/// [`params_json`] when the list mentions no float.
fn params_from<R: FloatReader>(v: &Vec<JsonValue>, engine: &TRex, reader: &R) -> (r: Option<Vec<ParameterDeclaration>>)
    requires
        engine.wf(),
    ensures
        !any_float(v@, 0) ==> match r {
            Some(x) => params_json(v@, engine.model().order, engine.model().tuples) == Some(x@),
            None => params_json(v@, engine.model().order, engine.model().tuples) is None,
        },
{
    let ghost free = !any_float(v@, 0);
    proof {
        if free {
            lemma_elements_float_free(v@);
        }
        assert(v@.subrange(0, 0) =~= Seq::<JsonValue>::empty());
    }
    let mut out: Vec<ParameterDeclaration> = Vec::new();
    let mut i: usize = 0;
    while i < v.len()
        invariant
            engine.wf(),
            free == !any_float(v@, 0),
            free ==> prefix_float_free(v@, v@.len() as int),
            i <= v@.len(),
            free ==> params_json(v@.subrange(0, i as int), engine.model().order, engine.model().tuples) == Some(out@),
        decreases v@.len() - i,
    {
        proof {
            let pre = v@.subrange(0, i + 1);
            assert(pre.drop_last() =~= v@.subrange(0, i as int));
            assert(pre.last() == v@[i as int]);
            if free {
                assert(!mentions_float(v@[i as int]));
            }
        }
        match ParameterDeclaration::from_json(&v[i], engine, reader) {
            Some(p) => out.push(p),
            None => {
                proof {
                    if free {
                        lemma_params_none(v@, i + 1, engine.model().order, engine.model().tuples);
                    }
                }
                return None;
            },
        }
        i = i + 1;
    }
    proof {
        assert(v@.subrange(0, v@.len() as int) =~= v@);
    }
    Some(out)
}


/// The timing bound of an event predicate message: `Between` when it has a
/// `Between` member, else `Within` a window of minutes.
pub open spec fn event_bound_json(b: Option<JsonValue>) -> Option<TimingBound> {
    if field_of(b, "Between"@) is Some {
        match unsigned(field_of(field_of(b, "Between"@), "lower"@)) {
            Some(l) => Some(TimingBound::Between { lower: l as usize }),
            None => None,
        }
    } else {
        match unsigned(field_of(field_of(b, "Within"@), "window"@)) {
            Some(w) => match scaled((w as i64) as int, NANOS_PER_MINUTE as int) {
                Some(ns) => Some(TimingBound::Within { window: ns }),
                None => None,
            },
            None => None,
        }
    }
}

/// A predicate type from `{ "Trigger": { "parameters" } }`, `{ "Event": {
/// "selection", "parameters", "timing": { "upper", "bound" } } }`, or `{
/// "parameters" }` for a trigger.
pub open spec fn predicate_type_json(j: JsonValue, order: Seq<usize>, tuples: Map<usize, TupleDeclaration>) -> Option<SpecPredicateType> {
    match j {
        JsonValue::Object(_) => if field(j, "Trigger"@) is Some {
            match elements(field_of(field(j, "Trigger"@), "parameters"@)) {
                Some(v) => match params_json(v, order, tuples) {
                    Some(ps) => Some(SpecPredicateType::Trigger { parameters: ps }),
                    None => None,
                },
                None => None,
            }
        } else if field(j, "Event"@) is Some {
            let e = field(j, "Event"@);
            let timing = field_of(e, "timing"@);
            let b = field_of(timing, "bound"@);
            match (elements(field_of(e, "parameters"@)), b, selection_json(field_of(e, "selection"@)), unsigned(field_of(timing, "upper"@))) {
                (Some(v), Some(JsonValue::Object(_)), Some(selection), Some(up)) => match (params_json(v, order, tuples), event_bound_json(b)) {
                    (Some(ps), Some(bound)) => Some(SpecPredicateType::Event {
                        selection,
                        parameters: ps,
                        timing: Timing { upper: up as usize, bound },
                    }),
                    _ => None,
                },
                _ => None,
            }
        } else {
            match elements(field(j, "parameters"@)) {
                Some(v) => match params_json(v, order, tuples) {
                    Some(ps) => Some(SpecPredicateType::Trigger { parameters: ps }),
                    None => None,
                },
                None => None,
            }
        },
        _ => None,
    }
}

/// An array member of a message mentions no float when the message mentions
/// none.
proof fn lemma_array_member_free(j: JsonValue, key: Seq<char>)
    requires
        !mentions_float(j),
    ensures
        field(j, key) matches Some(JsonValue::Array(v)) ==> !any_float(v@, 0),
        field(j, key) matches Some(x) ==> !mentions_float(x),
{
    lemma_field_float(j, key);
}

/// The timing bound of an event predicate message.
fn event_bound(b: Option<&JsonValue>) -> (r: Option<TimingBound>)
    ensures
        r == event_bound_json(opt_value(b)),
{
    if get_field_of(b, "Between").is_some() {
        match as_u64(get_field_of(get_field_of(b, "Between"), "lower")) {
            Some(l) => Some(TimingBound::Between { lower: l as usize }),
            None => None,
        }
    } else {
        match as_u64(get_field_of(get_field_of(b, "Within"), "window")) {
            Some(w) => match scale(w as i64, NANOS_PER_MINUTE) {
                Some(ns) => Some(TimingBound::Within { window: ns }),
                None => None,
            },
            None => None,
        }
    }
}

impl PredicateType {
    /// A predicate type from a message: a trigger or an event predicate.
    pub fn from_json<R: FloatReader>(json: &JsonValue, engine: &TRex, reader: &R) -> (r: Option<PredicateType>)
        requires
            engine.wf(),
        ensures
            !mentions_float(*json) ==> match r {
                Some(t) => predicate_type_json(*json, engine.model().order, engine.model().tuples) == Some(t@),
                None => predicate_type_json(*json, engine.model().order, engine.model().tuples) is None,
            },
    {
        match json {
            JsonValue::Object(_) => {},
            _ => return None,
        }
        proof {
            if !mentions_float(*json) {
                lemma_array_member_free(*json, "Trigger"@);
                lemma_array_member_free(*json, "Event"@);
                lemma_array_member_free(*json, "parameters"@);
                if let Some(t) = field(*json, "Trigger"@) {
                    lemma_array_member_free(t, "parameters"@);
                }
                if let Some(e) = field(*json, "Event"@) {
                    lemma_array_member_free(e, "parameters"@);
                }
            }
        }
        if get_field(json, "Trigger").is_some() {
            match as_array(get_field_of(get_field(json, "Trigger"), "parameters")) {
                Some(v) => match params_from(v, engine, reader) {
                    Some(ps) => Some(PredicateType::Trigger { parameters: ps }),
                    None => None,
                },
                None => None,
            }
        } else if get_field(json, "Event").is_some() {
            let e = get_field(json, "Event");
            let timing = get_field_of(e, "timing");
            let b = get_field_of(timing, "bound");
            let v = match as_array(get_field_of(e, "parameters")) {
                Some(v) => v,
                None => return None,
            };
            match b {
                Some(JsonValue::Object(_)) => {},
                _ => return None,
            }
            let selection = match get_field_of(e, "selection") {
                Some(s) => match EventSelection::from_json(s) {
                    Some(x) => x,
                    None => return None,
                },
                None => return None,
            };
            let up = match as_u64(get_field_of(timing, "upper")) {
                Some(u) => u,
                None => return None,
            };
            let ps = match params_from(v, engine, reader) {
                Some(ps) => ps,
                None => return None,
            };
            match event_bound(b) {
                Some(bound) => Some(PredicateType::Event {
                    selection,
                    parameters: ps,
                    timing: Timing { upper: up as usize, bound },
                }),
                None => None,
            }
        } else {
            match as_array(get_field(json, "parameters")) {
                Some(v) => match params_from(v, engine, reader) {
                    Some(ps) => Some(PredicateType::Trigger { parameters: ps }),
                    None => None,
                },
                None => None,
            }
        }
    }
}


/// A constrained tuple from `{ "ty_id": name, "constraints", "alias" }`:
/// the identifier of the first tuple type of that name, the constraints and
/// the alias.
pub open spec fn constrained_json(j: JsonValue, order: Seq<usize>, tuples: Map<usize, TupleDeclaration>) -> Option<(usize, Seq<Expression>, String)> {
    match (elements(field(j, "constraints"@)), text(field(j, "ty_id"@)), field(j, "alias"@)) {
        (Some(v), Some(name), Some(JsonValue::String(alias))) => match (exprs_json(v, order, tuples), first_named(order, tuples, name)) {
            (Some(cs), Some(id)) => Some((id, cs, alias)),
            _ => None,
        },
        _ => None,
    }
}

/// A predicate from `{ "ty", "tuple" }`.
pub open spec fn predicate_json(j: JsonValue, order: Seq<usize>, tuples: Map<usize, TupleDeclaration>) -> Option<SpecPredicate> {
    match (field(j, "ty"@), field(j, "tuple"@)) {
        (Some(t), Some(u)) => match (predicate_type_json(t, order, tuples), constrained_json(u, order, tuples)) {
            (Some(ty), Some((ty_id, constraints, alias))) => Some(SpecPredicate { ty, ty_id, constraints, alias }),
            _ => None,
        },
        _ => None,
    }
}

impl ConstrainedTuple {
    /// A constrained tuple from `{ "ty_id": name, "constraints", "alias" }`.
    pub fn from_json<R: FloatReader>(json: &JsonValue, engine: &TRex, reader: &R) -> (r: Option<ConstrainedTuple>)
        requires
            engine.wf(),
        ensures
            !mentions_float(*json) ==> match r {
                Some(c) => constrained_json(*json, engine.model().order, engine.model().tuples) == Some((c.ty_id, c.constraints@, c.alias)),
                None => constrained_json(*json, engine.model().order, engine.model().tuples) is None,
            },
    {
        proof {
            if !mentions_float(*json) {
                lemma_array_member_free(*json, "constraints"@);
            }
        }
        let v = match as_array(get_field(json, "constraints")) {
            Some(v) => v,
            None => return None,
        };
        let name = match as_string(get_field(json, "ty_id")) {
            Some(n) => n,
            None => return None,
        };
        let alias = match get_field(json, "alias") {
            Some(JsonValue::String(a)) => a,
            _ => return None,
        };
        let constraints = match exprs_from(v, engine, reader) {
            Some(cs) => cs,
            None => return None,
        };
        match engine.tuple_id(name.as_str()) {
            Some(ty_id) => Some(ConstrainedTuple { ty_id, constraints, alias: alias.clone() }),
            None => None,
        }
    }
}

impl Predicate {
    /// A predicate from `{ "ty", "tuple" }`.
    pub fn from_json<R: FloatReader>(json: &JsonValue, engine: &TRex, reader: &R) -> (r: Option<Predicate>)
        requires
            engine.wf(),
        ensures
            !mentions_float(*json) ==> match r {
                Some(p) => predicate_json(*json, engine.model().order, engine.model().tuples) == Some(p@),
                None => predicate_json(*json, engine.model().order, engine.model().tuples) is None,
            },
    {
        proof {
            if !mentions_float(*json) {
                lemma_array_member_free(*json, "ty"@);
                lemma_array_member_free(*json, "tuple"@);
            }
        }
        let t = match get_field(json, "ty") {
            Some(t) => t,
            None => return None,
        };
        let u = match get_field(json, "tuple") {
            Some(u) => u,
            None => return None,
        };
        let ty = match PredicateType::from_json(t, engine, reader) {
            Some(ty) => ty,
            None => return None,
        };
        match ConstrainedTuple::from_json(u, engine, reader) {
            Some(tuple) => Some(Predicate { ty, tuple }),
            None => None,
        }
    }
}

/// The predicates of a list of messages.
pub open spec fn preds_json(v: Seq<JsonValue>, order: Seq<usize>, tuples: Map<usize, TupleDeclaration>) -> Option<Seq<SpecPredicate>>
    decreases v.len(),
{
    if v.len() == 0 {
        Some(Seq::empty())
    } else {
        match (preds_json(v.drop_last(), order, tuples), predicate_json(v.last(), order, tuples)) {
            (Some(acc), Some(p)) => Some(acc.push(p)),
            _ => None,
        }
    }
}

/// The numbers, as text, of a list of messages.
pub open spec fn indices_json(v: Seq<JsonValue>) -> Option<Seq<usize>>
    decreases v.len(),
{
    if v.len() == 0 {
        Some(Seq::empty())
    } else {
        match (indices_json(v.drop_last()), text(Some(v.last()))) {
            (Some(acc), Some(t)) => match parse_usize_spec(t) {
                Some(x) => Some(acc.push(x)),
                None => None,
            },
            _ => None,
        }
    }
}

/// An event template from `{ "ty_id": name, "attributes" }`: the first tuple
/// type of that name and the expressions.
pub open spec fn template_json(j: JsonValue, order: Seq<usize>, tuples: Map<usize, TupleDeclaration>) -> Option<(usize, Seq<Expression>)> {
    match (elements(field(j, "attributes"@)), text(field(j, "ty_id"@))) {
        (Some(v), Some(name)) => match (exprs_json(v, order, tuples), first_named(order, tuples, name)) {
            (Some(es), Some(id)) => Some((id, es)),
            _ => None,
        },
        _ => None,
    }
}

/// A rule from `{ "predicates", "filters", "consuming", "event_template" }`:
/// its predicates, filters, emitted type, template expressions and consumed
/// predicates.
pub open spec fn rule_json(j: JsonValue, order: Seq<usize>, tuples: Map<usize, TupleDeclaration>) -> Option<(Seq<SpecPredicate>, Seq<Expression>, usize, Seq<Expression>, Seq<usize>)> {
    match (elements(field(j, "predicates"@)), elements(field(j, "filters"@)), elements(field(j, "consuming"@)), field(j, "event_template"@)) {
        (Some(p), Some(f), Some(c), Some(t)) => match (preds_json(p, order, tuples), exprs_json(f, order, tuples), indices_json(c), template_json(t, order, tuples)) {
            (Some(ps), Some(fs), Some(cs), Some((ty, es))) => Some((ps, fs, ty, es, cs)),
            _ => None,
        },
        _ => None,
    }
}

impl EventTemplate {
    /// An event template from `{ "ty_id": name, "attributes" }`.
    pub fn from_json<R: FloatReader>(json: &JsonValue, engine: &TRex, reader: &R) -> (r: Option<EventTemplate>)
        requires
            engine.wf(),
        ensures
            !mentions_float(*json) ==> match r {
                Some(t) => template_json(*json, engine.model().order, engine.model().tuples) == Some((t.ty_id, t.attributes@)),
                None => template_json(*json, engine.model().order, engine.model().tuples) is None,
            },
    {
        proof {
            if !mentions_float(*json) {
                lemma_array_member_free(*json, "attributes"@);
            }
        }
        let v = match as_array(get_field(json, "attributes")) {
            Some(v) => v,
            None => return None,
        };
        let name = match as_string(get_field(json, "ty_id")) {
            Some(n) => n,
            None => return None,
        };
        let attributes = match exprs_from(v, engine, reader) {
            Some(es) => es,
            None => return None,
        };
        match engine.tuple_id(name.as_str()) {
            Some(ty_id) => Some(EventTemplate { ty_id, attributes }),
            None => None,
        }
    }
}

/// Once a prefix of the predicates fails, the whole list fails.
proof fn lemma_preds_none(v: Seq<JsonValue>, k: int, order: Seq<usize>, tuples: Map<usize, TupleDeclaration>)
    requires
        0 <= k <= v.len(),
        preds_json(v.subrange(0, k), order, tuples) is None,
    ensures
        preds_json(v, order, tuples) is None,
    decreases v.len() - k,
{
    if k < v.len() {
        assert(v.subrange(0, k + 1).drop_last() =~= v.subrange(0, k));
        lemma_preds_none(v, k + 1, order, tuples);
    } else {
        assert(v.subrange(0, k) =~= v);
    }
}

/// Once a prefix of the indices fails, the whole list fails.
proof fn lemma_indices_none(v: Seq<JsonValue>, k: int)
    requires
        0 <= k <= v.len(),
        indices_json(v.subrange(0, k)) is None,
    ensures
        indices_json(v) is None,
    decreases v.len() - k,
{
    if k < v.len() {
        assert(v.subrange(0, k + 1).drop_last() =~= v.subrange(0, k));
        lemma_indices_none(v, k + 1);
    } else {
        assert(v.subrange(0, k) =~= v);
    }
}

/// The models of a list of predicates.
pub open spec fn preds_view(v: Seq<Predicate>) -> Seq<SpecPredicate> {
    v.map_values(|p: Predicate| p@)
}

/// The predicates of a list of messages.
fn preds_from<R: FloatReader>(v: &Vec<JsonValue>, engine: &TRex, reader: &R) -> (r: Option<Vec<Predicate>>)
    requires
        engine.wf(),
    ensures
        !any_float(v@, 0) ==> match r {
            Some(x) => preds_json(v@, engine.model().order, engine.model().tuples) == Some(preds_view(x@)),
            None => preds_json(v@, engine.model().order, engine.model().tuples) is None,
        },
{
    let ghost free = !any_float(v@, 0);
    proof {
        if free {
            lemma_elements_float_free(v@);
        }
        assert(v@.subrange(0, 0) =~= Seq::<JsonValue>::empty());
    }
    let mut out: Vec<Predicate> = Vec::new();
    let mut i: usize = 0;
    proof {
        assert(preds_view(out@) =~= Seq::<SpecPredicate>::empty());
    }
    while i < v.len()
        invariant
            engine.wf(),
            free == !any_float(v@, 0),
            free ==> prefix_float_free(v@, v@.len() as int),
            i <= v@.len(),
            free ==> preds_json(v@.subrange(0, i as int), engine.model().order, engine.model().tuples) == Some(preds_view(out@)),
        decreases v@.len() - i,
    {
        proof {
            let pre = v@.subrange(0, i + 1);
            assert(pre.drop_last() =~= v@.subrange(0, i as int));
            assert(pre.last() == v@[i as int]);
            if free {
                assert(!mentions_float(v@[i as int]));
            }
        }
        match Predicate::from_json(&v[i], engine, reader) {
            Some(p) => {
                let ghost before = out@;
                let ghost pv = p@;
                out.push(p);
                proof {
                    assert(preds_view(out@) =~= preds_view(before).push(pv));
                }
            },
            None => {
                proof {
                    if free {
                        lemma_preds_none(v@, i + 1, engine.model().order, engine.model().tuples);
                    }
                }
                return None;
            },
        }
        i = i + 1;
    }
    proof {
        assert(v@.subrange(0, v@.len() as int) =~= v@);
    }
    Some(out)
}

/// The numbers, as text, of a list of messages.
fn indices_from(v: &Vec<JsonValue>) -> (r: Option<Vec<usize>>)
    ensures
        match r {
            Some(x) => indices_json(v@) == Some(x@),
            None => indices_json(v@) is None,
        },
{
    let mut out: Vec<usize> = Vec::new();
    let mut i: usize = 0;
    proof {
        assert(v@.subrange(0, 0) =~= Seq::<JsonValue>::empty());
    }
    while i < v.len()
        invariant
            i <= v@.len(),
            indices_json(v@.subrange(0, i as int)) == Some(out@),
        decreases v@.len() - i,
    {
        proof {
            let pre = v@.subrange(0, i + 1);
            assert(pre.drop_last() =~= v@.subrange(0, i as int));
            assert(pre.last() == v@[i as int]);
        }
        let parsed = match as_string(Some(&v[i])) {
            Some(t) => parse_usize(t),
            None => None,
        };
        match parsed {
            Some(x) => out.push(x),
            None => {
                proof {
                    lemma_indices_none(v@, i + 1);
                }
                return None;
            },
        }
        i = i + 1;
    }
    proof {
        assert(v@.subrange(0, v@.len() as int) =~= v@);
    }
    Some(out)
}

impl Rule {
    /// A rule from `{ "predicates", "filters", "consuming", "event_template" }`.
    pub fn from_json<R: FloatReader>(json: &JsonValue, engine: &TRex, reader: &R) -> (r: Option<Rule>)
        requires
            engine.wf(),
        ensures
            !mentions_float(*json) ==> match r {
                Some(x) => rule_json(*json, engine.model().order, engine.model().tuples) == Some((
                    preds_view(x.predicates@),
                    x.filters@,
                    x.event_template.ty_id,
                    x.event_template.attributes@,
                    x.consuming@,
                )),
                None => rule_json(*json, engine.model().order, engine.model().tuples) is None,
            },
    {
        proof {
            if !mentions_float(*json) {
                lemma_array_member_free(*json, "predicates"@);
                lemma_array_member_free(*json, "filters"@);
                lemma_array_member_free(*json, "event_template"@);
            }
        }
        let p = match as_array(get_field(json, "predicates")) {
            Some(v) => v,
            None => return None,
        };
        let f = match as_array(get_field(json, "filters")) {
            Some(v) => v,
            None => return None,
        };
        let c = match as_array(get_field(json, "consuming")) {
            Some(v) => v,
            None => return None,
        };
        let t = match get_field(json, "event_template") {
            Some(t) => t,
            None => return None,
        };
        let predicates = match preds_from(p, engine, reader) {
            Some(ps) => ps,
            None => return None,
        };
        let filters = match exprs_from(f, engine, reader) {
            Some(fs) => fs,
            None => return None,
        };
        let consuming = match indices_from(c) {
            Some(cs) => cs,
            None => return None,
        };
        match EventTemplate::from_json(t, engine, reader) {
            Some(event_template) => Some(Rule { predicates, filters, event_template, consuming }),
            None => None,
        }
    }
}

/// The values of a list of value messages.
pub open spec fn values_json(v: Seq<JsonValue>) -> Option<Seq<Value>>
    decreases v.len(),
{
    if v.len() == 0 {
        Some(Seq::empty())
    } else {
        match (values_json(v.drop_last()), value_json(v.last())) {
            (Some(acc), Some(x)) => Some(acc.push(x)),
            _ => None,
        }
    }
}

/// A tuple from `{ "ty_id": text, "data": [value messages] }`, as its type
/// and its values.
pub open spec fn tuple_json(j: JsonValue) -> Option<(usize, Seq<Value>)> {
    match (text(field(j, "ty_id"@)), elements(field(j, "data"@))) {
        (Some(t), Some(d)) => match (parse_usize_spec(t), values_json(d)) {
            (Some(ty_id), Some(data)) => Some((ty_id, data)),
            _ => None,
        },
        _ => None,
    }
}

/// Once a prefix of the values fails, the whole list fails.
proof fn lemma_values_none(v: Seq<JsonValue>, k: int)
    requires
        0 <= k <= v.len(),
        values_json(v.subrange(0, k)) is None,
    ensures
        values_json(v) is None,
    decreases v.len() - k,
{
    if k < v.len() {
        assert(v.subrange(0, k + 1).drop_last() =~= v.subrange(0, k));
        lemma_values_none(v, k + 1);
    } else {
        assert(v.subrange(0, k) =~= v);
    }
}

/// The values of a list of value messages; exactly [`values_json`] when the
/// list mentions no float.
fn values_from<R: FloatReader>(v: &Vec<JsonValue>, reader: &R) -> (r: Option<Vec<Value>>)
    ensures
        !any_float(v@, 0) ==> match r {
            Some(x) => values_json(v@) == Some(x@),
            None => values_json(v@) is None,
        },
{
    let ghost free = !any_float(v@, 0);
    proof {
        if free {
            lemma_elements_float_free(v@);
        }
        assert(v@.subrange(0, 0) =~= Seq::<JsonValue>::empty());
    }
    let mut out: Vec<Value> = Vec::new();
    let mut i: usize = 0;
    while i < v.len()
        invariant
            free == !any_float(v@, 0),
            free ==> prefix_float_free(v@, v@.len() as int),
            i <= v@.len(),
            free ==> values_json(v@.subrange(0, i as int)) == Some(out@),
        decreases v@.len() - i,
    {
        proof {
            let pre = v@.subrange(0, i + 1);
            assert(pre.drop_last() =~= v@.subrange(0, i as int));
            assert(pre.last() == v@[i as int]);
            if free {
                assert(!mentions_float(v@[i as int]));
                lemma_no_immediate_float(v@[i as int]);
            }
        }
        match Value::from_json(&v[i], reader) {
            Some(x) => out.push(x),
            None => {
                proof {
                    if free {
                        lemma_values_none(v@, i + 1);
                    }
                }
                return None;
            },
        }
        i = i + 1;
    }
    proof {
        assert(v@.subrange(0, v@.len() as int) =~= v@);
    }
    Some(out)
}

impl Tuple {
    /// A tuple from `{ "ty_id": text, "data": [value messages] }`.
    pub fn from_json<R: FloatReader>(json: &JsonValue, reader: &R) -> (r: Option<Tuple>)
        ensures
            !mentions_float(*json) ==> match r {
                Some(t) => tuple_json(*json) == Some((t.ty_id, t.data@)),
                None => tuple_json(*json) is None,
            },
    {
        proof {
            if !mentions_float(*json) {
                lemma_array_member_free(*json, "data"@);
            }
        }
        let d = match as_array(get_field(json, "data")) {
            Some(d) => d,
            None => return None,
        };
        let t = match as_string(get_field(json, "ty_id")) {
            Some(t) => t,
            None => return None,
        };
        let data = match values_from(d, reader) {
            Some(data) => data,
            None => return None,
        };
        match parse_usize(t) {
            Some(ty_id) => Some(Tuple { ty_id, data }),
            None => None,
        }
    }
}

/// A value of an event's data: a string that reads as an `i32` is that
/// integer, any other string is itself.
pub open spec fn event_value(j: JsonValue) -> Option<Value> {
    match j {
        JsonValue::String(s) => Some(match parse_i32_spec(s@) {
            Some(x) => Value::Int(x),
            None => Value::Str(s),
        }),
        _ => None,
    }
}

/// The values of an event's data.
pub open spec fn event_values(v: Seq<JsonValue>) -> Option<Seq<Value>>
    decreases v.len(),
{
    if v.len() == 0 {
        Some(Seq::empty())
    } else {
        match (event_values(v.drop_last()), event_value(v.last())) {
            (Some(acc), Some(x)) => Some(acc.push(x)),
            _ => None,
        }
    }
}

/// An event from `{ "tuple": { "ty_id": text, "data": [text] } }`, as its
/// type and its values.
pub open spec fn event_json(j: JsonValue) -> Option<(usize, Seq<Value>)> {
    let t = field(j, "tuple"@);
    match (text(field_of(t, "ty_id"@)), elements(field_of(t, "data"@))) {
        (Some(id), Some(d)) => match (parse_usize_spec(id), event_values(d)) {
            (Some(ty_id), Some(data)) => Some((ty_id, data)),
            _ => None,
        },
        _ => None,
    }
}

/// Once a prefix of an event's data fails, the whole data fails.
proof fn lemma_event_values_none(v: Seq<JsonValue>, k: int)
    requires
        0 <= k <= v.len(),
        event_values(v.subrange(0, k)) is None,
    ensures
        event_values(v) is None,
    decreases v.len() - k,
{
    if k < v.len() {
        assert(v.subrange(0, k + 1).drop_last() =~= v.subrange(0, k));
        lemma_event_values_none(v, k + 1);
    } else {
        assert(v.subrange(0, k) =~= v);
    }
}

/// The values of an event's data.
fn event_values_from(v: &Vec<JsonValue>) -> (r: Option<Vec<Value>>)
    ensures
        match r {
            Some(x) => event_values(v@) == Some(x@),
            None => event_values(v@) is None,
        },
{
    proof {
        assert(v@.subrange(0, 0) =~= Seq::<JsonValue>::empty());
    }
    let mut out: Vec<Value> = Vec::new();
    let mut i: usize = 0;
    while i < v.len()
        invariant
            i <= v@.len(),
            event_values(v@.subrange(0, i as int)) == Some(out@),
        decreases v@.len() - i,
    {
        proof {
            let pre = v@.subrange(0, i + 1);
            assert(pre.drop_last() =~= v@.subrange(0, i as int));
            assert(pre.last() == v@[i as int]);
        }
        match &v[i] {
            JsonValue::String(s) => match parse_i32(s) {
                Some(x) => out.push(Value::Int(x)),
                None => out.push(Value::Str(s.clone())),
            },
            _ => {
                proof {
                    lemma_event_values_none(v@, i + 1);
                }
                return None;
            },
        }
        i = i + 1;
    }
    proof {
        assert(v@.subrange(0, v@.len() as int) =~= v@);
    }
    Some(out)
}

impl Event {
    /// An event from `{ "tuple": { "ty_id": text, "data": [text] } }` that
    /// arrived at `time` (nanoseconds since the epoch).
    pub fn from_json(json: &JsonValue, time: i64) -> (r: Option<Event>)
        ensures
            match r {
                Some(e) => event_json(*json) == Some((e.tuple.ty_id, e.tuple.data@)) && e.time == time,
                None => event_json(*json) is None,
            },
    {
        let t = get_field(json, "tuple");
        let id = match as_string(get_field_of(t, "ty_id")) {
            Some(id) => id,
            None => return None,
        };
        let d = match as_array(get_field_of(t, "data")) {
            Some(d) => d,
            None => return None,
        };
        let data = match event_values_from(d) {
            Some(data) => data,
            None => return None,
        };
        match parse_usize(id) {
            Some(ty_id) => Some(Event { tuple: Tuple { ty_id, data }, time }),
            None => None,
        }
    }
}

} // verus!
