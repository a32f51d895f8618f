//! JSON values and maps, as `serde_json` has them.
use vstd::prelude::*;

verus! {

/// `serde_json::Value`, carried through as it is.
#[verifier::external_type_specification]
#[verifier::external_body]
pub struct ExValue(serde_json::Value);

/// `serde_json::Map`, carried through as it is.
#[verifier::external_type_specification]
#[verifier::external_body]
#[verifier::reject_recursive_types(K)]
#[verifier::reject_recursive_types(V)]
pub struct ExMap<K, V>(serde_json::Map<K, V>);

/// `serde_json::Error`, carried through as it is.
#[verifier::external_type_specification]
#[verifier::external_body]
pub struct ExError(serde_json::Error);

/// The contents of a JSON value.
pub enum Json {
    /// `null`.
    Null,
    /// `true` or `false`.
    Bool(bool),
    /// A number that is held as an integer.
    Integer(int),
    /// A number that is held in floating point, by its bits.
    Float(u64),
    /// A string.
    Text(Seq<char>),
    /// The items of an array.
    Array(Seq<Json>),
    /// The members of an object, in the order in which it is walked.
    Object(Seq<(Seq<char>, Json)>),
}

/// The contents of a `serde_json::Value`.
pub uninterp spec fn json_of(value: serde_json::Value) -> Json;

/// The contents of a `serde_json::Map`, by name.
pub uninterp spec fn members_of(map: serde_json::Map<String, serde_json::Value>) -> Map<
    Seq<char>,
    Json,
>;

/// The compact JSON text that `Display` of `serde_json::Value` writes for given contents.
pub uninterp spec fn compact_text(json: Json) -> Seq<char>;

/// The digits of `n` in base ten.
pub open spec fn digits(n: nat) -> Seq<char>
    decreases n,
{
    let last = seq![(('0' as nat) + n % 10) as char];
    if n < 10 {
        last
    } else {
        digits(n / 10) + last
    }
}

/// The integer `n` in base ten, with a minus sign where it is negative.
pub open spec fn decimal(n: int) -> Seq<char> {
    if n < 0 {
        seq!['-'] + digits((-n) as nat)
    } else {
        digits(n as nat)
    }
}

/// The JSON text of `null`, of the truth values and of the integers.
pub open spec fn plain_text(json: Json) -> Option<Seq<char>> {
    match json {
        Json::Null => Some("null"@),
        Json::Bool(true) => Some("true"@),
        Json::Bool(false) => Some("false"@),
        Json::Integer(value) => Some(decimal(value)),
        _ => None,
    }
}

/// The compact JSON text of any value.
pub open spec fn json_text(json: Json) -> Seq<char> {
    match plain_text(json) {
        Some(plain) => plain,
        None => compact_text(json),
    }
}

/// What each kind of value is written as.
pub proof fn law_json_text_of_each_kind(json: Json)
    ensures
        match json {
            Json::Null => json_text(json) == "null"@,
            Json::Bool(truth) => json_text(json) == if truth {
                "true"@
            } else {
                "false"@
            },
            Json::Integer(n) => json_text(json) == decimal(n),
            _ => json_text(json) == compact_text(json),
        },
{
}

/// An integer below ten is written as its digit; one that is `last` more than ten times `rest` is
/// written as `rest`, followed by the digit `last`; a negative one as its opposite behind a minus
/// sign.
pub proof fn law_integers_are_written_in_base_ten(rest: int, last: int)
    requires
        0 <= last < 10,
    ensures
        decimal(last) == seq![(48 + last) as char],
        rest > 0 ==> decimal(10 * rest + last) == decimal(rest).push((48 + last) as char),
        rest > 0 ==> decimal(-rest) == seq!['-'] + decimal(rest),
{
    if rest > 0 {
        let n = (10 * rest + last) as nat;
        assert(n / 10 == rest && n % 10 == last);
        assert(digits(n) == digits(rest as nat) + seq![(48 + last) as char]);
    }
}

/// Makes a `serde_json::Value::String`, which holds the text it is made of.
#[verifier::external_body]
pub(crate) fn text_value(text: String) -> (value: serde_json::Value)
    ensures
        json_of(value) == Json::Text(text@),
{
    serde_json::Value::String(text)
}

/// Makes a `serde_json::Value::Bool`, which holds the truth value it is made of.
#[verifier::external_body]
pub(crate) fn bool_value(truth: bool) -> (value: serde_json::Value)
    ensures
        json_of(value) == Json::Bool(truth),
{
    serde_json::Value::Bool(truth)
}

/// Makes a `serde_json::Value::Number` by `From<i64>` of `serde_json::Number`, which holds the
/// integer it is made of.
#[verifier::external_body]
pub(crate) fn i64_value(number: i64) -> (value: serde_json::Value)
    ensures
        json_of(value) == Json::Integer(number as int),
{
    serde_json::Value::Number(number.into())
}

/// Makes a `serde_json::Value::Number` by `From<u64>` of `serde_json::Number`, which holds the
/// integer it is made of.
#[verifier::external_body]
pub(crate) fn u64_value(number: u64) -> (value: serde_json::Value)
    ensures
        json_of(value) == Json::Integer(number as int),
{
    serde_json::Value::Number(number.into())
}

/// Takes the text out of a `serde_json::Value::String`; hands any other value back as it is.
#[verifier::external_body]
pub(crate) fn into_text(value: serde_json::Value) -> (text: Result<String, serde_json::Value>)
    ensures
        match text {
            Ok(held) => json_of(value) == Json::Text(held@),
            Err(other) => other == value && !(json_of(value) is Text),
        },
{
    match value {
        serde_json::Value::String(held) => Ok(held),
        other => Err(other),
    }
}

/// `to_string` by `Display` of `serde_json::Value`: the value as compact JSON text. Of strings,
/// of numbers in floating point, of arrays and of objects, it says that the text depends on the
/// contents alone.
#[verifier::external_body]
pub(crate) fn display(value: &serde_json::Value) -> (text: String)
    ensures
        text@ == (match plain_text(json_of(*value)) {
            Some(plain) => plain,
            None => compact_text(json_of(*value)),
        }),
{
    value.to_string()
}

/// `serde_json::to_string` of a `serde_json::Value`. It goes through the serializer that
/// `Display` goes through. It fails only where a `Serialize` does or where a key is no string:
/// never for a `serde_json::Value`, whose `Serialize` does not and whose keys are strings.
#[verifier::external_body]
pub(crate) fn encode(value: &serde_json::Value) -> (text: Result<String, serde_json::Error>)
    ensures
        text is Ok,
        text->Ok_0@ == json_text(json_of(*value)),
{
    serde_json::to_string(value)
}

/// `serde_json::Map::new`: a map without members.
#[verifier::external_body]
pub(crate) fn map_new() -> (map: serde_json::Map<String, serde_json::Value>)
    ensures
        members_of(map) == (Map::<Seq<char>, Json>::empty()),
{
    serde_json::Map::new()
}

/// `serde_json::Map::insert`: the member gets the value, whether or not it was there before;
/// what it had before is returned.
#[verifier::external_body]
pub(crate) fn map_insert(
    map: &mut serde_json::Map<String, serde_json::Value>,
    name: String,
    value: serde_json::Value,
) -> (before: Option<serde_json::Value>)
    ensures
        members_of(*final(map)) == members_of(*old(map)).insert(name@, json_of(value)),
        match before {
            Some(replaced) => members_of(*old(map)).contains_pair(name@, json_of(replaced)),
            None => !members_of(*old(map)).contains_key(name@),
        },
{
    map.insert(name, value)
}

/// `serde_json::Map::is_empty`: whether the map is without members.
#[verifier::external_body]
pub(crate) fn map_is_empty(map: &serde_json::Map<String, serde_json::Value>) -> (empty: bool)
    ensures
        empty == (members_of(*map) == (Map::<Seq<char>, Json>::empty())),
{
    map.is_empty()
}

} // verus!
