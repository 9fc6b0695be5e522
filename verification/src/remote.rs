//! Helpers of the remote LQL executor: a plain model of the JSON documents a
//! larql-server answers with, and the conversion of `SELECT` rows into
//! `(layer, feature)` pairs.

use vstd::prelude::*;
use crate::lql::str_eq;
use crate::text::{decimal, string_from_chars, u64_decimal};

verus! {

/// Errors of the LQL executor that this library reports.
#[derive(Debug)]
pub enum LqlError {
    /// Execution failed; the message says why.
    Execution(String),
}

/// A JSON number as `serde_json` keeps it: a non-negative integer, a
/// negative integer, or a float (held as its IEEE-754 bits).
#[derive(Debug, Clone, Copy)]
pub enum JsonNumber {
    PosInt(u64),
    NegInt(i64),
    Float(u64),
}

/// A JSON document. An object keeps its members in order.
#[derive(Debug)]
pub enum JsonValue {
    Null,
    Bool(bool),
    Number(JsonNumber),
    String(String),
    Array(Vec<JsonValue>),
    Object(Vec<(String, JsonValue)>),
}

/// `Value::get(key)`: the member `key` of an object (the first such member),
/// or `None` for a missing key or a value that is not an object.
pub open spec fn json_get(v: JsonValue, key: Seq<char>) -> Option<JsonValue> {
    match v {
        JsonValue::Object(members) => member_value(members@, key),
        _ => None,
    }
}

/// The value of the first member named `key`.
pub open spec fn member_value(members: Seq<(String, JsonValue)>, key: Seq<char>) -> Option<
    JsonValue,
>
    decreases members.len(),
{
    if members.len() == 0 {
        None
    } else if members[0].0@ == key {
        Some(members[0].1)
    } else {
        member_value(members.drop_first(), key)
    }
}

/// `Value::as_u64`: a non-negative integer, else `None`.
pub open spec fn json_as_u64(v: JsonValue) -> Option<u64> {
    match v {
        JsonValue::Number(JsonNumber::PosInt(n)) => Some(n),
        _ => None,
    }
}

/// `row.get(key).and_then(as_u64)`.
pub open spec fn field_u64(row: JsonValue, key: Seq<char>) -> Option<u64> {
    match json_get(row, key) {
        Some(v) => json_as_u64(v),
        None => None,
    }
}

pub(crate) proof fn lemma_member_value_skip(members: Seq<(String, JsonValue)>, key: Seq<char>, k: int)
    requires
        0 <= k <= members.len(),
        forall|j: int| 0 <= j < k ==> (#[trigger] members[j]).0@ != key,
    ensures
        member_value(members, key) == member_value(members.skip(k), key),
    decreases k,
{
    if k > 0 {
        let rest = members.drop_first();
        assert(members[0].0@ != key);
        assert forall|j: int| 0 <= j < k - 1 implies (#[trigger] rest[j]).0@ != key by {
            assert(rest[j] == members[j + 1]);
        }
        lemma_member_value_skip(rest, key, k - 1);
        assert(rest.skip(k - 1) == members.skip(k));
    } else {
        assert(members.skip(0) == members);
    }
}

/// The non-negative integer member `key` of `row`.
pub fn get_u64(row: &JsonValue, key: &str) -> (r: Option<u64>)
    ensures
        r == field_u64(*row, key@),
{
    match row {
        JsonValue::Object(members) => {
            let mut i: usize = 0;
            while i < members.len()
                invariant
                    i <= members.len(),
                    json_get(*row, key@) == member_value(members@, key@),
                    forall|j: int| 0 <= j < i ==> (#[trigger] members@[j]).0@ != key@,
                decreases members.len() - i,
            {
                if str_eq(members[i].0.as_str(), key) {
                    proof {
                        lemma_member_value_skip(members@, key@, i as int);
                        let sk = members@.skip(i as int);
                        assert(sk[0] == members@[i as int]);
                        assert(sk[0].0@ == key@);
                        assert(member_value(sk, key@) == Some(members@[i as int].1));
                    }
                    return match &members[i].1 {
                        JsonValue::Number(JsonNumber::PosInt(n)) => Some(*n),
                        _ => None,
                    };
                }
                i = i + 1;
            }
            proof {
                lemma_member_value_skip(members@, key@, i as int);
            }
            None
        },
        _ => None,
    }
}

/// The `(layer, feature)` pairs of `rows`, or the error for the first row
/// that lacks one of them.
pub open spec fn layer_features(rows: Seq<JsonValue>) -> Result<Seq<(usize, usize)>, Seq<char>>
    decreases rows.len(),
{
    if rows.len() == 0 {
        Ok(Seq::empty())
    } else {
        match layer_features(rows.drop_last()) {
            Err(e) => Err(e),
            Ok(prefix) => {
                let row = rows.last();
                match field_u64(row, "layer"@) {
                    None => Err("remote SELECT row missing numeric 'layer'"@),
                    Some(layer) => match field_u64(row, "feature"@) {
                        None => Err("remote SELECT row missing numeric 'feature'"@),
                        Some(feature) => Ok(prefix.push((layer as usize, feature as usize))),
                    },
                }
            },
        }
    }
}

/// Converts remote `SELECT` rows into `(layer, feature)` pairs. Each row must
/// carry non-negative integer members `layer` and `feature`; the first row
/// that does not fails the whole conversion with an execution error naming
/// the missing member.
pub fn rows_to_layer_features(rows: &[JsonValue]) -> (r: Result<Vec<(usize, usize)>, LqlError>)
    ensures
        match layer_features(rows@) {
            Ok(pairs) => r is Ok && r->Ok_0@ == pairs,
            Err(msg) => r matches Err(LqlError::Execution(m)) && m@ == msg,
        },
{
    let mut out: Vec<(usize, usize)> = Vec::new();
    let mut i: usize = 0;
    while i < rows.len()
        invariant
            i <= rows.len(),
            layer_features(rows@.take(i as int)) == Ok::<Seq<(usize, usize)>, Seq<char>>(out@),
        decreases rows.len() - i,
    {
        assert(rows@.take(i + 1).drop_last() == rows@.take(i as int));
        assert(rows@.take(i + 1).last() == rows@[i as int]);
        let layer = match get_u64(&rows[i], "layer") {
            Some(l) => l,
            None => {
                proof {
                    lemma_prefix_error(rows@, i as int);
                }
                return Err(LqlError::Execution(String::from_str("remote SELECT row missing numeric 'layer'")));
            },
        };
        let feature = match get_u64(&rows[i], "feature") {
            Some(f) => f,
            None => {
                proof {
                    lemma_prefix_error(rows@, i as int);
                }
                return Err(LqlError::Execution(String::from_str("remote SELECT row missing numeric 'feature'")));
            },
        };
        out.push((layer as usize, feature as usize));
        i = i + 1;
    }
    assert(rows@.take(rows.len() as int) == rows@);
    Ok(out)
}

/// A reading of the system clock (`std::time::SystemTime`).
#[verifier::external_type_specification]
#[verifier::external_body]
pub struct ExSystemTime(std::time::SystemTime);

/// `SystemTime::now()`: the clock's reading. Nothing is stated of it.
#[verifier::external_body]
fn clock_now() -> (r: std::time::SystemTime) {
    std::time::SystemTime::now()
}

/// `SystemTime::duration_since(UNIX_EPOCH)`: the time since the Unix epoch,
/// `None` for a reading before it (its error passed over). Nothing is
/// stated of the span: it is the clock's.
#[verifier::external_body]
fn since_unix_epoch(t: &std::time::SystemTime) -> (r: Option<std::time::Duration>) {
    t.duration_since(std::time::UNIX_EPOCH).ok()
}

/// `Duration::as_secs`: the whole seconds of a span. Nothing is stated of
/// the value, as nothing is known of the span.
#[verifier::external_body]
fn whole_seconds(d: &std::time::Duration) -> (r: u64) {
    d.as_secs()
}

/// The clock's whole seconds since the Unix epoch, zero for a clock set
/// before it.
fn unix_seconds_now() -> (r: u64) {
    let now = clock_now();
    match since_unix_epoch(&now) {
        Some(d) => whole_seconds(&d),
        None => 0,
    }
}

/// The time a patch is stamped with: the clock's seconds since the Unix
/// epoch, in decimal.
pub fn patch_timestamp_now() -> (r: String)
    ensures
        exists|n: u64| r@ == decimal(n as nat),
{
    let n = unix_seconds_now();
    string_from_chars(u64_decimal(n).as_slice())
}

/// An error on a prefix is the error of the whole sequence.
proof fn lemma_prefix_error(rows: Seq<JsonValue>, i: int)
    requires
        0 <= i < rows.len(),
        layer_features(rows.take(i + 1)) is Err,
    ensures
        layer_features(rows) == layer_features(rows.take(i + 1)),
    decreases rows.len() - i,
{
    if i + 1 < rows.len() {
        assert(rows.drop_last().take(i + 1) == rows.take(i + 1));
        lemma_prefix_error(rows.drop_last(), i);
    } else {
        assert(rows.take(i + 1) == rows);
    }
}

} // verus!
