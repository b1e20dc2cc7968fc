//! From what the storage engine hands back to records: each row's payload
//! is one JSON object, the count one integer.

use vstd::prelude::*;
use crate::error::QueryError;
use crate::record::{fields_view, Fields, Record, Scalar};
use crate::text::texts;

verus! {

#[verifier::external_type_specification]
#[verifier::external_body]
pub struct ExJsonError(serde_json::Error);

/// The fields of the JSON object that `text` holds, in the order of the
/// text, each value that is a string as a text and each other value as its
/// compact JSON literal; `None` where `text` is not one JSON object.
pub uninterp spec fn json_object(text: Seq<char>) -> Option<Fields>;

/// Parses one JSON object with `serde_json::from_str` into a
/// `serde_json::Map` and hands out its entries in the map's order.
///
/// Trusted: the outcome depends on the text alone, so that `json_object`
/// names it. A string value comes as `Scalar::Text`, every other value as
/// `Scalar::Literal` with the text that `serde_json::Value`'s `to_string`
/// gives; text that is not a JSON object gives the parser's error.
#[verifier::external_body]
fn parse_object(payload: &str) -> (r: Result<Vec<(String, Scalar)>, serde_json::Error>)
    ensures
        match r {
            Ok(fields) => json_object(payload@) == Some(fields_view(fields@)),
            Err(_) => json_object(payload@) is None,
        },
{
    let map = serde_json::from_str::<serde_json::Map<String, serde_json::Value>>(payload)?;
    Ok(
        map.into_iter().map(
            |(k, v)|
                match v {
                    serde_json::Value::String(s) => (k, Scalar::Text(s)),
                    other => (k, Scalar::Literal(other.to_string())),
                },
        ).collect(),
    )
}

/// Decodes the payload of one row.
pub fn decode_record(text: &str) -> (r: Result<Record, QueryError>)
    ensures
        match r {
            Ok(record) => json_object(text@) == Some(record@),
            Err(e) => e == QueryError::DecodeError && json_object(text@) is None,
        },
{
    match parse_object(text) {
        Ok(fields) => Ok(Record { fields }),
        Err(_) => Err(QueryError::DecodeError),
    }
}

/// True where every payload holds one JSON object.
pub open spec fn all_decode(payloads: Seq<Seq<char>>) -> bool {
    forall|i: int| 0 <= i < payloads.len() ==> (#[trigger] json_object(payloads[i])) is Some
}

/// Decodes the payloads of all rows, in their order. One payload that
/// cannot be decoded fails the whole call.
pub fn decode_rows(payloads: &Vec<String>) -> (r: Result<Vec<Record>, QueryError>)
    ensures
        r is Ok <==> all_decode(texts(payloads@)),
        match r {
            Ok(records) => {
                &&& records@.len() == payloads@.len()
                &&& forall|i: int|
                    0 <= i < records@.len() ==> json_object(payloads@[i]@) == Some(
                        #[trigger] records@[i]@,
                    )
            },
            Err(e) => e == QueryError::DecodeError,
        },
{
    let mut records: Vec<Record> = Vec::new();
    let n: usize = payloads.len();
    let mut i: usize = 0;
    while i < n
        invariant
            n == payloads.len(),
            0 <= i <= n,
            records@.len() == i,
            forall|j: int|
                0 <= j < i ==> json_object(payloads@[j]@) == Some(#[trigger] records@[j]@),
        decreases n - i,
    {
        match decode_record(payloads[i].as_str()) {
            Ok(record) => {
                records.push(record);
            },
            Err(e) => {
                assert(json_object(texts(payloads@)[i as int]) is None);
                return Err(e);
            },
        }
        i = i + 1;
    }
    assert forall|j: int| 0 <= j < texts(payloads@).len() implies (#[trigger] json_object(
        texts(payloads@)[j],
    )) is Some by {
        assert(json_object(payloads@[j]@) == Some(records@[j]@));
    }
    Ok(records)
}

/// Decodes the count that the engine hands back: a number of rows, so
/// never below zero.
pub fn decode_count(raw: i64) -> (r: Result<usize, QueryError>)
    ensures
        match r {
            Ok(count) => count == raw,
            Err(e) => e == QueryError::DecodeError && (raw < 0 || raw > usize::MAX),
        },
{
    if raw < 0 {
        Err(QueryError::DecodeError)
    } else if raw as u64 > usize::MAX as u64 {
        Err(QueryError::DecodeError)
    } else {
        Ok(raw as usize)
    }
}

} // verus!
