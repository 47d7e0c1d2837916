//! Trusted view of serde_json values, carried opaquely through the broker,
//! and named readings of JSON documents used to route protocol lines.

use vstd::prelude::*;

verus! {

#[verifier::external_type_specification]
#[verifier::external_body]
pub struct ExValue(serde_json::Value);

/// What serde_json reads as the string value of a top-level member of this
/// JSON document: present exactly when the document parses as an object
/// with that member holding a string. A function of the text and key alone.
pub uninterp spec fn json_member_str(s: Seq<char>, key: Seq<char>) -> Option<Seq<char>>;

/// What serde_json reads as the string value of a member nested one object
/// below a top-level member. A function of the text and keys alone.
pub uninterp spec fn json_member2_str(s: Seq<char>, key1: Seq<char>, key2: Seq<char>) -> Option<
    Seq<char>,
>;

/// Whether serde_json finds a member (of any JSON kind) nested one object
/// below a top-level member. A function of the text and keys alone.
pub uninterp spec fn json_has_member2(s: Seq<char>, key1: Seq<char>, key2: Seq<char>) -> bool;

/// Relies on serde_json::from_str for Value, Value::get and Value::as_str,
/// all deterministic in the text: the string value of a top-level member,
/// when the document parses and has one.
#[verifier::external_body]
pub fn get_member_str(line: &str, key: &str) -> (r: Option<String>)
    ensures
        r is Some <==> json_member_str(line@, key@) is Some,
        r matches Some(s) ==> json_member_str(line@, key@) == Some(s@),
{
    match serde_json::from_str::<serde_json::Value>(line) {
        Ok(v) => match v.get(key) {
            Some(m) => match m.as_str() {
                Some(s) => Some(s.to_string()),
                None => None,
            },
            None => None,
        },
        Err(_) => None,
    }
}

/// Relies on serde_json::from_str for Value, Value::get twice and
/// Value::as_str: the string value of a nested member, when present.
#[verifier::external_body]
pub fn get_member2_str(line: &str, key1: &str, key2: &str) -> (r: Option<String>)
    ensures
        r is Some <==> json_member2_str(line@, key1@, key2@) is Some,
        r matches Some(s) ==> json_member2_str(line@, key1@, key2@) == Some(s@),
{
    match serde_json::from_str::<serde_json::Value>(line) {
        Ok(v) => match v.get(key1) {
            Some(m) => match m.get(key2) {
                Some(x) => match x.as_str() {
                    Some(s) => Some(s.to_string()),
                    None => None,
                },
                None => None,
            },
            None => None,
        },
        Err(_) => None,
    }
}

/// Relies on serde_json::from_str for Value, Value::get twice and
/// Value::clone: the value of a nested member, when present; present
/// exactly when `json_has_member2` says so.
#[verifier::external_body]
pub fn get_member2_value(line: &str, key1: &str, key2: &str) -> (r: Option<serde_json::Value>)
    ensures
        r is Some <==> json_has_member2(line@, key1@, key2@),
{
    match serde_json::from_str::<serde_json::Value>(line) {
        Ok(v) => match v.get(key1) {
            Some(m) => match m.get(key2) {
                Some(x) => Some(x.clone()),
                None => None,
            },
            None => None,
        },
        Err(_) => None,
    }
}

/// Relies on serde_json::Value::clone: an equal value.
#[verifier::external_body]
pub fn value_clone(v: &serde_json::Value) -> (r: serde_json::Value)
    ensures
        r == *v,
{
    v.clone()
}

} // verus!
