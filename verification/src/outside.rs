//! What other crates compute for the library. The contracts here are believed,
//! not proved.
use std::collections::BTreeMap;
use std::path::PathBuf;

use chrono::{DateTime, Utc};
use sha2::{Digest, Sha256};
use uuid::Uuid;
use vstd::prelude::*;

use crate::models::Timestamp;
use crate::order::ascending;
use crate::path::{option_view, path_lt};
use crate::text::views;
use crate::text_map::keys_of;

verus! {

/// The SHA-256 digest of a message.
pub uninterp spec fn sha256_of(message: Seq<u8>) -> Seq<u8>;

/// `Sha256::digest`: the digest of the whole message, 32 bytes.
#[verifier::external_body]
pub(crate) fn sha256(message: &[u8]) -> (r: Vec<u8>)
    ensures
        r@ == sha256_of(message@),
        r@.len() == 32,
{
    Sha256::digest(message).to_vec()
}

/// The hexadecimal digit of a number below sixteen.
pub open spec fn hex_digit(d: int) -> char {
    if d < 10 {
        ('0' as u32 + d) as char
    } else {
        ('a' as u32 + (d - 10)) as char
    }
}

/// Bytes in hexadecimal notation: two small digits for each, the high one first.
pub open spec fn hex_of(bytes: Seq<u8>) -> Seq<char> {
    Seq::new(
        2 * bytes.len(),
        |i: int|
            if i % 2 == 0 {
                hex_digit(bytes[i / 2] as int / 16)
            } else {
                hex_digit(bytes[i / 2] as int % 16)
            },
    )
}

/// `hex::encode`: the bytes in hexadecimal notation, in small letters.
#[verifier::external_body]
pub(crate) fn hex_text(bytes: &[u8]) -> (r: String)
    ensures
        r@ == hex_of(bytes@),
{
    hex::encode(bytes)
}

/// Whether a character is a small hexadecimal digit.
pub open spec fn is_hex_digit(c: char) -> bool {
    ('0' <= c && c <= '9') || ('a' <= c && c <= 'f')
}

/// Whether a text has the form of a UUID: 36 characters, hyphens in four fixed
/// places, small hexadecimal digits in the others.
pub open spec fn uuid_form(text: Seq<char>) -> bool {
    text.len() == 36 && forall|i: int|
        0 <= i < 36 ==> if i == 8 || i == 13 || i == 18 || i == 23 {
            #[trigger] text[i] == '-'
        } else {
            is_hex_digit(text[i])
        }
}

/// `Uuid::new_v4` and its `to_string`: a text in the form of a UUID. Which one is
/// left to chance.
#[verifier::external_body]
pub(crate) fn fresh_id() -> (r: String)
    ensures
        uuid_form(r@),
{
    Uuid::new_v4().to_string()
}

/// The moment that a text in the notation of RFC 3339 names.
pub uninterp spec fn moment_of(text: Seq<char>) -> Option<Timestamp>;

/// `DateTime::parse_from_rfc3339`: the moment that the text names, or `None`
/// where it is not in the notation.
#[verifier::external_body]
pub(crate) fn parse_moment(text: &str) -> (r: Option<Timestamp>)
    ensures
        r == moment_of(text@),
{
    DateTime::parse_from_rfc3339(text).ok().map(|at| Timestamp {
        seconds: at.timestamp(),
        nanos: at.timestamp_subsec_nanos(),
    })
}

/// A moment in the notation of RFC 3339.
pub uninterp spec fn rfc3339_of(at: Timestamp) -> Option<Seq<char>>;

/// Whether a moment lies between the years 1970 and 9999.
pub open spec fn common_era(at: Timestamp) -> bool {
    0 <= at.seconds <= 253_402_300_799 && at.nanos < 1_000_000_000
}

/// `DateTime::from_timestamp` and `to_rfc3339`: the moment in the notation of
/// RFC 3339, or `None` where it lies outside the range of `DateTime`. Between the
/// years 1970 and 9999 there is such a text, and it names the moment.
#[verifier::external_body]
pub(crate) fn moment_text(at: Timestamp) -> (r: Option<String>)
    ensures
        option_view(r) == rfc3339_of(at),
        common_era(at) ==> r is Some && moment_of(r->0@) == Some(at),
{
    DateTime::<Utc>::from_timestamp(at.seconds, at.nanos).map(|at| at.to_rfc3339())
}

/// A moment written by a pattern of `strftime`.
pub uninterp spec fn formatted(at: Timestamp, pattern: Seq<char>) -> Option<Seq<char>>;

/// Whether a text is made of digits, signs and points.
pub open spec fn is_figures(text: Seq<char>) -> bool {
    text.len() > 0 && forall|i: int|
        0 <= i < text.len() ==> ('0' <= #[trigger] text[i] && text[i] <= '9') || text[i] == '-' || text[i]
            == '+' || text[i] == '.'
}

/// `DateTime::from_timestamp` and `format`: the moment written by one of two
/// patterns, in digits, signs and points, or `None` where it lies outside the range of
/// `DateTime`.
#[verifier::external_body]
pub(crate) fn format_moment(at: Timestamp, pattern: &str) -> (r: Option<String>)
    requires
        pattern@ == "%Y%m%d-%H%M%S"@ || pattern@ == "%Y%m%d-%H%M%S%.3f"@,
    ensures
        option_view(r) == formatted(at, pattern@),
        r is Some ==> is_figures(r->0@),
        common_era(at) ==> r is Some,
{
    DateTime::<Utc>::from_timestamp(at.seconds, at.nanos).map(|at| at.format(pattern).to_string())
}

/// The list of texts that a JSON text holds.
pub uninterp spec fn json_list_of(json: Seq<char>) -> Option<Seq<Seq<char>>>;

/// `serde_json::from_str` into a list of texts.
#[verifier::external_body]
pub(crate) fn parse_json_list(json: &str) -> (r: Option<Vec<String>>)
    ensures
        match r {
            Some(list) => json_list_of(json@) == Some(views(list@)),
            None => json_list_of(json@) is None,
        },
{
    serde_json::from_str(json).ok()
}

/// A list of texts as JSON.
pub uninterp spec fn list_json(list: Seq<Seq<char>>) -> Seq<char>;

/// `serde_json::to_string` of a list of texts, which is read back as the list.
#[verifier::external_body]
pub(crate) fn json_list_text(list: &Vec<String>) -> (r: String)
    ensures
        r@ == list_json(views(list@)),
        json_list_of(r@) == Some(views(list@)),
{
    serde_json::to_string(list).unwrap()
}

/// A list of pairs of texts, as sequences of characters.
pub open spec fn pair_views(list: Seq<(String, String)>) -> Seq<(Seq<char>, Seq<char>)> {
    list.map_values(|pair: (String, String)| (pair.0@, pair.1@))
}

/// The entries of the JSON object of texts that a JSON text holds.
pub uninterp spec fn json_object_of(json: Seq<char>) -> Option<Seq<(Seq<char>, Seq<char>)>>;

/// `serde_json::from_str` into a `BTreeMap` of texts: the entries in the order of
/// their keys, each key once.
#[verifier::external_body]
pub(crate) fn parse_json_object(json: &str) -> (r: Option<Vec<(String, String)>>)
    ensures
        match r {
            Some(list) => json_object_of(json@) == Some(pair_views(list@)) && ascending(
                keys_of(list@),
            ),
            None => json_object_of(json@) is None,
        },
{
    let found: Option<BTreeMap<String, String>> = serde_json::from_str(json).ok();
    found.map(|map| map.into_iter().collect())
}

/// The entries of a map of texts as a JSON object.
pub uninterp spec fn object_json(list: Seq<(Seq<char>, Seq<char>)>) -> Seq<char>;

/// `serde_json::to_string` of a `BTreeMap` of texts, which is read back as the
/// entries.
#[verifier::external_body]
pub(crate) fn json_object_text(list: &Vec<(String, String)>) -> (r: String)
    requires
        ascending(keys_of(list@)),
    ensures
        r@ == object_json(pair_views(list@)),
        json_object_of(r@) == Some(pair_views(list@)),
{
    let map: BTreeMap<&String, &String> = list.iter().map(|pair| (&pair.0, &pair.1)).collect();
    serde_json::to_string(&map).unwrap()
}

/// Whether a list of pairs stands in the order of paths by its first texts, each
/// path once.
pub open spec fn by_path(list: Seq<(String, String)>) -> bool {
    forall|i: int, j: int|
        0 <= i < j < list.len() ==> path_lt((#[trigger] list[i]).0@, (#[trigger] list[j]).0@)
}

/// The paths and owners that a JSON text holds.
pub uninterp spec fn owners_of_json(json: Seq<char>) -> Option<Seq<(Seq<char>, Seq<char>)>>;

/// `serde_json::from_str` into a `BTreeMap` from paths to texts: the entries in the
/// order of paths, each path once.
#[verifier::external_body]
pub(crate) fn parse_owners_json(json: &str) -> (r: Option<Vec<(String, String)>>)
    ensures
        match r {
            Some(list) => owners_of_json(json@) == Some(pair_views(list@)) && by_path(list@),
            None => owners_of_json(json@) is None,
        },
{
    let found: Option<BTreeMap<PathBuf, String>> = serde_json::from_str(json).ok();
    found.map(|map| {
        map.into_iter().map(|(path, owner)| (path.display().to_string(), owner)).collect()
    })
}

/// Paths and owners as JSON.
pub uninterp spec fn owners_json(list: Seq<(Seq<char>, Seq<char>)>) -> Seq<char>;

/// `serde_json::to_string_pretty` of a `BTreeMap` from paths to texts, which is read
/// back as the entries.
#[verifier::external_body]
pub(crate) fn owners_json_text(list: &Vec<(String, String)>) -> (r: String)
    requires
        by_path(list@),
    ensures
        r@ == owners_json(pair_views(list@)),
        owners_of_json(r@) == Some(pair_views(list@)),
{
    let map: BTreeMap<PathBuf, &String> = list.iter().map(|p| (PathBuf::from(&p.0), &p.1)).collect();
    serde_json::to_string_pretty(&map).unwrap()
}

/// A text in the notation of a string literal.
pub uninterp spec fn quoted(text: Seq<char>) -> Seq<char>;

/// The `Debug` form of a text: in quotation marks, with escapes.
#[verifier::external_body]
pub(crate) fn debug_text(text: &str) -> (r: String)
    ensures
        r@ == quoted(text@),
{
    format!("{text:?}")
}

/// The text that a JSON text holds under a key, where it is an object with a text there.
pub uninterp spec fn json_field_of(json: Seq<char>, key: Seq<char>) -> Option<Seq<char>>;

/// `serde_json::from_str` into a `Value`, its `get` with the key, and `as_str`.
#[verifier::external_body]
pub(crate) fn parse_json_field(json: &str, key: &str) -> (r: Option<String>)
    ensures
        option_view(r) == json_field_of(json@, key@),
{
    let value: Option<serde_json::Value> = serde_json::from_str(json).ok();
    value.and_then(|value| value.get(key).and_then(|field| field.as_str()).map(str::to_string))
}

} // verus!
