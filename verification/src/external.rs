//! Calls into base64, serde_json, ipnet and the standard library that the
//! library's logic makes.
//!
//! Each function here makes one outside call and converts its arguments and
//! result; its contract is taken as given, not proved. Where an outside
//! function's result takes pages to state, the result is named by a spec
//! function without a body, and the contract equates the call's result with
//! that name applied to the call's arguments.

use vstd::prelude::*;
use base64::Engine;

verus! {

// ---------------------------------------------------------------------------
// base64
// ---------------------------------------------------------------------------

/// What `base64::engine::general_purpose::STANDARD.decode` gives for the
/// bytes of a text: the decoded bytes, or the `Display` text of its
/// `DecodeError`.
pub uninterp spec fn base64_standard_decode(input: Seq<char>) -> Result<Seq<u8>, Seq<char>>;

/// Decodes standard (padded) base64 with `base64::engine::general_purpose::STANDARD`.
///
/// Claimed: the result, or the error's text, is `base64_standard_decode` of
/// the input's characters. The decoder's source shows no panic (its buffer is
/// sized for every input).
#[verifier::external_body]
pub(crate) fn decode_base64(input: &str) -> (r: Result<Vec<u8>, String>)
    ensures
        match r {
            Ok(bytes) => base64_standard_decode(input@) == Ok::<Seq<u8>, Seq<char>>(bytes@),
            Err(text) => base64_standard_decode(input@) == Err::<Seq<u8>, Seq<char>>(text@),
        },
{
    base64::engine::general_purpose::STANDARD.decode(input).map_err(|e| e.to_string())
}

// ---------------------------------------------------------------------------
// std: UTF-8
// ---------------------------------------------------------------------------

/// The `Display` text of the `FromUtf8Error` that `String::from_utf8` gives
/// for bytes that are not UTF-8.
pub uninterp spec fn utf8_error_text(bytes: Seq<u8>) -> Seq<char>;

/// `String::from_utf8`.
///
/// Claimed, as std documents it: the bytes are accepted exactly when they are
/// valid UTF-8, and the string then holds the characters they encode; the
/// error's text is `utf8_error_text` of the bytes.
#[verifier::external_body]
pub(crate) fn string_from_utf8(bytes: Vec<u8>) -> (r: Result<String, String>)
    ensures
        match r {
            Ok(s) => vstd::utf8::valid_utf8(bytes@) && s@ == vstd::utf8::decode_utf8(bytes@),
            Err(text) => !vstd::utf8::valid_utf8(bytes@) && text@ == utf8_error_text(bytes@),
        },
{
    String::from_utf8(bytes).map_err(|e| e.to_string())
}

// ---------------------------------------------------------------------------
// serde_json: arrays of label values
// ---------------------------------------------------------------------------

/// One element of a JSON array of label values, as the library reads it.
#[derive(Debug, Clone, PartialEq, Eq)]
pub enum JsonLabel {
    /// A JSON string, with its content.
    Text(String),
    /// A JSON number, written as serde_json's `Display` writes it.
    Number(String),
    /// A JSON boolean.
    Bool(bool),
    /// JSON `null`.
    Null,
    /// An array or object, serialized compactly by serde_json's `Display`.
    Composite(String),
}

/// The abstract value of a `JsonLabel`.
pub enum JsonLabelView {
    Text(Seq<char>),
    Number(Seq<char>),
    Bool(bool),
    Null,
    Composite(Seq<char>),
}

impl View for JsonLabel {
    type V = JsonLabelView;

    open spec fn view(&self) -> JsonLabelView {
        match self {
            JsonLabel::Text(s) => JsonLabelView::Text(s@),
            JsonLabel::Number(s) => JsonLabelView::Number(s@),
            JsonLabel::Bool(b) => JsonLabelView::Bool(*b),
            JsonLabel::Null => JsonLabelView::Null,
            JsonLabel::Composite(s) => JsonLabelView::Composite(s@),
        }
    }
}

/// The abstract values of a sequence of `JsonLabel`s.
pub open spec fn json_labels_view(v: Seq<JsonLabel>) -> Seq<JsonLabelView> {
    Seq::new(v.len(), |i: int| v[i]@)
}

/// What `serde_json::from_str::<Vec<serde_json::Value>>` gives for a text,
/// each element read as a `JsonLabelView`; or the `Display` text of its error.
pub uninterp spec fn json_label_array(input: Seq<char>) -> Result<Seq<JsonLabelView>, Seq<char>>;

/// Parses a JSON array with `serde_json::from_str::<Vec<serde_json::Value>>`
/// and reads each element by its variant.
///
/// Claimed: the elements, or the error's text, are `json_label_array` of the
/// input. Nothing is claimed of how serde_json parses.
#[verifier::external_body]
pub(crate) fn parse_json_label_array(input: &str) -> (r: Result<Vec<JsonLabel>, String>)
    ensures
        match r {
            Ok(v) => json_label_array(input@) == Ok::<Seq<JsonLabelView>, Seq<char>>(json_labels_view(v@)),
            Err(text) => json_label_array(input@) == Err::<Seq<JsonLabelView>, Seq<char>>(text@),
        },
{
    let values: Vec<serde_json::Value> = serde_json::from_str(input).map_err(|e| e.to_string())?;
    Ok(values.into_iter().map(|v| match v {
        serde_json::Value::String(s) => JsonLabel::Text(s),
        serde_json::Value::Number(n) => JsonLabel::Number(n.to_string()),
        serde_json::Value::Bool(b) => JsonLabel::Bool(b),
        serde_json::Value::Null => JsonLabel::Null,
        other => JsonLabel::Composite(other.to_string()),
    }).collect())
}

// ---------------------------------------------------------------------------
// ipnet and std: IP addresses and networks
// ---------------------------------------------------------------------------

/// What `<ipnet::IpNet as FromStr>::from_str` gives for a text: whether the
/// network is IPv6, its address (IPv4 in the low 32 bits) and prefix length.
pub uninterp spec fn ip_network_parse(input: Seq<char>) -> Option<(bool, u128, u8)>;

/// Parses `address/prefix` with `ipnet::IpNet`'s `FromStr`.
///
/// Claimed: the network is `ip_network_parse` of the input; as ipnet's parser
/// shows, an IPv4 network has an address below 2^32 and a prefix of at most
/// 32, an IPv6 network a prefix of at most 128; the error's text is the
/// constant that ipnet's `AddrParseError` writes.
#[verifier::external_body]
pub(crate) fn parse_ip_network(input: &str) -> (r: Result<(bool, u128, u8), String>)
    ensures
        match r {
            Ok(net) => ip_network_parse(input@) == Some(net) && (if net.0 {
                net.2 <= 128
            } else {
                net.1 < 0x1_0000_0000 && net.2 <= 32
            }),
            Err(text) => ip_network_parse(input@) is None && text@ == "invalid IP address syntax"@,
        },
{
    match input.parse::<ipnet::IpNet>() {
        Ok(ipnet::IpNet::V4(n)) => Ok((false, u32::from(n.addr()) as u128, n.prefix_len())),
        Ok(ipnet::IpNet::V6(n)) => Ok((true, u128::from(n.addr()), n.prefix_len())),
        Err(e) => Err(e.to_string()),
    }
}

/// What `<core::net::IpAddr as FromStr>::from_str` gives for a text: whether
/// the address is IPv6 and its bits (IPv4 in the low 32 bits), or the
/// `Display` text of its `AddrParseError`.
pub uninterp spec fn ip_address_parse(input: Seq<char>) -> Result<(bool, u128), Seq<char>>;

/// Parses a single IPv4 or IPv6 address with `IpAddr`'s `FromStr` (the
/// address types of `core::net`, which `std::net` re-exports).
///
/// Claimed: the address, or the error's text, is `ip_address_parse` of the
/// input; an IPv4 address, read as a `u32`, is below 2^32.
#[verifier::external_body]
pub(crate) fn parse_ip_address(input: &str) -> (r: Result<(bool, u128), String>)
    ensures
        match r {
            Ok(a) => ip_address_parse(input@) == Ok::<(bool, u128), Seq<char>>(a) && (!a.0 ==> a.1
                < 0x1_0000_0000),
            Err(text) => ip_address_parse(input@) == Err::<(bool, u128), Seq<char>>(text@),
        },
{
    match input.parse::<core::net::IpAddr>() {
        Ok(core::net::IpAddr::V4(a)) => Ok((false, u32::from(a) as u128)),
        Ok(core::net::IpAddr::V6(a)) => Ok((true, u128::from(a))),
        Err(e) => Err(e.to_string()),
    }
}

// ---------------------------------------------------------------------------
// std: shared values
// ---------------------------------------------------------------------------

/// `Arc::clone`: another handle to the same shared value.
#[verifier::external_body]
pub(crate) fn share<T>(value: &std::sync::Arc<T>) -> (r: std::sync::Arc<T>)
    ensures
        r == *value,
{
    std::sync::Arc::clone(value)
}

// ---------------------------------------------------------------------------
// std: time
// ---------------------------------------------------------------------------

/// `std::time::Instant`, carried through as an opaque value.
#[verifier::external_type_specification]
#[verifier::external_body]
pub struct ExInstant(std::time::Instant);

/// `Instant::clone`: `Instant` is `Copy`, so the clone is the same instant.
pub assume_specification[ <std::time::Instant as Clone>::clone ](instant: &std::time::Instant) -> (r: std::time::Instant)
    ensures
        r == *instant,
;

} // verus!
