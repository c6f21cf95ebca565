//! Parsed documents and the parsers that produce them.
//!
//! The parsers are outside code. Each is reached through one function whose
//! contract gives the parser's result a name; nothing more is claimed of it.

use vstd::prelude::*;

verus! {

/// A parsed structured document: scalar, sequence or mapping.
pub type Document = serde_json::Value;

/// `serde_json::Value`. Documents are carried, compared and handed on;
/// nothing in this library looks inside one.
#[verifier::external_type_specification]
#[verifier::external_body]
pub struct ExJsonValue(serde_json::Value);

/// `serde_json::Error`, carried to the caller as it is.
#[verifier::external_type_specification]
#[verifier::external_body]
pub struct ExJsonError(serde_json::Error);

/// `serde_yaml::Error`, carried to the caller as it is.
#[verifier::external_type_specification]
#[verifier::external_body]
pub struct ExYamlError(serde_yaml::Error);

/// `toml::de::Error`, carried to the caller as it is.
#[verifier::external_type_specification]
#[verifier::external_body]
pub struct ExTomlError(toml::de::Error);

/// The document that the JSON parser reads from the bytes of a file;
/// `None` where it refuses them.
pub uninterp spec fn json_document(content: Seq<u8>) -> Option<serde_json::Value>;

/// The document that the YAML parser reads from the bytes of a file;
/// `None` where it refuses them.
pub uninterp spec fn yaml_document(content: Seq<u8>) -> Option<serde_json::Value>;

/// The document that the TOML parser reads from the bytes of a file;
/// `None` where it refuses them.
pub uninterp spec fn toml_document(content: Seq<u8>) -> Option<serde_json::Value>;

/// Calls `serde_json::from_slice`. Trusted: the outcome depends on the
/// bytes alone, so a document that comes back is the one named
/// `json_document`, and an error comes back exactly where that name is
/// `None`.
#[verifier::external_body]
pub(crate) fn parse_json(content: &[u8]) -> (r: Result<serde_json::Value, serde_json::Error>)
    ensures
        r matches Ok(d) ==> json_document(content@) == Some(d),
        r is Err ==> json_document(content@) is None,
{
    serde_json::from_slice::<serde_json::Value>(content)
}

/// Calls `serde_yaml::from_slice`. Trusted: the outcome depends on the
/// bytes alone, so a document that comes back is the one named
/// `yaml_document`, and an error comes back exactly where that name is
/// `None`.
#[verifier::external_body]
pub(crate) fn parse_yaml(content: &[u8]) -> (r: Result<serde_json::Value, serde_yaml::Error>)
    ensures
        r matches Ok(d) ==> yaml_document(content@) == Some(d),
        r is Err ==> yaml_document(content@) is None,
{
    serde_yaml::from_slice::<serde_json::Value>(content)
}

/// Calls `toml::from_slice`. Trusted: the outcome depends on the bytes
/// alone, so a document that comes back is the one named `toml_document`,
/// and an error comes back exactly where that name is `None` (as it is
/// for bytes that are not UTF-8).
#[verifier::external_body]
pub(crate) fn parse_toml(content: &[u8]) -> (r: Result<serde_json::Value, toml::de::Error>)
    ensures
        r matches Ok(d) ==> toml_document(content@) == Some(d),
        r is Err ==> toml_document(content@) is None,
{
    toml::from_slice::<serde_json::Value>(content)
}

} // verus!
