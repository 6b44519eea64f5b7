//! The requests and responses of the run endpoints, and the checks made on a
//! request before anything is stored. Serving HTTP, parsing the TOML
//! configuration and the database happen outside this library.

use base64::Engine;
use vstd::prelude::*;
use vstd::string::StringSliceAdditionalSpecFns;
use vstd::utf8::{decode_utf8, valid_utf8};

use crate::ids::{is_random_uuid, random_uuid, uuid_hyphenated, uuid_to_text};

verus! {

#[verifier::external_type_specification]
#[verifier::external_body]
pub struct ExDecodeError(base64::DecodeError);

#[verifier::external_type_specification]
#[verifier::external_body]
pub struct ExFromUtf8Error(std::string::FromUtf8Error);

/// The body of `POST /runs`.
#[derive(Debug)]
pub struct CreateRunRequest {
    pub repo: String,
    pub commit_sha: String,
    pub pr_number: Option<u64>,
    /// Base64-encoded `.sentinel.toml` content.
    pub config_b64: String,
}

/// The answer to `POST /runs`.
#[derive(Debug)]
pub struct RunResponse {
    pub id: String,
    pub status: String,
    pub repo: String,
    pub commit_sha: String,
}

/// Why the configuration of a run request was refused before parsing.
#[derive(Debug, Clone, Copy, PartialEq, Eq, Structural)]
pub enum ConfigDecodeError {
    /// The configuration is not standard, padded base64.
    NotBase64,
    /// The decoded configuration is not UTF-8 text.
    NotUtf8,
}

/// Names the bytes that the standard, padded base64 engine of the `base64`
/// crate decodes `input` to, or `None` where it refuses `input`.
pub uninterp spec fn base64_standard_decoding(input: Seq<u8>) -> Option<Seq<u8>>;

/// Calls `base64::engine::general_purpose::STANDARD.decode(input)`; the
/// contract claims that success and the bytes are `base64_standard_decoding(input@)`,
/// a function of the input alone. What the error holds is not stated.
#[verifier::external_body]
fn base64_decode(input: &[u8]) -> (r: Result<Vec<u8>, base64::DecodeError>)
    ensures
        match r {
            Ok(bytes) => base64_standard_decoding(input@) == Some(bytes@),
            Err(_) => base64_standard_decoding(input@) is None,
        },
{
    base64::engine::general_purpose::STANDARD.decode(input)
}

/// Calls `String::from_utf8(bytes)`, which succeeds exactly on valid UTF-8
/// (as vstd's `valid_utf8` states it), with the characters it encodes (as
/// vstd's `decode_utf8` states them). What the error holds is not stated.
#[verifier::external_body]
fn string_from_utf8(bytes: Vec<u8>) -> (r: Result<String, std::string::FromUtf8Error>)
    ensures
        match r {
            Ok(s) => valid_utf8(bytes@) && s@ == decode_utf8(bytes@),
            Err(_) => !valid_utf8(bytes@),
        },
{
    String::from_utf8(bytes)
}

/// The text of the configuration that a run request carries in base64:
/// refused as not base64, or as not UTF-8 once decoded.
pub fn decode_config_text(config_b64: &str) -> (r: Result<String, ConfigDecodeError>)
    ensures
        match base64_standard_decoding(config_b64.spec_bytes()) {
            None => r == Err::<String, ConfigDecodeError>(ConfigDecodeError::NotBase64),
            Some(bytes) => if valid_utf8(bytes) {
                r matches Ok(text) && text@ == decode_utf8(bytes)
            } else {
                r == Err::<String, ConfigDecodeError>(ConfigDecodeError::NotUtf8)
            },
        },
{
    match base64_decode(config_b64.as_bytes()) {
        Err(_) => Err(ConfigDecodeError::NotBase64),
        Ok(bytes) => match string_from_utf8(bytes) {
            Ok(text) => Ok(text),
            Err(_) => Err(ConfigDecodeError::NotUtf8),
        },
    }
}

impl RunResponse {
    /// The answer to an accepted run request: a fresh random run id in
    /// hyphenated form, the status `queued`, and the request's repository and commit.
    pub fn queued(req: &CreateRunRequest) -> (r: RunResponse)
        ensures
            exists|id: u128| is_random_uuid(id) && r.id@ == uuid_hyphenated(id),
            r.status@ == "queued"@,
            r.repo@ == req.repo@,
            r.commit_sha@ == req.commit_sha@,
    {
        let id = random_uuid();
        RunResponse {
            id: uuid_to_text(id),
            status: String::from_str("queued"),
            repo: req.repo.clone(),
            commit_sha: req.commit_sha.clone(),
        }
    }
}

} // verus!
