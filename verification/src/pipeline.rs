//! Response pipeline: turns the outcome of buffering an HTTP response body
//! into a domain value or a typed error.  Buffering itself is transport
//! work owned by the caller; it hands over either the fully received body
//! bytes or the transport error's message.  Each call performs exactly one
//! decode and forwards the outcome verbatim: no retry, no logging, no
//! partial result.

use crate::codec;
use crate::parse;
use crate::wire::{ListIdentities, Signature};
use vstd::prelude::*;

verus! {

/// Failure of a list-identities call: either the transport failed to
/// deliver the response, or the delivered body could not be decoded.
#[derive(Debug)]
pub enum ListIdentitiesError {
    /// The HTTP layer failed to deliver or complete the response; carries
    /// the underlying transport error's message unchanged.
    DispatchFailure(String),
    /// The body was received but is not a well-formed list-identities
    /// payload; carries a diagnostic message.
    ParseFailure(String),
}

/// Failure of a sign call: either the transport failed to deliver the
/// response, or the delivered body could not be decoded.
#[derive(Debug)]
pub enum SignError {
    /// The HTTP layer failed to deliver or complete the response; carries
    /// the underlying transport error's message unchanged.
    DispatchFailure(String),
    /// The body was received but is not a well-formed sign-response
    /// payload; carries a diagnostic message.
    ParseFailure(String),
}

/// Diagnostic for a list-identities body outside the accepted grammar.
pub open spec fn identity_parse_note() -> Seq<char> {
    "malformed list-identities response body"@
}

/// Diagnostic for a sign-response body outside the accepted grammar.
pub open spec fn sign_structure_note() -> Seq<char> {
    "malformed sign response body"@
}

/// Diagnostic for a well-formed sign-response body whose `sig` field is
/// not valid base64.
pub open spec fn sign_base64_note() -> Seq<char> {
    "invalid base64 in sig field of sign response body"@
}

/// Complete a list-identities call from the outcome of buffering the
/// response body.  A transport failure becomes `DispatchFailure` with the
/// message unchanged, and no decode is attempted; a received body is
/// decoded exactly as `identity_list_language` states, and a body outside
/// that grammar becomes `ParseFailure` with a fixed non-empty diagnostic.
pub fn list_identities_from_outcome(outcome: Result<Vec<u8>, String>) -> (r: Result<
    ListIdentities,
    ListIdentitiesError,
>)
    ensures
        match outcome {
            Err(m) => r matches Err(ListIdentitiesError::DispatchFailure(m2)) && m2@ == m@,
            Ok(body) => match parse::identity_list_language(body@) {
                Some(ids) => r matches Ok(l) && parse::seq_code_points(l@) == ids,
                None => r matches Err(ListIdentitiesError::ParseFailure(m)) && m@
                    == identity_parse_note() && m@.len() > 0,
            },
        },
{
    proof {
        reveal_strlit("malformed list-identities response body");
    }
    match outcome {
        Err(m) => Err(ListIdentitiesError::DispatchFailure(m)),
        Ok(body) => match parse::parse_identity_list(&body) {
            Some(l) => Ok(l),
            None => Err(
                ListIdentitiesError::ParseFailure(
                    "malformed list-identities response body".to_owned(),
                ),
            ),
        },
    }
}

/// Complete a sign call from the outcome of buffering the response body.
/// A transport failure becomes `DispatchFailure` with the message
/// unchanged, and no decode is attempted; a received body is decoded
/// exactly as `signature_text` states, and each way a body can fail —
/// structure outside the grammar, or invalid base64 in the `sig` field —
/// becomes `ParseFailure` with its own fixed non-empty diagnostic.
pub fn signature_from_outcome(outcome: Result<Vec<u8>, String>) -> (r: Result<
    Signature,
    SignError,
>)
    ensures
        match outcome {
            Err(m) => r matches Err(SignError::DispatchFailure(m2)) && m2@ == m@,
            Ok(body) => match parse::signature_text(body@) {
                Some(txt) => {
                    if codec::valid_b64(txt) {
                        r matches Ok(sig) && sig.sig@ == codec::decoded_b64(txt)
                    } else {
                        r matches Err(SignError::ParseFailure(m)) && m@ == sign_base64_note()
                            && m@.len() > 0
                    }
                },
                None => r matches Err(SignError::ParseFailure(m)) && m@ == sign_structure_note()
                    && m@.len() > 0,
            },
        },
{
    proof {
        reveal_strlit("malformed sign response body");
        reveal_strlit("invalid base64 in sig field of sign response body");
    }
    match outcome {
        Err(m) => Err(SignError::DispatchFailure(m)),
        Ok(body) => match parse::parse_signature(&body) {
            Ok(sig) => Ok(sig),
            Err(parse::ParseIssue::Structure) => Err(
                SignError::ParseFailure("malformed sign response body".to_owned()),
            ),
            Err(parse::ParseIssue::Base64) => Err(
                SignError::ParseFailure(
                    "invalid base64 in sig field of sign response body".to_owned(),
                ),
            ),
        },
    }
}

} // verus!
