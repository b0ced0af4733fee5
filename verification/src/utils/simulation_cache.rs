//! Telling transactions that are too large from other failures.

use vstd::prelude::*;

use crate::text::{contains, contains_text};
use crate::utils::client_error::{ClientError, ClientErrorKind, RpcError};

verus! {

/// The RPC error code of invalid parameters.
pub const INVALID_PARAMS: i64 = -32602;

/// The error says that the transaction is too large: a response with the code of invalid
/// parameters, a failed request, or a notice to the user.
pub open spec fn says_too_large(err: ClientError) -> bool {
    match err.kind {
        ClientErrorKind::RpcError(RpcError::RpcResponseError { code, message }) => code
            == INVALID_PARAMS && contains_text(message@, "too large"@),
        ClientErrorKind::RpcError(RpcError::RpcRequestError(message)) => contains_text(
            message@,
            "too large"@,
        ),
        ClientErrorKind::RpcError(RpcError::ForUser(message)) => contains_text(
            message@,
            "too large"@,
        ),
        _ => false,
    }
}

/// Whether the RPC client failed because the transaction is too large.
pub fn is_tx_too_large_client(err: &ClientError) -> (r: bool)
    ensures
        r == says_too_large(*err),
{
    match &err.kind {
        ClientErrorKind::RpcError(rpc) => match rpc {
            RpcError::RpcResponseError { code, message } => *code == INVALID_PARAMS && contains(
                message.as_str(),
                "too large",
            ),
            RpcError::RpcRequestError(message) => contains(message.as_str(), "too large"),
            RpcError::ForUser(message) => contains(message.as_str(), "too large"),
            _ => false,
        },
        _ => false,
    }
}

// ── Laws ─────────────────────────────────────────────────────────────────────

/// An error says that a transaction is too large where one of three kinds of answer has these
/// words in it; an answer with a code needs that of invalid parameters too.
pub proof fn law_too_large_is_told_by_the_words(err: &ClientError, r: bool)
    requires
        call_ensures(is_tx_too_large_client, (err,), r),
    ensures
        match err.kind {
            ClientErrorKind::RpcError(RpcError::RpcResponseError { code, message }) => r <==> code
                == -32602 && contains_text(message@, "too large"@),
            ClientErrorKind::RpcError(RpcError::RpcRequestError(message)) => r <==> contains_text(
                message@,
                "too large"@,
            ),
            ClientErrorKind::RpcError(RpcError::ForUser(message)) => r <==> contains_text(
                message@,
                "too large"@,
            ),
            ClientErrorKind::RpcError(RpcError::ParseError(_)) => !r,
            ClientErrorKind::Io(_) => !r,
            ClientErrorKind::Custom(_) => !r,
            ClientErrorKind::Other(_) => !r,
        },
{
}

}
