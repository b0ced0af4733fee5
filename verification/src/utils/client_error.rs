//! Errors of the RPC client, as far as they are told apart here.

use vstd::prelude::*;

verus! {

/// An answer of the RPC node that is an error.
#[derive(Debug)]
pub enum RpcError {
    /// The request failed.
    RpcRequestError(String),
    /// The node answered with an error.
    RpcResponseError { code: i64, message: String },
    /// The answer could not be read.
    ParseError(String),
    /// The node's operator has something to say.
    ForUser(String),
}

/// What went wrong.
#[derive(Debug)]
pub enum ClientErrorKind {
    /// Input or output failed.
    Io(String),
    /// The RPC node answered with an error.
    RpcError(RpcError),
    /// An error with a text of its own.
    Custom(String),
    /// Anything else.
    Other(String),
}

/// An error of the RPC client.
#[derive(Debug)]
pub struct ClientError {
    pub kind: ClientErrorKind,
}

}
