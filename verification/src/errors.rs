//! The error type of the library.

use vstd::prelude::*;
use serde_json::Error as JsonError;
use anyhow::Error as AnyError;

verus! {

/// The standard I/O error, carried as it is.
#[verifier::external_type_specification]
#[verifier::external_body]
pub struct ExIoError(std::io::Error);

/// The error of the binary serializer, carried as it is.
#[verifier::external_type_specification]
#[verifier::external_body]
pub struct ExBincodeErrorKind(bincode::ErrorKind);

/// The error of the JSON serializer, carried as it is.
#[verifier::external_type_specification]
#[verifier::external_body]
pub struct ExJsonError(JsonError);

/// A general error value, carried as it is.
#[verifier::external_type_specification]
#[verifier::external_body]
pub struct ExAnyhowError(AnyError);

/// The main error type.
#[derive(Debug)]
pub enum Error {
    /// An I/O error occurred
    Io(std::io::Error),
    /// A configuration error
    Config(String),
    /// A cryptography error
    Crypto(String),
    /// A network error
    Network(String),
    /// A NAT traversal error
    NatTraversal(String),
    /// A tunnel error
    Tunnel(String),
    /// A protocol error
    Protocol(String),
    /// A serializing/deserializing error
    Serialization(Box<bincode::ErrorKind>),
    /// A JSON serialization error
    Json(JsonError),
    /// An invalid argument
    InvalidArgument(String),
    /// The operation timed out
    Timeout,
    /// The operation was cancelled
    Cancelled,
    /// Permission denied
    PermissionDenied,
    /// Resource not found
    NotFound(String),
    /// Feature not implemented
    NotImplemented(String),
    /// Internal error
    Internal(String),
    /// Other error
    Other(AnyError),
}

/// The result type of the library.
pub type Result<T> = core::result::Result<T, Error>;

impl Error {
    /// A configuration error with the given message.
    pub fn config<M: Into<String>>(msg: M) -> (r: Self)
        ensures
            r matches Error::Config(m) && call_ensures(M::into, (msg,), m),
    {
        Error::Config(msg.into())
    }

    /// A crypto error with the given message.
    pub fn crypto<M: Into<String>>(msg: M) -> (r: Self)
        ensures
            r matches Error::Crypto(m) && call_ensures(M::into, (msg,), m),
    {
        Error::Crypto(msg.into())
    }

    /// A network error with the given message.
    pub fn network<M: Into<String>>(msg: M) -> (r: Self)
        ensures
            r matches Error::Network(m) && call_ensures(M::into, (msg,), m),
    {
        Error::Network(msg.into())
    }

    /// A NAT traversal error with the given message.
    pub fn nat_traversal<M: Into<String>>(msg: M) -> (r: Self)
        ensures
            r matches Error::NatTraversal(m) && call_ensures(M::into, (msg,), m),
    {
        Error::NatTraversal(msg.into())
    }

    /// A tunnel error with the given message.
    pub fn tunnel<M: Into<String>>(msg: M) -> (r: Self)
        ensures
            r matches Error::Tunnel(m) && call_ensures(M::into, (msg,), m),
    {
        Error::Tunnel(msg.into())
    }

    /// A protocol error with the given message.
    pub fn protocol<M: Into<String>>(msg: M) -> (r: Self)
        ensures
            r matches Error::Protocol(m) && call_ensures(M::into, (msg,), m),
    {
        Error::Protocol(msg.into())
    }

    /// A invalid argument error with the given message.
    pub fn invalid_argument<M: Into<String>>(msg: M) -> (r: Self)
        ensures
            r matches Error::InvalidArgument(m) && call_ensures(M::into, (msg,), m),
    {
        Error::InvalidArgument(msg.into())
    }

    /// A not found error with the given message.
    pub fn not_found<M: Into<String>>(msg: M) -> (r: Self)
        ensures
            r matches Error::NotFound(m) && call_ensures(M::into, (msg,), m),
    {
        Error::NotFound(msg.into())
    }

    /// A internal error with the given message.
    pub fn internal<M: Into<String>>(msg: M) -> (r: Self)
        ensures
            r matches Error::Internal(m) && call_ensures(M::into, (msg,), m),
    {
        Error::Internal(msg.into())
    }

    /// Whether the error is a timeout.
    pub fn is_timeout(&self) -> (b: bool)
        ensures
            b == (*self is Timeout),
    {
        matches!(self, Error::Timeout)
    }

    /// Whether the error is due to permission denied.
    pub fn is_permission_denied(&self) -> (b: bool)
        ensures
            b == (*self is PermissionDenied),
    {
        matches!(self, Error::PermissionDenied)
    }

    /// Whether the error is a connection error: a network error, a timeout or
    /// a NAT traversal error.
    pub fn is_connection_error(&self) -> (b: bool)
        ensures
            b == (*self is Network || *self is Timeout || *self is NatTraversal),
    {
        matches!(self, Error::Network(_) | Error::Timeout | Error::NatTraversal(_))
    }
}

} // verus!
