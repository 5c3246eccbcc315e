//! The surface of the REST middleware layer that the core hands its requests
//! to: the error kind, the completion marker, the middleware context
//! capability and its plain implementations. The composition machinery that
//! runs chains of middlewares is an application-framework concern built on
//! asynchronous execution, which stays outside the verified library.

use vstd::prelude::*;
use core::marker::PhantomData;
use crate::stack::{TcpError, TcpSocket};

verus! {

/// The REST layer's error kind: a transport failure, an unknown failure, or
/// a failure with a message.
#[derive(Debug)]
pub enum RestError {
    TcpError(TcpError),
    Unknown,
    ErrorMessage(String),
}

impl From<TcpError> for RestError {
    fn from(v: TcpError) -> (r: Self)
        ensures
            r == RestError::TcpError(v),
    {
        RestError::TcpError(v)
    }
}

impl vstd::std_specs::convert::FromSpecImpl<TcpError> for RestError {
    open spec fn obeys_from_spec() -> bool {
        true
    }

    open spec fn from_spec(v: TcpError) -> Self {
        RestError::TcpError(v)
    }
}

/// The marker a handler returns once it has fully written a response.
#[derive(Debug)]
pub struct HttpReponseComplete {}

impl HttpReponseComplete {
    /// Marks a response as fully written.
    pub fn new() -> (r: Self)
        ensures
            r == (HttpReponseComplete {  }),
    {
        HttpReponseComplete {  }
    }
}

/// What a middleware stack knows about its environment: the socket type it
/// writes responses to.
pub trait HttpMiddlewareContext {
    type Socket: TcpSocket;
}

/// The plain middleware context: nothing but the socket type.
pub struct DefaultContext<S> where S: TcpSocket {
    _socket: PhantomData<S>,
}

impl<S> HttpMiddlewareContext for DefaultContext<S> where S: TcpSocket {
    type Socket = S;
}

impl<S> DefaultContext<S> where S: TcpSocket {
    /// A plain context.
    pub fn new() -> Self {
        DefaultContext { _socket: PhantomData }
    }
}

/// The middleware that does nothing: it passes every request on unchanged.
pub struct Null<C> {
    _ctx: PhantomData<C>,
}

impl<C> Null<C> {
    /// A pass-through middleware.
    pub fn new() -> Self {
        Null { _ctx: PhantomData }
    }
}

/// The middleware that renders uncaught errors of the rest of the chain as
/// an internal-error response.
pub struct ErrorHandler<C> {
    _ctx: PhantomData<C>,
}

/// An error-rendering middleware.
pub fn error_handler<C>() -> ErrorHandler<C> {
    ErrorHandler { _ctx: PhantomData }
}

/// The middleware that renders a not-found response for every request the
/// rest of the chain passed through unhandled.
pub struct NotFound<C> {
    _ctx: PhantomData<C>,
}

/// A not-found fallback middleware.
pub fn not_found<C>() -> NotFound<C> {
    NotFound { _ctx: PhantomData }
}

/// What can stand as one element of a middleware chain.
pub trait ChainElement {

}

impl<C> ChainElement for Null<C> {

}

/// The name and version a service describes itself with.
#[derive(Debug, Clone)]
pub struct Info {
    pub title: String,
    pub version: String,
}

/// A base URL a service is reachable under.
#[derive(Debug, Clone)]
pub struct Server {
    pub url: String,
}

} // verus!
