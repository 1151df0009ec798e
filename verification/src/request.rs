//! The request values the protocol hands to its caller: every remote call
//! the library decides on is described by a method, a path relative to the
//! endpoint, and an optional body.

use vstd::prelude::*;

verus! {

#[derive(Debug, PartialEq, Eq, Structural, Clone, Copy)]
pub enum Method {
    Get,
    Put,
    Post,
    Delete,
}

/// One remote call of the synchronization protocol.
#[derive(Debug)]
pub struct Request {
    pub method: Method,
    pub path: String,
    pub body: Option<String>,
}

/// The mathematical value of a `Request`.
pub struct RequestView {
    pub method: Method,
    pub path: Seq<char>,
    pub body: Option<Seq<char>>,
}

impl View for Request {
    type V = RequestView;

    open spec fn view(&self) -> RequestView {
        RequestView { method: self.method, path: self.path@, body: self.body.deep_view() }
    }
}

impl DeepView for Request {
    type V = RequestView;

    open spec fn deep_view(&self) -> RequestView {
        self.view()
    }
}

} // verus!
