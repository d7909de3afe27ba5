//! The native side of callback interfaces whose implementation lives in a
//! foreign runtime.
//!
//! A foreign object is reached only through an opaque 64-bit handle. A
//! [`proxy::Proxy`] stands in for it: each method call becomes an
//! [`proxy::Invocation`] (handle, method index, encoded arguments) to ship
//! across the boundary, and destroying the proxy yields exactly one free
//! call with method index 0. [`codec`] encodes arguments and results,
//! [`outcome`] turns what the foreign side answers into a result or an
//! error, [`registry`] issues and tracks handles, and [`metadata`] describes
//! interfaces for tooling.
use vstd::prelude::*;

pub mod codec;
pub mod interface;
pub mod metadata;
pub mod outcome;
pub mod proxy;
pub mod registry;

verus! {

} // verus!
