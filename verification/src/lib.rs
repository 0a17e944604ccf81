//! A verified model of automatic-destruction ("drop") semantics: the order in
//! which destructors run for a tree of owned values, and which references are
//! legal to read while destruction is in progress.
//!
//! A [`model::Program`] describes bindings in a scope, the ownership tree under
//! each binding, the reference fields between values, and any explicit
//! destruction requests. The library computes the destruction event trace
//! ([`order`]), validates reference lifetimes against that order
//! ([`validity`]), and flags destructor reads the model cannot vouch for
//! ([`dangling`]). The [`scenarios`] module builds small concrete programs
//! that exercise each rule.

pub mod dangling;
pub mod model;
pub mod order;
pub mod scenarios;
pub mod validity;
