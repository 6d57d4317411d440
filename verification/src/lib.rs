//! Request dispatch and middleware composition.
//!
//! A request passes a chain of before-interceptors, is routed by the
//! longest mounted prefix to a route table, a static root or a nested
//! mount table, is answered, and passes a chain of after-interceptors.
//! Every step is stated over mathematical models and proved.

pub mod chain;
pub mod context;
pub mod endpoints;
pub mod html;
pub mod http;
pub mod mount;
pub mod path;
pub mod phase;
pub mod routes;
pub mod serve;
pub mod standard;
pub mod timer;
