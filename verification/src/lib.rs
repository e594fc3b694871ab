//! An in-memory todo list behind a small HTTP interface: the store, the
//! extraction of validated parameters, the routing decision and the mapping
//! of failures to responses, each with a verified contract.

pub mod failure;
pub mod filters;
pub mod handlers;
pub mod media;
pub mod models;
pub mod query;
pub mod request;
pub mod routing;
pub mod store;
pub mod text;
