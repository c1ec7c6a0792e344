//! Lazy content references and the resolver that turns a graph of
//! path-addressed records into fully resolved, strongly typed values.
//!
//! Records ([`bullet`], [`items`], [`enemy`]) point at each other and at
//! images ([`image`]) through references that hold a path until the
//! target is loaded and a handle afterwards ([`shandle`]). Every kind of
//! record declares the order in which its references are resolved
//! ([`asset`]). The [`resolver`] is a state machine that walks a record
//! depth first, asks its driver to read, parse and register, and commits a
//! record only when everything beneath it is resolved; [`invariants`]
//! states what holds of every run of it, and [`loader`] is where a load
//! begins.

pub mod asset;
pub mod bullet;
pub mod enemy;
pub mod error;
pub mod health;
pub mod image;
pub mod invariants;
pub mod items;
pub mod kind;
pub mod loader;
pub mod resolver;
pub mod scalar;
pub mod search;
pub mod shandle;
