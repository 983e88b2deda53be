//! Schema validation and link resolution for the payloads of a headless
//! content-management backend.
//!
//! The backend delivers entries as a flat array, with the entries and assets
//! that they link to in a pool beside it. This library reads such a payload
//! ([`parse`]), rebuilds the graph of links ([`resolver`]) and checks every
//! field against the rules of the content model ([`content_types`],
//! [`validator`]). Links without a target, cycles of links and broken rules
//! do not stop a resolution: they come back as diagnostics ([`node`]) beside
//! the graph. Only a payload whose shape is broken is refused.
//!
//! [`laws`] states what holds of every resolution. [`wire`] reads and writes
//! the content model in the form that the backend sends. [`contentful`] and
//! [`config`] plan the requests and keep the tokens; nothing in this library
//! touches the network or the disk.

pub mod config;
pub mod content_types;
pub mod contentful;
pub mod entry;
pub mod graph;
pub mod json;
pub mod laws;
pub mod node;
pub mod parse;
pub mod resolver;
pub mod seqs;
pub mod text;
pub mod validator;
pub mod wire;
