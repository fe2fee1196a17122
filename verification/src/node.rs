//! What the Node.js bindings decide and compute.

pub mod builder;
pub mod objects;
pub mod options;
pub mod packed;
pub mod sdk;
pub mod streaming;
