//! What the browser bindings decide and compute.

pub mod builder;
pub mod objects;
pub mod options;
pub mod sdk;
pub mod streaming;
