//! The tree differ: mounting, updating, replacing and removing rendered
//! trees, and the component scopes nested in them.

pub mod component;
pub mod host;
pub mod laws;
pub mod model;
pub mod node;
