//! Reconciliation core of a declarative UI runtime.
//!
//! - [`storage`]: a generational arena of reactive cells, with borrows
//!   checked when they are taken;
//! - [`runtime`]: the arena together with the scopes, the cells each scope
//!   owns, the scope and effect stacks, and the dirty set;
//! - [`copy_value`]: the copyable handle to a cell, and the lookup of the
//!   owner that a new cell belongs to;
//! - [`nodes`]: rendered trees, component placeholders and mounts;
//! - [`mutations`]: the operations on the host tree, and their sink;
//! - [`virtual_dom`]: the scope table and the primitive steps on it;
//! - [`diff`]: the differ, the function it computes, what holds of it, and
//!   what its mutations do to a host tree;
//! - [`cell_laws`]: what holds of cells, borrows and owners.
//!
//! Every executable function states what it does as a function on the
//! mathematical model of its arguments; the laws are proved of those
//! functions.

pub mod cell_laws;
pub mod copy_value;
pub mod diff;
pub mod mutations;
pub mod nodes;
pub mod runtime;
pub mod storage;
pub mod virtual_dom;
