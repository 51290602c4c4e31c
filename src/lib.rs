//! A read-only filesystem engine that projects cluster namespaces and their
//! config maps onto a synthetic directory tree.

pub mod attr;
pub mod node;
pub mod resource;
pub mod tree;
pub mod fs;
pub mod k8s;
