//! Order-preserving patching of YAML manifests that list container images.
//!
//! The library parses a document into a structural tree, locates one element
//! of a nested list of mappings by a key/value match, overwrites two named
//! fields on that element, and serializes the tree back to text, leaving key
//! order and every unrelated part of the tree untouched.

pub mod codec;
pub mod config;
pub mod document;
pub mod laws;
pub mod node;
pub mod patch;
