//! Encoder for already-parsed document trees: flattens nested inline style
//! markup into flat text plus (mask, start, length) formatting spans, with an
//! independent offset scope for each link anchor and table cell, and wraps
//! the result in structural block nodes.

pub mod block;
pub mod escape;
pub mod inline;
pub mod laws;
pub mod model;
pub mod node;
pub mod output;
pub mod scope;
pub mod tagfilter;
pub use block::format_document;
