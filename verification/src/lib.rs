//! Threaded comment trees assembled from a flat stream of comment records.
//!
//! A [`Forest`] owns one synthetic root that stands for the submission. Each
//! incoming [`CommentNode`] names its parent by a namespaced identifier; the
//! forest finds that parent and appends the comment to its replies.

pub mod comments;
pub mod equality;
pub mod ident;
pub mod json;
pub mod laws;

pub use comments::{BoolOrDate, BoolOrDateView, CommentNode, CommentView, Forest, TreeError};
