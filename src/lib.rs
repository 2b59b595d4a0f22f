//! Resolution of technology identifiers to guidance categories, and
//! composition of guidance bundles anchored by a base document.
//!
//! - [`text`]: the fixed pieces of text and the lowercase mapping.
//! - [`source`]: where a category's guidance comes from, and how loaded
//!   documents are joined into one text.
//! - [`registry`]: the table of categories and the case-insensitive resolver.
//! - [`compose`]: assembly of a bundle from a base document and requests.
//! - [`laws`]: properties that relate several of the above.
pub mod text;
pub mod source;
pub mod registry;
pub mod compose;
pub mod laws;
