//! Parser and handler for MIME media-type values such as `text/plain; charset=utf-8`.
//!
//! A [`Mime`] value borrows all of its text from the string it was built from.
//! Types, subtypes and suffixes are resolved against a small built-in registry
//! of well-known spellings, and all comparisons of those components ignore
//! ASCII case, while parameter values compare exactly.

pub mod compare;
pub mod hashing;
pub mod laws;
pub mod mime;
pub mod name;
pub mod registry;
pub mod render;
pub mod text;

pub use mime::{Mime, MimeView, ParseError};
pub use name::{Name, Subtype, Suffix, Type};
pub use registry::{Namespace, SubtypeIntern, SuffixIntern, TypeIntern};
