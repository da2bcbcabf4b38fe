//! Splits an archived web page into standalone files, rewriting the
//! references of its HTML and CSS bodies to the names given to the files.
//!
//! - `table`: the link table (locator to output name, first assignment wins)
//!   and the set of extracted files.
//! - `text`: character helpers, and how a bare file name is cut out of a
//!   locator.
//! - `outside`: the calls into the regular-expression, entity-decoding and
//!   identifier crates.
//! - `html`: the rules applied to each resource-bearing HTML element.
//! - `css`: rewriting of the `url(...)` references of a stylesheet.
//! - `resolve`: the walk over the parts of an archive.
//! - `laws`: properties proved across these functions.
pub mod table;
pub mod text;
pub mod outside;
pub mod html;
pub mod css;
pub mod resolve;
pub mod laws;
