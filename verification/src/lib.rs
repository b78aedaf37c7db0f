//! Query translation and text matching for verse collections.
//!
//! The crate turns what a user types into descriptions of table queries and
//! turns fetched text back into renderable pieces:
//!
//! * [`query`] compiles a free-text boolean query into a predicate and into the
//!   shape of a parameterized filter;
//! * [`reference`] parses a compact chapter-and-verse range;
//! * [`highlight`] cuts a text into matching and non-matching spans;
//! * [`engine`] applies a range to the rows a source handed back and merges the
//!   outcomes of several sources;
//! * [`session`] keeps what a user typed and found, and names what to ask
//!   of the sources next.
//!
//! [`text`] holds the character classes and the word splitting they share.

pub mod engine;
pub mod highlight;
pub mod query;
pub mod reference;
pub mod session;
pub mod text;
