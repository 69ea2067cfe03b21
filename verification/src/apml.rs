//! The assignment language: a lossless syntax tree, a semantic tree,
//! the conversions between the two, glob matching, and a
//! structure-preserving editor.
//!
//! Text is parsed into a lossless tree ([`lst`], [`parse`]), which
//! renders to the very text it was parsed from. The meaning of a lossless
//! tree is a semantic tree ([`ast`], [`emit`]), which is written out
//! again as a lossless tree ([`lower`], [`render`]). The [`editor`] changes
//! a lossless tree and leaves alone what it does not change. Patterns of the
//! semantic tree are matched against text in [`glob`].
//!
//! The statements that hold between these parts are proved in [`laws`],
//! from the lemmas of [`parsed`], [`reparse`], [`roundtrip`], [`raw`],
//! [`emitted`] and [`edits`], over the predicates of [`wellformed`] and
//! [`valid`], which [`validate`] tests at run time.

pub mod ast;
pub mod editor;
pub mod edits;
pub mod emit;
pub mod emitted;
pub mod glob;
pub mod laws;
pub mod lower;
pub mod lst;
pub mod parse;
pub mod parsed;
pub mod quote;
pub mod raw;
pub mod render;
pub mod reparse;
pub mod roundtrip;
pub mod text;
pub mod valid;
pub mod validate;
pub mod wellformed;
