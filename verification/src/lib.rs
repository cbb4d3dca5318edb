//! A verified codec between PSML, a markup-based document interchange format,
//! and a strongly typed in-memory document model.
//!
//! The crate is organised bottom-up:
//! - [`chars`] holds character-level utilities shared by the whole codec;
//! - [`xml`] holds the generic markup tree (elements, attributes, text),
//!   its lexer and its writer, and the proof that the two invert each other;
//! - [`text`] and [`model`] hold the document model: inline character styles,
//!   block content, properties, fragments, sections and documents;
//! - [`ser`] holds the codec proper: for each model type, a decoder from the
//!   markup tree and an encoder back into it, with round-trip proofs;
//! - [`error`] holds the decode error kinds;
//! - [`api`] holds the plain data types of the surrounding service protocol.

use vstd::prelude::*;

pub mod api;
pub mod chars;
pub mod error;
pub mod model;
pub mod ser;
pub mod text;
pub mod xml;
