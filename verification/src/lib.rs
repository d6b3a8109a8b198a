//! Conversion and normalization of polygon meshes, at the level of their text.
//!
//! Two line-oriented formats are handled. A mesh in the header-counted format
//! is read by the state machine of [`off`], line by line, and written in the
//! tagged format by [`off::to_obj`]. A text in the tagged format is taken
//! apart by [`ledger::scan`] into its vertices and a ledger of its lines; once
//! the caller has computed new positions, [`ledger::Ledger::fill`] writes the
//! vertex lines anew and leaves every other line where and as it was.
//!
//! A coordinate is carried as the text of a number, as [`vertex::Vertex`]
//! holds it: the library decides what is a number, what is a vertex, a face
//! or a comment, and what is written where. Arithmetic on coordinates is left
//! to the caller. [`laws`] holds what is proved of every text.

pub mod laws;
pub mod ledger;
pub mod number;
pub mod off;
pub mod text;
pub mod vertex;
