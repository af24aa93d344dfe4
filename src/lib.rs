//! Reading and writing factor graph descriptions in the G2O text format.
//!
//! A description is parsed into a [`FactorGraphModel`], a format-neutral model
//! whose real-valued entries keep the decimal text they were written with, and
//! a model is composed back into G2O text or written as JSON interchange text.
//! Reading a description and writing its model back gives a description that
//! reads as the same model (`round_trip::lemma_round_trip`).
pub mod g2o;
pub mod json;
pub mod layout;
pub mod model;
pub mod numbers;
pub mod round_trip;
pub mod text;

pub use g2o::{ComposeError, G2oParser, ParseError, ParsedLine};
pub use model::{Edge, FactorGraphModel, Vertex};
