//! Layer extraction, structural comparison and pattern matching over
//! dependency-annotated sentences in the CoNLL-X token format.

pub mod token;
pub mod text;
pub mod positions;
pub mod layer;
pub mod diff;
pub mod pattern;
pub mod grep;
