//! Turns a row-major raster of brightness samples into lines of text, one
//! palette character per sample.

mod laws;
mod luma;
mod to_unicode;

pub use luma::Luma;
pub use to_unicode::{
    lumas_to_unicode, luma_to_char, ConvertError,
};
pub use laws::{
    lemma_boundary_mapping, lemma_empty_input, lemma_monotonic, lemma_rows_exact,
    lemma_rows_remainder, lemma_single_entry,
};
