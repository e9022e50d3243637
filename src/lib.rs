//! Cross-similarity between two sequences of chroma frames.
//!
//! The library holds the index and shape logic of the computation: pitch-class
//! rotation, frame stacking, column extraction, the transposition candidates of
//! a profile, input validation, the binary vote of the OTI mode and the
//! two-pass mask of the thresholded mode. All of it is generic over the element
//! type, so that it is verified once for whatever numbers the caller uses.
pub mod error;
pub mod frames;
pub mod similarity;

pub use error::ChromaError;
pub use frames::{
    frame_width, generate_two_dimensional_array, get_columns_values_at_vec_index, rotate_chroma,
    rotate_row, stack_chroma_frames, transpositions,
};
pub use similarity::{mutual_threshold_mask, ChromaCrossSimilarity};
