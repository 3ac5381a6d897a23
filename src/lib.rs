//! Lazy, zero-copy splitting of a string slice at a delimiter.
//!
//! Every piece handed out is a view into the caller's input. Behaviour is stated
//! over the UTF-8 bytes of the input and the delimiter.
mod laws;
mod optional;
mod scan;
mod strict;

pub use laws::{
    delimiter_advances, is_slice_of, lemma_absent_delimiter, lemma_absent_input,
    lemma_lengths_add_up, lemma_no_occurrence_whole, lemma_pieces_are_slices, total_len,
};
pub use optional::{opt_bytes, optional_pieces, StrSplit2};
pub use scan::{
    cut_spec, first_match, first_match_from, lead_width, lemma_first_match, occurs_at,
    resume_index,
};
pub use strict::{bytes_of_all, strict_pieces, StrSplit};
