//! Percent-encoding and percent-decoding of text, one line at a time.

pub mod codec;
pub mod encode_set;
pub mod laws;
pub mod line;

pub use codec::{decode, encode, DecodeError, DecodeMode};
pub use encode_set::EncodeSet;
pub use line::{select_mode, transform_input_line, transform_line, write_output, Mode};
