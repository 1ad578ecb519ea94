//! Incremental, resumable UTF-8 decoding over a byte source that is read one
//! byte at a time, holding at most four undecoded bytes.
pub mod buffer;
pub mod laws;
pub mod model;
pub mod scalar;
pub mod source;

pub use buffer::{CharBuffer, CharIndicesBuffer};
pub use model::Status;
pub use scalar::is_utf8_char_boundary;
pub use source::ByteSource;
