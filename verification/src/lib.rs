//! Chunked, boundary-safe stream transcoding: decompress a stream, cut it at
//! line terminators so no line is split across chunks, materialize it, then
//! recompress it in read order while every complete line is handed out for
//! independent processing.

pub mod boundary;
pub mod chunker;
pub mod codec;
pub mod lines;
pub mod pipeline;
