//! Decoding and encoding of MIME `multipart/*` bodies.
//!
//! A body is split, along the boundary token that its headers declare, into a
//! tree of parts: parts kept inline, parts classified as files, and nested
//! multipart containers.  The same tree can be written back as a multipart
//! byte stream, plain or framed as HTTP chunks.  Everything here works on
//! bytes in memory; reading streams and storing files is left to the caller.

pub mod bytes;
pub mod source;
pub mod error;
pub mod headers;
pub mod mime;
pub mod boundary;
pub mod charset;
pub mod node;
pub mod parser;
pub mod writer;
pub mod laws;

pub use boundary::{generate_boundary, get_multipart_boundary};
pub use error::{Error, HeaderError};
pub use headers::{Header, Headers};
pub use mime::{ContentDisposition, DispositionParam, DispositionType, Mime, Param};
pub use node::{FilePart, Node, Part};
pub use parser::{read_multipart, read_multipart_body};
pub use source::Source;
pub use writer::{write_chunk, write_multipart, write_multipart_chunked};
