//! Resumable archive transfer.
//!
//! A server packs a fixed list of files into one gzip-compressed tar stream
//! and serves it over HTTP, whole or by byte range. A client keeps what it
//! has received in its output file and, after an interruption, asks for the
//! bytes behind it. This crate holds the rules of that exchange; reading
//! files and moving bytes over the network is left to the caller.
//!
//! - [`archive`] decides which sources go into the archive and builds it.
//! - [`range`] reads and writes `bytes=<start>-[<end>]` specifiers and holds
//!   them against the length of the resource.
//! - [`respond`] describes the server's response to a request.
//! - [`resume`] drives a download on the client, event by event.
//! - [`query`] makes the address a download is requested from.
//! - [`decimal`] and [`text`] read and write the numbers in header values.
//! - [`writer`] is the seam to the `tar` and `flate2` crates.

pub mod archive;
pub mod decimal;
pub mod query;
pub mod range;
pub mod respond;
pub mod resume;
pub mod text;
pub mod writer;
