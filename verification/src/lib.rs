//! `zist`: format-agnostic, in-place (de)compression, the verified core.
//!
//! The library decides; the program around it performs the file system work.
//! - `format`: the compression formats, their suffixes, names and magic bytes.
//! - `naming`: the output path of a (de)compression.
//! - `codec`: the outside codecs (zstd, gzip, xz, bzip2) on byte buffers.
//! - `io`: encoding and decoding in a chosen format, levels, the output cap,
//!   the errors and options.
//! - `session`: the protocol of one (de)compression against the file system.
//! - `cli`: the command line, the defaults of the program's name, and what a
//!   run does with each file.
//! - `walk`: the files under directories, for `--recursive`.

pub mod format;
pub mod naming;
pub mod codec;
pub mod io;
pub mod session;
pub mod cli;
pub mod walk;
