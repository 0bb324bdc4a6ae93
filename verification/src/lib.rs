//! Streaming filter for line-oriented package index files.
//!
//! An index is a metadata header, a separator line `---`, and one record per
//! line after it. The library forwards the header verbatim, keeps or drops
//! each record by the name in its first field, optionally replaces the
//! version field of a kept record by `0`, and optionally folds every byte it
//! writes into a SHA-2 digest.
//!
//! Everything is stated over bytes. A line ends with its line feed.
//! Whitespace is what Unicode gives the property White_Space, found by its
//! UTF-8 encoding: on text that is valid UTF-8, trimming and splitting do
//! what `str::trim` and `str::split_whitespace` do. Bytes that are not
//! valid UTF-8 are data like any other.

pub mod digest;
pub mod filter;
pub mod laws;
pub mod lines;
pub mod names;
pub mod parser;
pub mod stream;
pub mod text;

pub use digest::DigestAlgorithm;
pub use digest::DigestWriter;
pub use filter::filter_versions_streaming;
pub use filter::FilterError;
pub use filter::FilterMode;
pub use filter::VersionOutput;
pub use names::NameSet;
pub use parser::parse_versions;
pub use parser::GemLine;
pub use parser::VersionsFile;
