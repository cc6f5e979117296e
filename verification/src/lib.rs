//! Checks Markdown text for links that point to local files.
//!
//! A document is parsed into a stream of structural events, every link
//! target is collected in document order, targets that parse as absolute
//! URLs are discarded, the remaining ones are percent-decoded and resolved
//! against the document's directory, and each resolved path is probed on
//! disk.  The ordered list of paths that are absent is the result.

pub mod events;
pub mod parse;
pub mod paths;
pub mod pipeline;
pub mod resolve;
