//! Detection of the dominant indentation convention (spaces or tabs, and the
//! repeat count of one level) used in a text document.
//!
//! The core entry point is `detect_indent`, a pure function from the full
//! document text to an `Indent` value describing the most used indentation
//! unit, the literal indent string of one level, and whether the document
//! indents with spaces or with tabs.

pub mod detect;
pub mod lines;
pub mod props;
pub mod usage;

pub use detect::{detect_indent, Indent, IndentKind};
pub use usage::{most_used, Usage, UsageMap};
