//! Verified core of a spreadsheet-archive link scrubber.
//!
//! The library scans candidate files for zip-format containers that embed
//! external-workbook references, and rewrites matched containers so that the
//! external-reference content is removed while every other entry is kept
//! byte-identical.  All decision logic — candidate filtering, detection,
//! descriptor cleaning, entry exclusion, repacking and timestamp bookkeeping —
//! is verified; the zip codec itself is called through trusted wrappers over
//! in-memory buffers, and file-system I/O lives outside the library.

pub mod bytes;
pub mod clean;
pub mod ctx;
pub mod enumerate;
pub mod meta;
pub mod rewrite;
pub mod search;
pub mod zipio;
