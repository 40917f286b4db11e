//! A line/word/byte counting library with CJK-aware word segmentation.
//!
//! A word is either a single CJK ideograph or a maximal run of contiguous
//! word characters (alphanumerics, apostrophes and hyphens).  An optional
//! ignore set removes characters from consideration before classification.

pub mod chars;
pub mod config;
pub mod counter;
