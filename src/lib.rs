//! Conversion of a worksheet of tutor records into a deduplicated list of
//! records: cells are coerced into fields, free-text subjects are split into
//! tokens, and only the first record of each identifier is kept.
//!
//! - `text`: trimming, searching, splitting and decimal numerals on characters;
//! - `float`: truncation of a floating-point cell toward zero;
//! - `record`: cells, the tutor record, and the mapping of a row to a record;
//! - `dedup`: first-seen-wins deduplication by identifier;
//! - `pipeline`: the conversion of a whole worksheet, and its errors.
pub mod text;
pub mod float;
pub mod record;
pub mod dedup;
pub mod pipeline;
