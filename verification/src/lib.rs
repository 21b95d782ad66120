//! Query, filter and aggregation core for a read-only store of eye-tracking
//! samples.
//!
//! Every data path honours a mutable, persisted exclusion overlay (a set of
//! disabled `(test, recording, participant)` slices) and caller-supplied
//! filter dimensions.  Queries are assembled as parameterized text plus a
//! bound-value list, never by interpolating values into the text.

pub mod codec;
pub mod overlay;
pub mod relations;
pub mod rows;
pub mod samples;
pub mod search;
pub mod sql;
pub mod stats;
pub mod tables;
pub mod text;
