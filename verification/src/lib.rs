//! Normalizes ECAD vendor library archives into one canonical output
//! layout: a `Format` built from an [`ECAD`] identifier fixes which
//! archive entries are relevant and where their bytes end up, `extract`
//! selects those entries, and `process` folds each one into the final
//! output mapping.

pub mod archive;
pub mod ecad;
pub mod error;
pub mod files;
pub mod format;
pub mod processors;
pub mod strutil;

pub use ecad::ECAD;
pub use error::Error;
pub use files::Files;
pub use format::{Format, Output};
