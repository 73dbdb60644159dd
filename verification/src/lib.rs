//! Batch censoring of spoken words in recorded audio.
//!
//! The crate reconciles a directory listing of WAV files against a
//! declarative configuration, derives which time ranges of which files
//! must be replaced, and rewrites the affected sample buffers.  The
//! building blocks are timecode positions ([`Pos`]), half-open time
//! ranges ([`Range`]), censorship directives ([`Replace`]), annotated
//! transcripts ([`Transcript`]), per-directory configuration
//! ([`Config`]), path templating, and the sample engine itself.

use vstd::prelude::*;

pub mod config;
pub mod engine;
pub mod generator;
pub mod pos;
pub mod range;
pub mod reconcile;
pub mod relpath;
pub mod replace;
pub mod transcript;
pub mod text;
pub mod utils;

pub use crate::config::{Config, Files, ReplaceDir, ReplaceFile};
pub use crate::generator::Generator;
pub use crate::pos::Pos;
pub use crate::range::Range;
pub use crate::reconcile::Task;
pub use crate::replace::Replace;
pub use crate::transcript::Transcript;

verus! {

} // verus!
