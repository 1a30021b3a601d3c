//! FlowLens: a local activity tracker's state and rules, verified.
//!
//! The tracker's state (`state`) is changed only by the operations of
//! `activity`, `tracker`, `reentry`, `settings`, `system` and `day`, each of
//! which keeps it sound (`laws::sound_state`). From it the library builds
//! the focus view of a day (`focus_view`), the day's counts and metrics
//! (`day_totals`, `quality`, `metrics`, `day_parts`, `reentry`), and keeps
//! the report archive and the embedding history (`archive`, `embeddings`).
use vstd::prelude::*;

pub mod text;
pub mod order;
pub mod dated;
pub mod clock;
pub mod flow;
pub mod records;
pub mod state;
pub mod sessions;
pub mod focus_view;
pub mod stats;
pub mod day_totals;
pub mod quality;
pub mod metrics;
pub mod day_parts;
pub mod reentry;
pub mod archive;
pub mod embeddings;
pub mod activity;
pub mod tracker;
pub mod settings;
pub mod system;
pub mod day;
pub mod requests;
pub mod laws;

verus! {
} // verus!
