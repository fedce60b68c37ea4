//! Browse query engine for a personal collection of task records.
//!
//! One declarative [`BrowseRequest`] is evaluated either by compiling it to a
//! parameterized selection statement for a persistent store, or directly over
//! an in-memory slice of [`TaskDescription`] values. Both paths share the
//! filtering and ordering rules stated in [`model`] and [`ordering`].
use vstd::prelude::*;

pub mod compiler;
pub mod engine;
pub mod external;
pub mod laws;
pub mod model;
pub mod ordering;

pub use model::{Availability, BrowseRequest, OrderRequest, OrderType, TaskDescription};
