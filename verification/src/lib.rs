//! A retained-mode, per-frame render graph: passes declare how they use
//! resources, and the graph turns those declarations into a linear command
//! schedule with the minimal synchronization barriers between accesses.
//!
//! The graph engine itself is pure bookkeeping over plain values: resource
//! descriptions, access types, pass declarations and the recorded command
//! list. The device that executes the schedule sits behind this boundary
//! and is driven by a host program that interprets `RecordedCommand`s.

use vstd::prelude::*;

pub mod access;
pub mod resource;
pub mod schedule;
pub mod graph;
pub mod temporal;
pub mod render_passes;
pub mod renderers;
pub mod image_lut;
pub mod input;

verus! {

} // verus!
