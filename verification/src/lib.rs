//! The retained scene of a GPU user interface, and the timing records of the
//! frames that draw it.
//!
//! [`scene`] holds the primitives of one frame and the log from which a later
//! frame replays a part of them, [`painting`] says what painting one primitive
//! shows, [`replay`] what a replay is and what it keeps, [`replayed`] what it
//! shows, and [`steps`] what holds whatever is done to a scene; [`batch`] turns
//! a finished scene into draw calls; [`motion`] decides when a retained scene
//! has to be presented again and which pixels that damages. [`task_profiler`]
//! and [`frame_profiler`] are the records of what ran and what was drawn, and
//! [`surface`] carries an externally produced surface through the scene.
//!
//! Every coordinate is a [`number::Scalar`], so that nothing here depends on
//! how the numbers round.

pub mod batch;
pub mod bounds_tree;
pub mod color;
pub mod frame_profiler;
pub mod geometry;
pub mod log;
pub mod motion;
pub mod number;
pub mod painting;
pub mod path;
pub mod primitive;
pub mod replay;
pub mod replayed;
pub mod ring;
pub mod scene;
pub mod sort;
pub mod steps;
pub mod surface;
pub mod task_profiler;
pub mod task_stats;
pub mod text;
pub mod time;
pub mod transform;
