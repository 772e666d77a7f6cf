//! A verified application/scheduler core in the style of a game-engine's
//! app layer: labeled stages run in a declared order against a world of
//! typed resources, systems declare their data access so that conflict-free
//! parallelism can be extracted, startup stages run exactly once, events are
//! double-buffered with a two-tick visibility window, and a render sub-app
//! consumes per-frame snapshots through an extract/prepare/queue pipeline.

pub mod app;
pub mod events;
pub mod extract;
pub mod labels;
pub mod prepare;
pub mod queue;
pub mod render;
pub mod schedule;
pub mod stage;
pub mod state;
pub mod system;
pub mod world;
