//! Stage and app labels.
//!
//! A label is an interned integer key with equality, used to name stages,
//! sub-apps and systems. The engine's well-known stages get fixed keys;
//! user-defined stages pick any other value.

use vstd::prelude::*;

verus! {

/// Label of the nested startup schedule inside the main schedule.
pub const STARTUP_SCHEDULE: u64 = 2;

/// The stages every fully-configured app owns, in their fixed run order:
/// `First`, then the startup schedule, then `PreUpdate`, `Update`,
/// `PostUpdate` and `Last`.
#[derive(Clone, Copy, Debug, PartialEq, Eq, Structural)]
pub enum CoreStage {
    First,
    PreUpdate,
    Update,
    PostUpdate,
    Last,
}

impl CoreStage {
    /// The label key of this stage.
    pub open spec fn spec_label(self) -> u64 {
        match self {
            CoreStage::First => 1,
            CoreStage::PreUpdate => 3,
            CoreStage::Update => 4,
            CoreStage::PostUpdate => 5,
            CoreStage::Last => 6,
        }
    }

    /// Executable form of [`CoreStage::spec_label`].
    pub fn label(self) -> (r: u64)
        ensures
            r == self.spec_label(),
    {
        match self {
            CoreStage::First => 1,
            CoreStage::PreUpdate => 3,
            CoreStage::Update => 4,
            CoreStage::PostUpdate => 5,
            CoreStage::Last => 6,
        }
    }
}

/// The three stages nested inside the run-once startup schedule.
#[derive(Clone, Copy, Debug, PartialEq, Eq, Structural)]
pub enum StartupStage {
    PreStartup,
    Startup,
    PostStartup,
}

impl StartupStage {
    /// The label key of this startup stage.
    pub open spec fn spec_label(self) -> u64 {
        match self {
            StartupStage::PreStartup => 7,
            StartupStage::Startup => 8,
            StartupStage::PostStartup => 9,
        }
    }

    /// Executable form of [`StartupStage::spec_label`].
    pub fn label(self) -> (r: u64)
        ensures
            r == self.spec_label(),
    {
        match self {
            StartupStage::PreStartup => 7,
            StartupStage::Startup => 8,
            StartupStage::PostStartup => 9,
        }
    }
}

/// Whether a label names one of the startup sub-stages. Systems for those
/// stages must be registered through the startup-specific methods.
pub open spec fn is_startup_stage_label(label: u64) -> bool {
    label == StartupStage::PreStartup.spec_label()
        || label == StartupStage::Startup.spec_label()
        || label == StartupStage::PostStartup.spec_label()
}

/// The stages of the render sub-app's schedule, in their fixed run order:
/// extract a snapshot of the main world, prepare (sort and batch) it, queue
/// draw items, sort the draw phase, then render.
#[derive(Clone, Copy, Debug, PartialEq, Eq, Structural)]
pub enum RenderStage {
    Extract,
    Prepare,
    Queue,
    PhaseSort,
    Render,
}

impl RenderStage {
    /// The label key of this render stage.
    pub open spec fn spec_label(self) -> u64 {
        match self {
            RenderStage::Extract => 10,
            RenderStage::Prepare => 11,
            RenderStage::Queue => 12,
            RenderStage::PhaseSort => 13,
            RenderStage::Render => 14,
        }
    }

    /// Executable form of [`RenderStage::spec_label`].
    pub fn label(self) -> (r: u64)
        ensures
            r == self.spec_label(),
    {
        match self {
            RenderStage::Extract => 10,
            RenderStage::Prepare => 11,
            RenderStage::Queue => 12,
            RenderStage::PhaseSort => 13,
            RenderStage::Render => 14,
        }
    }
}

/// Label under which the render sub-app is registered on the main app.
pub const RENDER_APP: u64 = 15;

/// Resource key of the exit-signal event queue: its presence in the
/// queue tells a runner to terminate.
pub const APP_EXIT_EVENTS: u64 = 16;

/// System identity of the per-tick change-tracking reset that runs
/// exclusively in the `Last` stage.
pub const CLEAR_TRACKERS_SYSTEM: u64 = 17;

} // verus!
