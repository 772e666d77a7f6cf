//! Shared data of the render pipeline's snapshot records.
//!
//! The render sub-app works on plain-value snapshots of the main world:
//! integer pixel coordinates, interned image-handle keys, and colors as
//! four 8-bit channels. Depth is an integer sort key; ascending order
//! gives back-to-front blending.

use crate::app::{App, SubApp};
use crate::labels::{RenderStage, RENDER_APP};
use crate::schedule::{has_label, label_index, labels_of, updated_except, Schedule, Stage};
use crate::stage::SystemStage;
use crate::system::{AccessSet, Effect, SystemDesc, SystemKind};
use vstd::prelude::*;

verus! {

/// Resource key of the extracted-node list in the render world.
pub const EXTRACTED_UI_NODES: u64 = 20;

/// Resource key of the vertex/uniform buffers in the render world.
pub const UI_META: u64 = 21;

/// Resource key of the per-image bind-group cache.
pub const UI_IMAGE_BIND_GROUPS: u64 = 22;

/// Resource key of the transparent interface draw phase.
pub const TRANSPARENT_UI_PHASE: u64 = 23;

/// System identity: camera-phase extraction.
pub const EXTRACT_UI_CAMERA_PHASES_SYSTEM: u64 = 30;

/// System identity: node extraction.
pub const EXTRACT_UINODES_SYSTEM: u64 = 31;

/// System identity: text-node extraction, ordered after node
/// extraction.
pub const EXTRACT_TEXT_UINODES_SYSTEM: u64 = 32;

/// System identity: the prepare (sort and batch) pass.
pub const PREPARE_UINODES_SYSTEM: u64 = 33;

/// System identity: the queue pass.
pub const QUEUE_UINODES_SYSTEM: u64 = 34;

/// System identity: the phase sort.
pub const SORT_PHASE_SYSTEM: u64 = 35;

/// Labels of the interface-drawing systems of the render sub-app.
#[derive(Clone, Copy, Debug, PartialEq, Eq, Structural)]
pub enum RenderUiSystem {
    ExtractNode,
}

impl RenderUiSystem {
    /// The system identity this label names.
    pub open spec fn spec_label(self) -> u64 {
        match self {
            RenderUiSystem::ExtractNode => EXTRACT_UINODES_SYSTEM,
        }
    }

    /// Executable form of [`RenderUiSystem::spec_label`].
    pub fn label(self) -> (r: u64)
        ensures
            r == self.spec_label(),
    {
        match self {
            RenderUiSystem::ExtractNode => EXTRACT_UINODES_SYSTEM,
        }
    }
}

/// Coordinates are kept well inside the machine range so that the few
/// additions and subtractions of the quad and clip arithmetic never
/// overflow.
pub open spec fn in_coord_range(v: int) -> bool {
    -0x1000_0000_0000 <= v <= 0x1000_0000_0000
}

/// A two-dimensional integer vector.
#[derive(Clone, Copy, Debug, PartialEq, Eq, Structural)]
pub struct Vec2i {
    pub x: i64,
    pub y: i64,
}

impl Vec2i {
    /// Both coordinates are in range.
    pub open spec fn wf(self) -> bool {
        in_coord_range(self.x as int) && in_coord_range(self.y as int)
    }
}

/// An axis-aligned rectangle, by its two corners.
#[derive(Clone, Copy, Debug, PartialEq, Eq, Structural)]
pub struct UiRect {
    pub min: Vec2i,
    pub max: Vec2i,
}

impl UiRect {
    /// Corners in range and properly ordered.
    pub open spec fn wf(self) -> bool {
        self.min.wf() && self.max.wf() && self.min.x <= self.max.x && self.min.y <= self.max.y
    }

    /// Width of the rectangle.
    pub open spec fn width(self) -> int {
        self.max.x - self.min.x
    }

    /// Height of the rectangle.
    pub open spec fn height(self) -> int {
        self.max.y - self.min.y
    }
}

/// A color as four 8-bit channels.
#[derive(Clone, Copy, Debug, PartialEq, Eq, Structural)]
pub struct ColorRgba {
    pub r: u32,
    pub g: u32,
    pub b: u32,
    pub a: u32,
}

impl ColorRgba {
    /// Every channel fits 8 bits.
    pub open spec fn wf(self) -> bool {
        self.r <= 255 && self.g <= 255 && self.b <= 255 && self.a <= 255
    }
}

/// The packed form of a color: one channel per byte, red lowest.
pub open spec fn packed_color(c: ColorRgba) -> int {
    c.r + c.g * 0x100 + c.b * 0x1_0000 + c.a * 0x100_0000
}

/// Packs a color into one 32-bit word to save space: one channel per
/// byte, red in the lowest byte.
pub fn encode_color_as_u32(c: ColorRgba) -> (r: u32)
    requires
        c.wf(),
    ensures
        r == packed_color(c),
{
    c.r + c.g * 0x100 + c.b * 0x1_0000 + c.a * 0x100_0000
}

/// One extracted node: the per-frame snapshot the extract stage copies
/// out of the main world for drawing.
#[derive(Clone, Copy, Debug, PartialEq, Eq)]
pub struct ExtractedUiNode {
    /// On-screen center of the node.
    pub translation: Vec2i,
    /// Depth key; ascending order is back-to-front.
    pub z: i64,
    /// Fill color.
    pub color: ColorRgba,
    /// Texture source rectangle, in texel coordinates.
    pub rect: UiRect,
    /// Interned key of the image handle.
    pub image: u64,
    /// Extent of the texture atlas the rectangle indexes into, when the
    /// node draws from an atlas.
    pub atlas_size: Option<Vec2i>,
    /// Clip rectangle, in screen coordinates.
    pub clip: Option<UiRect>,
    /// Border color, for nodes with a border.
    pub border_color: Option<ColorRgba>,
    /// Border width, for nodes with a border.
    pub border_width: Option<i64>,
    /// Corner radii, clockwise from the top left.
    pub corner_radius: Option<(i64, i64, i64, i64)>,
}

impl ExtractedUiNode {
    /// Geometry in range, rectangle ordered, colors 8-bit.
    pub open spec fn wf(self) -> bool {
        &&& self.translation.wf()
        &&& self.rect.wf()
        &&& self.color.wf()
        &&& match self.clip {
            Some(c) => c.wf(),
            None => true,
        }
        &&& match self.border_color {
            Some(c) => c.wf(),
            None => true,
        }
    }
}

/// The resource holding the frame's extracted nodes.
pub struct ExtractedUiNodes {
    /// The extracted records, in extraction order until the prepare
    /// stage sorts them by depth.
    pub uinodes: Vec<ExtractedUiNode>,
}

impl ExtractedUiNodes {
    /// An empty collection.
    pub fn new() -> (r: ExtractedUiNodes)
        ensures
            r.uinodes@ == Seq::<ExtractedUiNode>::empty(),
    {
        ExtractedUiNodes { uinodes: Vec::new() }
    }
}

/// The four screen-space corners of a node's quad, before clipping:
/// the unit quad scaled by the texture rectangle's size and centered at
/// the node's translation. Corner 0 is the minimum corner; 1, 2, 3
/// follow counter-clockwise.
pub open spec fn quad_corner(n: ExtractedUiNode, which: int) -> (int, int) {
    let sx = n.rect.width();
    let sy = n.rect.height();
    let x0 = n.translation.x - sx / 2;
    let y0 = n.translation.y - sy / 2;
    if which == 0 {
        (x0, y0)
    } else if which == 1 {
        (x0 + sx, y0)
    } else if which == 2 {
        (x0 + sx, y0 + sy)
    } else {
        (x0, y0 + sy)
    }
}

/// How far clipping moves each corner inward; zero without a clip
/// rectangle. The adjustment only shrinks the quad: minimum corners
/// move up to the clip's minimum, maximum corners down to its maximum.
pub open spec fn clip_shift(n: ExtractedUiNode, which: int) -> (int, int) {
    match n.clip {
        None => (0, 0),
        Some(c) => {
            let p = quad_corner(n, which);
            let toward_min_x = if c.min.x - p.0 > 0 {
                c.min.x - p.0
            } else {
                0
            };
            let toward_max_x = if c.max.x - p.0 < 0 {
                c.max.x - p.0
            } else {
                0
            };
            let toward_min_y = if c.min.y - p.1 > 0 {
                c.min.y - p.1
            } else {
                0
            };
            let toward_max_y = if c.max.y - p.1 < 0 {
                c.max.y - p.1
            } else {
                0
            };
            if which == 0 {
                (toward_min_x, toward_min_y)
            } else if which == 1 {
                (toward_max_x, toward_min_y)
            } else if which == 2 {
                (toward_max_x, toward_max_y)
            } else {
                (toward_min_x, toward_max_y)
            }
        },
    }
}

/// Whether the clip rectangle excludes the node's whole quad on either
/// axis. Such a node produces no geometry at all this frame: a pure
/// cull, not an error.
pub open spec fn culled(n: ExtractedUiNode) -> bool {
    clip_shift(n, 0).0 - clip_shift(n, 1).0 >= n.rect.width() || clip_shift(n, 1).1 - clip_shift(
        n,
        2,
    ).1 >= n.rect.height()
}

/// A clipped corner: the corner moved inward by its clip shift.
pub open spec fn clipped_corner(n: ExtractedUiNode, which: int) -> (int, int) {
    let p = quad_corner(n, which);
    let d = clip_shift(n, which);
    (p.0 + d.0, p.1 + d.1)
}

/// The texel coordinate of each corner, shifted to match the clipped
/// geometry (the vertical axis is reversed in texture space).
pub open spec fn clipped_uv(n: ExtractedUiNode, which: int) -> (int, int) {
    let d = clip_shift(n, which);
    if which == 0 {
        (n.rect.min.x + d.0, n.rect.max.y - d.1)
    } else if which == 1 {
        (n.rect.max.x + d.0, n.rect.max.y - d.1)
    } else if which == 2 {
        (n.rect.max.x + d.0, n.rect.min.y - d.1)
    } else {
        (n.rect.min.x + d.0, n.rect.min.y - d.1)
    }
}

/// The extent the texel coordinates are measured against: the atlas
/// size when the node draws from an atlas, else the rectangle's maximum
/// corner. The drawing backend divides by it to normalize.
pub open spec fn uv_extent(n: ExtractedUiNode) -> Vec2i {
    match n.atlas_size {
        Some(s) => s,
        None => n.rect.max,
    }
}

/// A render sub-app whose schedule owns the five render stages in
/// their fixed order: extract, prepare, queue, phase-sort, render.
pub fn new_render_sub_app() -> (r: SubApp)
    ensures
        r.wf(),
        labels_of(r.schedule.stages@) == seq![
            RenderStage::Extract.spec_label(),
            RenderStage::Prepare.spec_label(),
            RenderStage::Queue.spec_label(),
            RenderStage::PhaseSort.spec_label(),
            RenderStage::Render.spec_label(),
        ],
        forall|t: int|
            0 <= t < 5 ==> (#[trigger] r.schedule.stages@[t]).1 is Parallel
                && (r.schedule.stages@[t].1)->Parallel_0.systems@.len() == 0,
{
    let mut sub = SubApp::empty();
    let mut sch = Schedule::new();
    let r1 = sch.try_add_stage(
        RenderStage::Extract.label(),
        Stage::Parallel(SystemStage::parallel()),
    );
    let r2 = sch.try_add_stage(
        RenderStage::Prepare.label(),
        Stage::Parallel(SystemStage::parallel()),
    );
    let r3 = sch.try_add_stage(
        RenderStage::Queue.label(),
        Stage::Parallel(SystemStage::parallel()),
    );
    let r4 = sch.try_add_stage(
        RenderStage::PhaseSort.label(),
        Stage::Parallel(SystemStage::parallel()),
    );
    let r5 = sch.try_add_stage(
        RenderStage::Render.label(),
        Stage::Parallel(SystemStage::parallel()),
    );
    proof {
        assert(r1 is Ok && r2 is Ok && r3 is Ok && r4 is Ok && r5 is Ok);
        assert(labels_of(sch.stages@) =~= seq![
            RenderStage::Extract.spec_label(),
            RenderStage::Prepare.spec_label(),
            RenderStage::Queue.spec_label(),
            RenderStage::PhaseSort.spec_label(),
            RenderStage::Render.spec_label(),
        ]);
    }
    sub.schedule = sch;
    sub
}

/// A parallel system descriptor with the given identity, access and
/// ordering; its world work is done by the pipeline functions this
/// library verifies, so its effect on the model world is nothing.
fn render_system(id: u64, reads: Vec<u64>, writes: Vec<u64>, after: Vec<u64>) -> (r: SystemDesc)
    ensures
        r.id == id,
        r.kind is Parallel,
        r.kind->Parallel_0.reads == reads,
        r.kind->Parallel_0.writes == writes,
        r.after == after,
        r.before@ == Seq::<u64>::empty(),
        r.run_if_state is None,
        r.effect == Effect::Noop,
{
    SystemDesc {
        id,
        kind: SystemKind::Parallel(AccessSet { reads, writes }),
        after,
        before: Vec::new(),
        run_if_state: None,
        effect: Effect::Noop,
    }
}

/// Registers the interface-drawing systems on the render sub-app's
/// stages: three extraction systems (text extraction ordered after node
/// extraction), the prepare pass, the queue pass and the phase sort.
/// An app without a render sub-app is left untouched, silently. The
/// drawing backend's graph wiring is the backend's own concern.
pub fn build_ui_render(app: &mut App)
    requires
        old(app).wf(),
        has_label(old(app).sub_apps(), RENDER_APP) ==> {
            let sch = old(app).sub_apps()[label_index(old(app).sub_apps(), RENDER_APP)].1.schedule;
            &&& has_label(sch.stages@, RenderStage::Extract.spec_label())
            &&& sch.stages@[label_index(sch.stages@, RenderStage::Extract.spec_label())].1
                is Parallel
            &&& has_label(sch.stages@, RenderStage::Prepare.spec_label())
            &&& sch.stages@[label_index(sch.stages@, RenderStage::Prepare.spec_label())].1
                is Parallel
            &&& has_label(sch.stages@, RenderStage::Queue.spec_label())
            &&& sch.stages@[label_index(sch.stages@, RenderStage::Queue.spec_label())].1
                is Parallel
            &&& has_label(sch.stages@, RenderStage::PhaseSort.spec_label())
            &&& sch.stages@[label_index(sch.stages@, RenderStage::PhaseSort.spec_label())].1
                is Parallel
        },
    ensures
        final(app).wf(),
        !has_label(old(app).sub_apps(), RENDER_APP) ==> *final(app) == *old(app),
        has_label(old(app).sub_apps(), RENDER_APP) ==> {
            let idx = label_index(old(app).sub_apps(), RENDER_APP);
            let sch0 = old(app).sub_apps()[idx].1.schedule.stages@;
            let sch1 = final(app).sub_apps()[idx].1.schedule.stages@;
            let ex = label_index(sch0, RenderStage::Extract.spec_label());
            let ex0 = sch0[ex].1->Parallel_0.systems@;
            let ex1 = sch1[ex].1->Parallel_0.systems@;
            &&& final(app).world == old(app).world
            &&& final(app).schedule == old(app).schedule
            &&& updated_except(old(app).sub_apps(), final(app).sub_apps(), idx)
            &&& final(app).sub_apps()[idx].1.world == old(app).sub_apps()[idx].1.world
            &&& sch1.len() == sch0.len()
            &&& forall|t: int| 0 <= t < sch0.len() ==> (#[trigger] sch1[t]).0 == sch0[t].0
            &&& ex1.len() == ex0.len() + 3
            &&& ex1.take(ex0.len() as int) == ex0
            &&& ex1[ex0.len() as int].id == EXTRACT_UI_CAMERA_PHASES_SYSTEM
            &&& ex1[ex0.len() as int + 1].id == EXTRACT_UINODES_SYSTEM
            &&& ex1[ex0.len() as int + 2].id == EXTRACT_TEXT_UINODES_SYSTEM
            &&& ex1[ex0.len() as int + 2].after@ == seq![EXTRACT_UINODES_SYSTEM]
            &&& ({
                let pr = label_index(sch0, RenderStage::Prepare.spec_label());
                sch1[pr].1->Parallel_0.systems@.len() == sch0[pr].1->Parallel_0.systems@.len() + 1
                    && sch1[pr].1->Parallel_0.systems@.last().id == PREPARE_UINODES_SYSTEM
            })
            &&& ({
                let qu = label_index(sch0, RenderStage::Queue.spec_label());
                sch1[qu].1->Parallel_0.systems@.len() == sch0[qu].1->Parallel_0.systems@.len() + 1
                    && sch1[qu].1->Parallel_0.systems@.last().id == QUEUE_UINODES_SYSTEM
            })
            &&& ({
                let ps = label_index(sch0, RenderStage::PhaseSort.spec_label());
                sch1[ps].1->Parallel_0.systems@.len() == sch0[ps].1->Parallel_0.systems@.len() + 1
                    && sch1[ps].1->Parallel_0.systems@.last().id == SORT_PHASE_SYSTEM
            })
        },
{
    let sa = match app.get_sub_app_mut(RENDER_APP) {
        Ok(sa) => sa,
        Err(_) => {
            return ;
        },
    };
    let mut w1: Vec<u64> = Vec::new();
    w1.push(TRANSPARENT_UI_PHASE);
    let r1 = sa.schedule.add_system_to_stage(
        RenderStage::Extract.label(),
        render_system(EXTRACT_UI_CAMERA_PHASES_SYSTEM, Vec::new(), w1, Vec::new()),
    );
    let mut w2: Vec<u64> = Vec::new();
    w2.push(EXTRACTED_UI_NODES);
    let r2 = sa.schedule.add_system_to_stage(
        RenderStage::Extract.label(),
        render_system(EXTRACT_UINODES_SYSTEM, Vec::new(), w2, Vec::new()),
    );
    let mut w3: Vec<u64> = Vec::new();
    w3.push(EXTRACTED_UI_NODES);
    let mut a3: Vec<u64> = Vec::new();
    a3.push(EXTRACT_UINODES_SYSTEM);
    let r3 = sa.schedule.add_system_to_stage(
        RenderStage::Extract.label(),
        render_system(EXTRACT_TEXT_UINODES_SYSTEM, Vec::new(), w3, a3),
    );
    let mut r4r: Vec<u64> = Vec::new();
    r4r.push(EXTRACTED_UI_NODES);
    let mut w4: Vec<u64> = Vec::new();
    w4.push(EXTRACTED_UI_NODES);
    w4.push(UI_META);
    let r4 = sa.schedule.add_system_to_stage(
        RenderStage::Prepare.label(),
        render_system(PREPARE_UINODES_SYSTEM, r4r, w4, Vec::new()),
    );
    let mut r5r: Vec<u64> = Vec::new();
    r5r.push(UI_META);
    let mut w5: Vec<u64> = Vec::new();
    w5.push(UI_IMAGE_BIND_GROUPS);
    w5.push(TRANSPARENT_UI_PHASE);
    let r5 = sa.schedule.add_system_to_stage(
        RenderStage::Queue.label(),
        render_system(QUEUE_UINODES_SYSTEM, r5r, w5, Vec::new()),
    );
    let mut w6: Vec<u64> = Vec::new();
    w6.push(TRANSPARENT_UI_PHASE);
    let r6 = sa.schedule.add_system_to_stage(
        RenderStage::PhaseSort.label(),
        render_system(SORT_PHASE_SYSTEM, Vec::new(), w6, Vec::new()),
    );
    proof {
        assert(r1 is Ok && r2 is Ok && r3 is Ok && r4 is Ok && r5 is Ok && r6 is Ok);
    }
}

} // verus!
