//! The prepare stage: sorts the frame's extracted nodes by depth,
//! batches consecutive nodes sharing an image handle, and emits the
//! vertex and per-batch uniform data.
//!
//! A batch boundary falls where the image handle changes or where the
//! fixed-size per-batch uniform table (256 entries) would overflow. A
//! node whose clip rectangle excludes its whole quad on either axis is
//! culled: it produces no geometry, though its image handle still
//! closes the previous batch.

use crate::render::{
    clipped_corner, clipped_uv, culled, packed_color, uv_extent, ExtractedUiNode, ExtractedUiNodes,
    Vec2i,
};
use vstd::prelude::*;
use vstd::seq_lib::group_to_multiset_ensures;

verus! {

/// Capacity of one batch's uniform table.
pub const MAX_UI_UNIFORM_ENTRIES: usize = 256;

/// One vertex of a node's clipped quad. Texel coordinates are kept as
/// exact integer pairs with their extent; the drawing backend divides
/// to normalize.
#[derive(Clone, Copy, Debug, PartialEq, Eq)]
pub struct UiVertex {
    /// Clipped screen position; the third coordinate is the depth key.
    pub position: (i64, i64, i64),
    /// Texel coordinate, shifted like the clipped position.
    pub uv: Vec2i,
    /// Extent the texel coordinate is measured against.
    pub uv_extent: Vec2i,
    /// Index of the node's entry in its batch's uniform table.
    pub uniform_index: u32,
}

/// One node's entry in its batch's uniform table.
#[derive(Clone, Copy, Debug, PartialEq, Eq)]
pub struct UiUniformEntry {
    /// Fill color, packed one channel per byte.
    pub color: u32,
    /// Size of the node's quad.
    pub size: Vec2i,
    /// Center of the unclipped quad.
    pub center: Vec2i,
    /// Border color, packed; zero without a border.
    pub border_color: u32,
    /// Border width; zero without a border.
    pub border_width: i64,
    /// Corner radii; zero without rounded corners.
    pub corner_radius: (i64, i64, i64, i64),
}

/// One draw batch: a contiguous run of vertices sharing an image.
#[derive(Clone, Copy, Debug, PartialEq, Eq, Structural)]
pub struct UiBatch {
    /// First vertex index of the batch.
    pub start: usize,
    /// One past the last vertex index of the batch.
    pub end: usize,
    /// Interned key of the image handle all the batch's nodes share.
    pub image: u64,
    /// Index of the batch's block in the uniform buffer.
    pub ui_uniform_offset: usize,
    /// Depth key of the batch: the depth of its last node.
    pub z: i64,
}

/// The spec-level form of a batch.
pub struct UiBatchModel {
    pub start: int,
    pub end: int,
    pub image: u64,
    pub ui_uniform_offset: int,
    pub z: i64,
}

/// The abstract content of a batch record.
pub open spec fn batch_view(b: UiBatch) -> UiBatchModel {
    UiBatchModel {
        start: b.start as int,
        end: b.end as int,
        image: b.image,
        ui_uniform_offset: b.ui_uniform_offset as int,
        z: b.z,
    }
}

/// The vertex and uniform buffers the prepare stage fills each frame.
pub struct UiMeta {
    /// Vertices of every non-culled node, six per node, in batch order.
    pub vertices: Vec<UiVertex>,
    /// One uniform block per batch, at the batch's uniform offset.
    pub ui_uniforms: Vec<Vec<UiUniformEntry>>,
}

impl UiMeta {
    /// Empty buffers.
    pub fn new() -> (r: UiMeta)
        ensures
            r.vertices@ == Seq::<UiVertex>::empty(),
            r.ui_uniforms@ == Seq::<Vec<UiUniformEntry>>::empty(),
    {
        UiMeta { vertices: Vec::new(), ui_uniforms: Vec::new() }
    }
}

impl Default for UiMeta {
    /// Empty buffers.
    fn default() -> (r: UiMeta)
        ensures
            r.vertices@ == Seq::<UiVertex>::empty(),
            r.ui_uniforms@ == Seq::<Vec<UiUniformEntry>>::empty(),
    {
        UiMeta::new()
    }
}

/// Ascending by depth key.
pub open spec fn sorted_by_z(s: Seq<ExtractedUiNode>) -> bool {
    forall|i: int, j: int| 0 <= i < j < s.len() ==> s[i].z <= s[j].z
}

/// The subsequence of records carrying the depth key `z`, in order.
pub open spec fn with_z(s: Seq<ExtractedUiNode>, z: i64) -> Seq<ExtractedUiNode>
    decreases s.len(),
{
    if s.len() == 0 {
        Seq::empty()
    } else {
        with_z(s.drop_last(), z) + (if s.last().z == z {
            seq![s.last()]
        } else {
            Seq::empty()
        })
    }
}

/// The depth-`z` subsequence of a concatenation.
proof fn lemma_with_z_add(a: Seq<ExtractedUiNode>, b: Seq<ExtractedUiNode>, z: i64)
    ensures
        with_z(a + b, z) == with_z(a, z) + with_z(b, z),
    decreases b.len(),
{
    if b.len() == 0 {
        assert(a + b =~= a);
        assert(with_z(a, z) + with_z(b, z) =~= with_z(a, z));
    } else {
        lemma_with_z_add(a, b.drop_last(), z);
        assert((a + b).drop_last() =~= a + b.drop_last());
        assert((a + b).last() == b.last());
        assert(with_z(a, z) + (with_z(b.drop_last(), z) + (if b.last().z == z {
            seq![b.last()]
        } else {
            Seq::empty()
        })) =~= (with_z(a, z) + with_z(b.drop_last(), z)) + (if b.last().z == z {
            seq![b.last()]
        } else {
            Seq::empty()
        }));
    }
}

/// A sequence without depth-`z` records has an empty `z` subsequence.
proof fn lemma_with_z_none(s: Seq<ExtractedUiNode>, z: i64)
    requires
        forall|k: int| 0 <= k < s.len() ==> (#[trigger] s[k]).z != z,
    ensures
        with_z(s, z) == Seq::<ExtractedUiNode>::empty(),
    decreases s.len(),
{
    if s.len() > 0 {
        assert forall|k: int| 0 <= k < s.drop_last().len() implies (#[trigger] s.drop_last()[k]).z
            != z by {
            assert(s.drop_last()[k] == s[k]);
        }
        lemma_with_z_none(s.drop_last(), z);
        assert(s.last() == s[s.len() - 1]);
        assert(with_z(s, z) =~= Seq::<ExtractedUiNode>::empty());
    }
}

/// Sorts the nodes by increasing depth for correct transparency:
/// ascending keys draw back to front. The sort is stable: the result
/// holds exactly the same records, and records of equal depth keep
/// their relative order (for every key, the subsequence carrying it is
/// unchanged).
#[verifier::loop_isolation(false)]
#[verifier::rlimit(60)]
pub fn sort_by_z(nodes: &mut Vec<ExtractedUiNode>)
    ensures
        sorted_by_z(final(nodes)@),
        final(nodes)@.to_multiset() == old(nodes)@.to_multiset(),
        final(nodes)@.len() == old(nodes)@.len(),
        forall|z: i64| #[trigger] with_z(final(nodes)@, z) == with_z(old(nodes)@, z),
{
    let mut rest: Vec<ExtractedUiNode> = Vec::new();
    core::mem::swap(nodes, &mut rest);
    proof {
        broadcast use group_to_multiset_ensures;

    }
    while rest.len() > 0
        invariant
            sorted_by_z(nodes@),
            nodes@.to_multiset().add(rest@.to_multiset()) =~= old(nodes)@.to_multiset(),
            nodes@.len() + rest@.len() == old(nodes)@.len(),
            forall|a: int, b: int|
                0 <= a < nodes@.len() && 0 <= b < rest@.len() ==> nodes@[a].z <= rest@[b].z,
            forall|z: i64|
                #[trigger] with_z(nodes@, z) + with_z(rest@, z) == with_z(old(nodes)@, z),
        decreases rest@.len(),
    {
        let mut m: usize = 0;
        let mut t: usize = 1;
        while t < rest.len()
            invariant
                m < rest@.len(),
                t <= rest@.len(),
                forall|b: int| 0 <= b < t ==> rest@[m as int].z <= rest@[b].z,
                forall|b: int| 0 <= b < m ==> rest@[b].z > rest@[m as int].z,
            decreases rest@.len() - t,
        {
            if rest[t].z < rest[m].z {
                proof {
                    assert forall|b: int| 0 <= b < t implies rest@[b].z > rest@[t as int].z by {
                        assert(rest@[m as int].z <= rest@[b].z);
                    }
                }
                m = t;
            }
            t = t + 1;
        }
        let ghost rest0 = rest@;
        let ghost prev = nodes@;
        let x = rest.remove(m);
        nodes.push(x);
        proof {
            broadcast use group_to_multiset_ensures;

            assert(rest0.remove(m as int).to_multiset() =~= rest0.to_multiset().remove(x));
            assert(nodes@.to_multiset().add(rest@.to_multiset()) =~= old(nodes)@.to_multiset());
            assert forall|a: int, b: int|
                0 <= a < nodes@.len() && 0 <= b < rest@.len() implies nodes@[a].z <= rest@[b].z by {
                if b < m {
                    assert(rest@[b] == rest0[b]);
                } else {
                    assert(rest@[b] == rest0[b + 1]);
                }
            }
            let front = rest0.take(m as int);
            let back = rest0.skip(m as int + 1);
            assert(rest0 =~= front + seq![x] + back);
            assert(rest@ =~= front + back);
            assert(nodes@.drop_last() =~= prev);
            assert(nodes@.last() == x);
            assert forall|z: i64|
                #[trigger] with_z(nodes@, z) + with_z(rest@, z) == with_z(old(nodes)@, z) by {
                lemma_with_z_add(front + seq![x], back, z);
                lemma_with_z_add(front, seq![x], z);
                lemma_with_z_add(front, back, z);
                assert(seq![x].drop_last() =~= Seq::<ExtractedUiNode>::empty());
                assert(seq![x].last() == x);
                assert(with_z(Seq::<ExtractedUiNode>::empty(), z)
                    == Seq::<ExtractedUiNode>::empty());
                assert(with_z(prev, z) + with_z(rest0, z) == with_z(old(nodes)@, z));
                if z == x.z {
                    assert forall|k: int| 0 <= k < front.len() implies (#[trigger] front[k]).z
                        != z by {
                        assert(front[k] == rest0[k]);
                        assert(rest0[k].z > x.z);
                    }
                    lemma_with_z_none(front, z);
                    assert(with_z(seq![x], z) =~= seq![x]);
                    assert(with_z(rest0, z) =~= seq![x] + with_z(back, z));
                    assert(with_z(nodes@, z) =~= with_z(prev, z).push(x));
                    assert(with_z(rest@, z) =~= with_z(back, z));
                    assert(with_z(nodes@, z) + with_z(rest@, z) =~= with_z(prev, z) + (seq![x]
                        + with_z(back, z)));
                } else {
                    assert(with_z(seq![x], z) =~= Seq::<ExtractedUiNode>::empty());
                    assert(with_z(rest0, z) =~= with_z(front, z) + with_z(back, z));
                    assert(with_z(nodes@, z) =~= with_z(prev, z));
                    assert(with_z(rest@, z) =~= with_z(front, z) + with_z(back, z));
                }
            }
        }
    }
    proof {
        assert forall|z: i64| #[trigger] with_z(final(nodes)@, z) == with_z(old(nodes)@, z) by {
            assert(with_z(rest@, z) =~= Seq::<ExtractedUiNode>::empty());
            assert(with_z(nodes@, z) + with_z(rest@, z) =~= with_z(nodes@, z));
        }
    }
}

/// One node's uniform-table entry.
pub open spec fn entry_of(n: ExtractedUiNode) -> UiUniformEntry {
    UiUniformEntry {
        color: packed_color(n.color) as u32,
        size: Vec2i { x: n.rect.width() as i64, y: n.rect.height() as i64 },
        center: Vec2i {
            x: ((quad_corner_spec(n, 0).0 + quad_corner_spec(n, 2).0) / 2) as i64,
            y: ((quad_corner_spec(n, 0).1 + quad_corner_spec(n, 2).1) / 2) as i64,
        },
        border_color: match n.border_color {
            Some(c) => packed_color(c) as u32,
            None => 0,
        },
        border_width: match n.border_width {
            Some(w) => w,
            None => 0,
        },
        corner_radius: match n.corner_radius {
            Some(r) => r,
            None => (0, 0, 0, 0),
        },
    }
}

/// Shorthand for the shared corner function.
pub open spec fn quad_corner_spec(n: ExtractedUiNode, which: int) -> (int, int) {
    crate::render::quad_corner(n, which)
}

/// One vertex of a node's quad.
pub open spec fn vertex_of(n: ExtractedUiNode, which: int, idx: u32) -> UiVertex {
    UiVertex {
        position: (
            clipped_corner(n, which).0 as i64,
            clipped_corner(n, which).1 as i64,
            n.z,
        ),
        uv: Vec2i { x: clipped_uv(n, which).0 as i64, y: clipped_uv(n, which).1 as i64 },
        uv_extent: uv_extent(n),
        uniform_index: idx,
    }
}

/// The six vertices of a node's quad: two triangles over the four
/// corners, in the order 0-2-3, 0-1-2.
pub open spec fn verts_of(n: ExtractedUiNode, idx: u32) -> Seq<UiVertex> {
    seq![
        vertex_of(n, 0, idx),
        vertex_of(n, 2, idx),
        vertex_of(n, 3, idx),
        vertex_of(n, 0, idx),
        vertex_of(n, 1, idx),
        vertex_of(n, 2, idx),
    ]
}

/// The running state of the batching pass.
pub struct PrepAcc {
    /// Flushed batches, in emission order.
    pub batches: Seq<UiBatchModel>,
    /// Vertices written so far.
    pub vertices: Seq<UiVertex>,
    /// Flushed uniform blocks, one per flushed batch.
    pub uniforms: Seq<Seq<UiUniformEntry>>,
    /// First vertex index of the open batch.
    pub start: int,
    /// Image handle of the open batch.
    pub cur_image: u64,
    /// Uniform entries of the open batch, one per written node.
    pub cur_entries: Seq<UiUniformEntry>,
    /// Depth key of the last written node.
    pub last_z: i64,
}

/// Before any node: everything empty, open batch on the null handle.
pub open spec fn prep_init() -> PrepAcc {
    PrepAcc {
        batches: Seq::empty(),
        vertices: Seq::empty(),
        uniforms: Seq::empty(),
        start: 0,
        cur_image: 0,
        cur_entries: Seq::empty(),
        last_z: 0,
    }
}

/// Closes the open batch, if it holds any vertex: emits its record and
/// uniform block and opens an empty one at the current vertex count.
pub open spec fn prep_flush(acc: PrepAcc) -> PrepAcc {
    if acc.start != acc.vertices.len() {
        PrepAcc {
            batches: acc.batches.push(
                UiBatchModel {
                    start: acc.start,
                    end: acc.vertices.len() as int,
                    image: acc.cur_image,
                    ui_uniform_offset: acc.uniforms.len() as int,
                    z: acc.last_z,
                },
            ),
            uniforms: acc.uniforms.push(acc.cur_entries),
            start: acc.vertices.len() as int,
            cur_entries: Seq::empty(),
            ..acc
        }
    } else {
        acc
    }
}

/// Processes one node: a changed image handle or a full uniform table
/// closes the open batch (even for a node culled right after); a culled
/// node writes nothing; any other node appends its uniform entry and
/// six vertices and becomes the open batch's newest depth.
pub open spec fn prep_step(acc: PrepAcc, n: ExtractedUiNode) -> PrepAcc {
    let acc1 = if acc.cur_image != n.image || acc.cur_entries.len()
        >= MAX_UI_UNIFORM_ENTRIES as int {
        PrepAcc { cur_image: n.image, ..prep_flush(acc) }
    } else {
        acc
    };
    if culled(n) {
        acc1
    } else {
        PrepAcc {
            vertices: acc1.vertices + verts_of(n, acc1.cur_entries.len() as u32),
            cur_entries: acc1.cur_entries.push(entry_of(n)),
            last_z: n.z,
            ..acc1
        }
    }
}

/// The batching pass over a node sequence.
pub open spec fn prep_fold(nodes: Seq<ExtractedUiNode>) -> PrepAcc
    decreases nodes.len(),
{
    if nodes.len() == 0 {
        prep_init()
    } else {
        prep_step(prep_fold(nodes.drop_last()), nodes.last())
    }
}

/// The pass's result: the fold over all nodes with the last open batch
/// closed.
pub open spec fn prep_result(nodes: Seq<ExtractedUiNode>) -> PrepAcc {
    prep_flush(prep_fold(nodes))
}

/// Ranges of the intermediate geometry quantities: corners are sums of
/// two in-range coordinates, shifts of three.
pub open spec fn in_mid_range(v: int) -> bool {
    -0x4000_0000_0000 <= v <= 0x4000_0000_0000
}

/// Executable form of the shared corner function.
fn quad_corner_exec(n: &ExtractedUiNode, which: usize) -> (r: (i64, i64))
    requires
        n.wf(),
        which < 4,
    ensures
        r.0 as int == quad_corner_spec(*n, which as int).0,
        r.1 as int == quad_corner_spec(*n, which as int).1,
        in_mid_range(r.0 as int),
        in_mid_range(r.1 as int),
{
    let sx = n.rect.max.x - n.rect.min.x;
    let sy = n.rect.max.y - n.rect.min.y;
    let hx = ((sx as u64) / 2) as i64;
    let hy = ((sy as u64) / 2) as i64;
    proof {
        assert(hx as int == n.rect.width() / 2);
        assert(hy as int == n.rect.height() / 2);
    }
    let x0 = n.translation.x - hx;
    let y0 = n.translation.y - hy;
    if which == 0 {
        (x0, y0)
    } else if which == 1 {
        (x0 + sx, y0)
    } else if which == 2 {
        (x0 + sx, y0 + sy)
    } else {
        (x0, y0 + sy)
    }
}

/// Executable form of the shared clip-shift function.
fn clip_shift_exec(n: &ExtractedUiNode, which: usize) -> (r: (i64, i64))
    requires
        n.wf(),
        which < 4,
    ensures
        r.0 as int == crate::render::clip_shift(*n, which as int).0,
        r.1 as int == crate::render::clip_shift(*n, which as int).1,
        in_mid_range(r.0 as int),
        in_mid_range(r.1 as int),
{
    match &n.clip {
        None => (0, 0),
        Some(c) => {
            let p = quad_corner_exec(n, which);
            let toward_min_x: i64 = if c.min.x - p.0 > 0 {
                c.min.x - p.0
            } else {
                0
            };
            let toward_max_x: i64 = if c.max.x - p.0 < 0 {
                c.max.x - p.0
            } else {
                0
            };
            let toward_min_y: i64 = if c.min.y - p.1 > 0 {
                c.min.y - p.1
            } else {
                0
            };
            let toward_max_y: i64 = if c.max.y - p.1 < 0 {
                c.max.y - p.1
            } else {
                0
            };
            if which == 0 {
                (toward_min_x, toward_min_y)
            } else if which == 1 {
                (toward_max_x, toward_min_y)
            } else if which == 2 {
                (toward_max_x, toward_max_y)
            } else {
                (toward_min_x, toward_max_y)
            }
        },
    }
}

/// Executable form of the cull test.
fn is_culled(n: &ExtractedUiNode) -> (r: bool)
    requires
        n.wf(),
    ensures
        r == culled(*n),
{
    let d0 = clip_shift_exec(n, 0);
    let d1 = clip_shift_exec(n, 1);
    let d2 = clip_shift_exec(n, 2);
    let sx = n.rect.max.x - n.rect.min.x;
    let sy = n.rect.max.y - n.rect.min.y;
    d0.0 - d1.0 >= sx || d1.1 - d2.1 >= sy
}

/// Builds one vertex of a node's quad.
fn vertex_exec(n: &ExtractedUiNode, which: usize, idx: u32) -> (v: UiVertex)
    requires
        n.wf(),
        which < 4,
    ensures
        v == vertex_of(*n, which as int, idx),
{
    let p = quad_corner_exec(n, which);
    let d = clip_shift_exec(n, which);
    let uv: (i64, i64) = if which == 0 {
        (n.rect.min.x + d.0, n.rect.max.y - d.1)
    } else if which == 1 {
        (n.rect.max.x + d.0, n.rect.max.y - d.1)
    } else if which == 2 {
        (n.rect.max.x + d.0, n.rect.min.y - d.1)
    } else {
        (n.rect.min.x + d.0, n.rect.min.y - d.1)
    };
    let extent = match &n.atlas_size {
        Some(sz) => *sz,
        None => n.rect.max,
    };
    UiVertex {
        position: (p.0 + d.0, p.1 + d.1, n.z),
        uv: Vec2i { x: uv.0, y: uv.1 },
        uv_extent: extent,
        uniform_index: idx,
    }
}

/// Builds a node's uniform-table entry.
fn make_entry(n: &ExtractedUiNode) -> (e: UiUniformEntry)
    requires
        n.wf(),
    ensures
        e == entry_of(*n),
{
    let p0 = quad_corner_exec(n, 0);
    let p2 = quad_corner_exec(n, 2);
    let cx_sum = p0.0 + p2.0;
    let cy_sum = p0.1 + p2.1;
    let cx = if cx_sum >= 0 {
        ((cx_sum as u64) / 2) as i64
    } else {
        -(((-(cx_sum as i128)) as u64 / 2) as i64) - (if cx_sum % 2 != 0 {
            1
        } else {
            0
        })
    };
    proof {
        assert(cx as int == (quad_corner_spec(*n, 0).0 + quad_corner_spec(*n, 2).0) / 2) by {
            let v = cx_sum as int;
            if v >= 0 {
            } else {
                assert(v / 2 == -((-v) / 2) - (if v % 2 != 0 { 1int } else { 0 })) by (nonlinear_arith);
            }
        };
    }
    let cy = if cy_sum >= 0 {
        ((cy_sum as u64) / 2) as i64
    } else {
        -(((-(cy_sum as i128)) as u64 / 2) as i64) - (if cy_sum % 2 != 0 {
            1
        } else {
            0
        })
    };
    proof {
        assert(cy as int == (quad_corner_spec(*n, 0).1 + quad_corner_spec(*n, 2).1) / 2) by {
            let v = cy_sum as int;
            if v >= 0 {
            } else {
                assert(v / 2 == -((-v) / 2) - (if v % 2 != 0 { 1int } else { 0 })) by (nonlinear_arith);
            }
        };
    }
    UiUniformEntry {
        color: crate::render::encode_color_as_u32(n.color),
        size: Vec2i { x: n.rect.max.x - n.rect.min.x, y: n.rect.max.y - n.rect.min.y },
        center: Vec2i { x: cx, y: cy },
        border_color: match &n.border_color {
            Some(c) => crate::render::encode_color_as_u32(*c),
            None => 0,
        },
        border_width: match &n.border_width {
            Some(w) => *w,
            None => 0,
        },
        corner_radius: match &n.corner_radius {
            Some(r) => *r,
            None => (0, 0, 0, 0),
        },
    }
}

/// Structural invariant of the batching pass: the open batch covers the
/// vertex tail, six vertices per entry, the table never overflows, and
/// one uniform block was flushed per batch.
pub open spec fn acc_wf(acc: PrepAcc) -> bool {
    &&& 0 <= acc.start <= acc.vertices.len()
    &&& acc.cur_entries.len() <= MAX_UI_UNIFORM_ENTRIES as int
    &&& acc.vertices.len() - acc.start == 6 * acc.cur_entries.len()
    &&& acc.batches.len() == acc.uniforms.len()
}

/// The batching pass maintains its structural invariant.
pub proof fn lemma_fold_wf(nodes: Seq<ExtractedUiNode>)
    ensures
        acc_wf(prep_fold(nodes)),
    decreases nodes.len(),
{
    if nodes.len() > 0 {
        lemma_fold_wf(nodes.drop_last());
    }
}

/// Sorts the extracted nodes by depth — stably, so equal-depth records
/// keep their extraction order — batches them and fills the vertex and
/// uniform buffers. The outcome is exactly the batching pass
/// [`prep_result`] over the sorted nodes.
#[verifier::loop_isolation(false)]
#[verifier::rlimit(100)]
pub fn prepare_uinodes(extracted: &mut ExtractedUiNodes, meta: &mut UiMeta) -> (batches: Vec<
    UiBatch,
>)
    requires
        forall|k: int|
            0 <= k < old(extracted).uinodes@.len() ==> (#[trigger] old(
                extracted,
            ).uinodes@[k]).wf(),
        old(extracted).uinodes@.len() <= 0x100_0000,
    ensures
        sorted_by_z(final(extracted).uinodes@),
        final(extracted).uinodes@.to_multiset() == old(extracted).uinodes@.to_multiset(),
        final(extracted).uinodes@.len() == old(extracted).uinodes@.len(),
        forall|z: i64|
            #[trigger] with_z(final(extracted).uinodes@, z) == with_z(
                old(extracted).uinodes@,
                z,
            ),
        ({
            let fin = prep_result(final(extracted).uinodes@);
            &&& final(meta).vertices@ == fin.vertices
            &&& final(meta).ui_uniforms@.map_values(|b: Vec<UiUniformEntry>| b@) == fin.uniforms
            &&& batches@.map_values(|b: UiBatch| batch_view(b)) == fin.batches
        }),
{
    sort_by_z(&mut extracted.uinodes);
    proof {
        broadcast use group_to_multiset_ensures;

        assert forall|k: int|
            0 <= k < extracted.uinodes@.len() implies (#[trigger] extracted.uinodes@[k]).wf() by {
            let v = extracted.uinodes@[k];
            assert(extracted.uinodes@.contains(v));
            assert(old(extracted).uinodes@.to_multiset().count(v) > 0);
            assert(old(extracted).uinodes@.contains(v));
            let j = choose|j: int|
                0 <= j < old(extracted).uinodes@.len() && old(extracted).uinodes@[j] == v;
            assert(old(extracted).uinodes@[j].wf());
        }
    }
    meta.vertices.clear();
    meta.ui_uniforms.clear();
    let mut batches: Vec<UiBatch> = Vec::new();
    let mut start: usize = 0;
    let mut cur_image: u64 = 0;
    let mut cur_entries: Vec<UiUniformEntry> = Vec::new();
    let mut last_z: i64 = 0;
    let ghost nodes = extracted.uinodes@;
    let mut i: usize = 0;
    while i < extracted.uinodes.len()
        invariant
            i <= nodes.len(),
            extracted.uinodes@ == nodes,
            meta.vertices@ == prep_fold(nodes.take(i as int)).vertices,
            meta.ui_uniforms@.map_values(|b: Vec<UiUniformEntry>| b@) == prep_fold(
                nodes.take(i as int),
            ).uniforms,
            batches@.map_values(|b: UiBatch| batch_view(b)) == prep_fold(
                nodes.take(i as int),
            ).batches,
            start == prep_fold(nodes.take(i as int)).start,
            cur_image == prep_fold(nodes.take(i as int)).cur_image,
            cur_entries@ == prep_fold(nodes.take(i as int)).cur_entries,
            last_z == prep_fold(nodes.take(i as int)).last_z,
        decreases nodes.len() - i,
    {
        let ghost acc = prep_fold(nodes.take(i as int));
        proof {
            lemma_fold_wf(nodes.take(i as int));
            assert(nodes.take(i + 1 as int).drop_last() =~= nodes.take(i as int));
            assert(nodes.take(i + 1 as int).last() == nodes[i as int]);
        }
        let n = extracted.uinodes[i];
        if cur_image != n.image || cur_entries.len() >= MAX_UI_UNIFORM_ENTRIES {
            if start != meta.vertices.len() {
                let ghost uni0 = meta.ui_uniforms@;
                let ghost bat0 = batches@;
                batches.push(
                    UiBatch {
                        start,
                        end: meta.vertices.len(),
                        image: cur_image,
                        ui_uniform_offset: meta.ui_uniforms.len(),
                        z: last_z,
                    },
                );
                let mut fresh: Vec<UiUniformEntry> = Vec::new();
                core::mem::swap(&mut cur_entries, &mut fresh);
                meta.ui_uniforms.push(fresh);
                start = meta.vertices.len();
                proof {
                    assert(batches@.map_values(|b: UiBatch| batch_view(b)) =~= bat0.map_values(
                        |b: UiBatch| batch_view(b),
                    ).push(batch_view(batches@.last())));
                    assert(meta.ui_uniforms@.map_values(|b: Vec<UiUniformEntry>| b@)
                        =~= uni0.map_values(|b: Vec<UiUniformEntry>| b@).push(
                        meta.ui_uniforms@.last()@,
                    ));
                }
            }
            cur_image = n.image;
        }
        proof {
            let acc1 = if acc.cur_image != n.image || acc.cur_entries.len()
                >= MAX_UI_UNIFORM_ENTRIES as int {
                PrepAcc { cur_image: n.image, ..prep_flush(acc) }
            } else {
                acc
            };
            assert(meta.vertices@ == acc1.vertices);
            assert(meta.ui_uniforms@.map_values(|b: Vec<UiUniformEntry>| b@) =~= acc1.uniforms);
            assert(batches@.map_values(|b: UiBatch| batch_view(b)) =~= acc1.batches);
            assert(start == acc1.start);
            assert(cur_image == acc1.cur_image);
            assert(cur_entries@ == acc1.cur_entries);
            assert(last_z == acc1.last_z);
            assert(acc1.cur_entries.len() < MAX_UI_UNIFORM_ENTRIES as int);
        }
        if !is_culled(&n) {
            let ghost v0 = meta.vertices@;
            let idx: u32 = cur_entries.len() as u32;
            cur_entries.push(make_entry(&n));
            meta.vertices.push(vertex_exec(&n, 0, idx));
            meta.vertices.push(vertex_exec(&n, 2, idx));
            meta.vertices.push(vertex_exec(&n, 3, idx));
            meta.vertices.push(vertex_exec(&n, 0, idx));
            meta.vertices.push(vertex_exec(&n, 1, idx));
            meta.vertices.push(vertex_exec(&n, 2, idx));
            last_z = n.z;
            proof {
                assert(meta.vertices@ =~= v0 + verts_of(n, idx));
            }
        }
        proof {
            assert(prep_fold(nodes.take(i + 1 as int)) == prep_step(acc, n));
        }
        i = i + 1;
    }
    proof {
        assert(nodes.take(nodes.len() as int) =~= nodes);
        lemma_fold_wf(nodes);
    }
    if start != meta.vertices.len() {
        let ghost uni0 = meta.ui_uniforms@;
        let ghost bat0 = batches@;
        batches.push(
            UiBatch {
                start,
                end: meta.vertices.len(),
                image: cur_image,
                ui_uniform_offset: meta.ui_uniforms.len(),
                z: last_z,
            },
        );
        meta.ui_uniforms.push(cur_entries);
        proof {
            assert(batches@.map_values(|b: UiBatch| batch_view(b)) =~= bat0.map_values(
                |b: UiBatch| batch_view(b),
            ).push(batch_view(batches@.last())));
            assert(meta.ui_uniforms@.map_values(|b: Vec<UiUniformEntry>| b@) =~= uni0.map_values(
                |b: Vec<UiUniformEntry>| b@,
            ).push(meta.ui_uniforms@.last()@));
        }
    }
    batches
}

/// Number of nodes that survive the cull.
pub open spec fn non_culled_count(nodes: Seq<ExtractedUiNode>) -> int
    decreases nodes.len(),
{
    if nodes.len() == 0 {
        0
    } else {
        non_culled_count(nodes.drop_last()) + (if culled(nodes.last()) {
            0int
        } else {
            1int
        })
    }
}

/// A culled node produces zero geometry: the pass emits exactly six
/// vertices per surviving node, so a node whose clip rectangle excludes
/// its quad on either axis contributes nothing at all.
pub proof fn lemma_culled_produce_no_geometry(nodes: Seq<ExtractedUiNode>)
    ensures
        prep_result(nodes).vertices.len() == 6 * non_culled_count(nodes),
    decreases nodes.len(),
{
    if nodes.len() == 0 {
    } else {
        lemma_culled_produce_no_geometry(nodes.drop_last());
        assert(prep_result(nodes.drop_last()).vertices.len() == prep_fold(
            nodes.drop_last(),
        ).vertices.len());
    }
}

/// The pass state after a run of same-image, never-culled nodes that
/// fits one uniform table: everything accumulates in the open batch.
proof fn lemma_one_run_state(nodes: Seq<ExtractedUiNode>, image: u64)
    requires
        1 <= nodes.len() <= MAX_UI_UNIFORM_ENTRIES as int,
        forall|k: int|
            0 <= k < nodes.len() ==> (#[trigger] nodes[k]).image == image && !culled(nodes[k]),
    ensures
        ({
            let acc = prep_fold(nodes);
            &&& acc.batches.len() == 0
            &&& acc.uniforms.len() == 0
            &&& acc.start == 0
            &&& acc.cur_image == image
            &&& acc.cur_entries.len() == nodes.len()
            &&& acc.vertices.len() == 6 * nodes.len()
            &&& acc.last_z == nodes.last().z
        }),
    decreases nodes.len(),
{
    if nodes.len() == 1 {
        assert(nodes.last() == nodes[0]);
    } else {
        assert forall|k: int|
            0 <= k < nodes.drop_last().len() implies (#[trigger] nodes.drop_last()[k]).image
            == image && !culled(nodes.drop_last()[k]) by {
            assert(nodes.drop_last()[k] == nodes[k]);
        }
        lemma_one_run_state(nodes.drop_last(), image);
        assert(nodes.last() == nodes[nodes.len() - 1]);
    }
}

/// One run, one batch: a frame of up to 256 extracted nodes all
/// sharing one image handle, none culled, prepares into exactly one
/// batch covering all their vertices.
pub proof fn lemma_single_batch(nodes: Seq<ExtractedUiNode>, image: u64)
    requires
        1 <= nodes.len() <= MAX_UI_UNIFORM_ENTRIES as int,
        forall|k: int|
            0 <= k < nodes.len() ==> (#[trigger] nodes[k]).image == image && !culled(nodes[k]),
    ensures
        ({
            let fin = prep_result(nodes);
            &&& fin.batches.len() == 1
            &&& fin.batches[0].start == 0
            &&& fin.batches[0].end == 6 * nodes.len()
            &&& fin.batches[0].image == image
            &&& fin.batches[0].ui_uniform_offset == 0
            &&& fin.batches[0].z == nodes.last().z
            &&& fin.uniforms.len() == 1
            &&& fin.uniforms[0].len() == nodes.len()
        }),
{
    lemma_one_run_state(nodes, image);
}

/// The pass state after a same-image, never-culled run that has gone
/// past one uniform table but still fits two: one batch flushed at the
/// capacity boundary, the rest open.
proof fn lemma_two_run_state(nodes: Seq<ExtractedUiNode>, image: u64)
    requires
        (MAX_UI_UNIFORM_ENTRIES as int) < nodes.len() <= 2 * (MAX_UI_UNIFORM_ENTRIES as int),
        forall|k: int|
            0 <= k < nodes.len() ==> (#[trigger] nodes[k]).image == image && !culled(nodes[k]),
    ensures
        ({
            let cap = MAX_UI_UNIFORM_ENTRIES as int;
            let acc = prep_fold(nodes);
            &&& acc.batches.len() == 1
            &&& acc.batches[0].start == 0
            &&& acc.batches[0].end == 6 * cap
            &&& acc.batches[0].image == image
            &&& acc.batches[0].ui_uniform_offset == 0
            &&& acc.uniforms.len() == 1
            &&& acc.uniforms[0].len() == cap
            &&& acc.start == 6 * cap
            &&& acc.cur_image == image
            &&& acc.cur_entries.len() == nodes.len() - cap
            &&& acc.vertices.len() == 6 * nodes.len()
            &&& acc.last_z == nodes.last().z
        }),
    decreases nodes.len(),
{
    let cap = MAX_UI_UNIFORM_ENTRIES as int;
    assert forall|k: int|
        0 <= k < nodes.drop_last().len() implies (#[trigger] nodes.drop_last()[k]).image == image
        && !culled(nodes.drop_last()[k]) by {
        assert(nodes.drop_last()[k] == nodes[k]);
    }
    if nodes.len() == cap + 1 {
        lemma_one_run_state(nodes.drop_last(), image);
    } else {
        lemma_two_run_state(nodes.drop_last(), image);
    }
    assert(nodes.last() == nodes[nodes.len() - 1]);
}

/// The capacity split: between 257 and 512 same-image, never-culled
/// nodes prepare into exactly two batches, split at the 256-entry
/// boundary.
pub proof fn lemma_cap_splits(nodes: Seq<ExtractedUiNode>, image: u64)
    requires
        (MAX_UI_UNIFORM_ENTRIES as int) < nodes.len() <= 2 * (MAX_UI_UNIFORM_ENTRIES as int),
        forall|k: int|
            0 <= k < nodes.len() ==> (#[trigger] nodes[k]).image == image && !culled(nodes[k]),
    ensures
        ({
            let cap = MAX_UI_UNIFORM_ENTRIES as int;
            let fin = prep_result(nodes);
            &&& fin.batches.len() == 2
            &&& fin.batches[0].start == 0
            &&& fin.batches[0].end == 6 * cap
            &&& fin.batches[1].start == 6 * cap
            &&& fin.batches[1].end == 6 * nodes.len()
            &&& fin.batches[0].image == image
            &&& fin.batches[1].image == image
            &&& fin.uniforms.len() == 2
            &&& fin.uniforms[0].len() == cap
            &&& fin.uniforms[1].len() == nodes.len() - cap
        }),
{
    lemma_two_run_state(nodes, image);
}

/// The structural facts of a pass over never-culled nodes, carried
/// through the fold.
pub open spec fn batches_structured(acc: PrepAcc) -> bool {
    &&& forall|i: int|
        0 <= i < acc.batches.len() ==> (#[trigger] acc.batches[i]).start < acc.batches[i].end
            && acc.batches[i].ui_uniform_offset == i
    &&& forall|i: int|
        0 <= i < acc.batches.len() - 1 ==> (#[trigger] acc.batches[i]).end == acc.batches[i
            + 1].start
    &&& acc.batches.len() > 0 ==> acc.batches[0].start == 0 && acc.batches.last().end == acc.start
    &&& acc.batches.len() == 0 ==> acc.start == 0
    &&& acc.batches.len() > 0 ==> (acc.batches.last().image != acc.cur_image
        || acc.uniforms.last().len() == MAX_UI_UNIFORM_ENTRIES as int)
    &&& forall|i: int|
        0 <= i < acc.batches.len() - 1 ==> ((#[trigger] acc.batches[i]).image != acc.batches[i
            + 1].image || acc.uniforms[i].len() == MAX_UI_UNIFORM_ENTRIES as int)
}

/// The fold over never-culled nodes keeps its batches structured.
proof fn lemma_fold_structured(nodes: Seq<ExtractedUiNode>)
    requires
        forall|k: int| 0 <= k < nodes.len() ==> !culled(#[trigger] nodes[k]),
    ensures
        batches_structured(prep_fold(nodes)),
        acc_wf(prep_fold(nodes)),
    decreases nodes.len(),
{
    lemma_fold_wf(nodes);
    if nodes.len() > 0 {
        assert forall|k: int|
            0 <= k < nodes.drop_last().len() implies !culled(#[trigger] nodes.drop_last()[k]) by {
            assert(nodes.drop_last()[k] == nodes[k]);
        }
        lemma_fold_structured(nodes.drop_last());
        lemma_fold_wf(nodes.drop_last());
        assert(!culled(nodes.last()));
    }
}

/// Greedy batching law: batches cover the vertex buffer contiguously
/// from zero, each is nonempty and numbers its uniform block, and a
/// boundary between consecutive batches exists only where the image
/// handle changes or the earlier batch's uniform table is full. With
/// never-culled nodes this is exactly one batch per contiguous
/// same-image run, up to the table's capacity.
pub proof fn lemma_batch_per_run(nodes: Seq<ExtractedUiNode>)
    requires
        forall|k: int| 0 <= k < nodes.len() ==> !culled(#[trigger] nodes[k]),
    ensures
        ({
            let fin = prep_result(nodes);
            &&& fin.batches.len() == fin.uniforms.len()
            &&& forall|i: int|
                0 <= i < fin.batches.len() ==> (#[trigger] fin.batches[i]).start
                    < fin.batches[i].end && fin.batches[i].ui_uniform_offset == i
            &&& fin.batches.len() > 0 ==> fin.batches[0].start == 0 && fin.batches.last().end
                == fin.vertices.len()
            &&& forall|i: int|
                0 <= i < fin.batches.len() - 1 ==> (#[trigger] fin.batches[i]).end
                    == fin.batches[i + 1].start
            &&& forall|i: int|
                0 <= i < fin.batches.len() - 1 ==> ((#[trigger] fin.batches[i]).image
                    != fin.batches[i + 1].image || fin.uniforms[i].len()
                    == MAX_UI_UNIFORM_ENTRIES as int)
        }),
{
    lemma_fold_structured(nodes);
    lemma_fold_wf(nodes);
    let acc = prep_fold(nodes);
    let fin = prep_result(nodes);
    if acc.start == acc.vertices.len() {
        assert(acc.batches.len() > 0 ==> acc.batches.last().end == acc.vertices.len());
    }
}

} // verus!
