//! The extract stage: copies the minimal per-frame snapshot of the
//! visible interface nodes out of the main world into the render
//! world's extracted-node list.
//!
//! Invisible nodes are skipped; so is a node whose image has not
//! finished loading — it is simply "not ready" and reappears once
//! loaded. Text nodes contribute one record per glyph, positioned
//! relative to the node's center.

use crate::render::{ColorRgba, ExtractedUiNode, ExtractedUiNodes, UiRect, Vec2i};
use crate::system::vec_contains;
use vstd::prelude::*;

verus! {

/// Snapshot of one plain interface node in the main world.
#[derive(Clone, Copy, Debug, PartialEq, Eq)]
pub struct UiNodeInput {
    /// Whether the node is visible this frame.
    pub visible: bool,
    /// Size of the node.
    pub size: Vec2i,
    /// On-screen center of the node.
    pub translation: Vec2i,
    /// Depth key.
    pub z: i64,
    /// Fill color.
    pub color: ColorRgba,
    /// Interned key of the node's image handle.
    pub image: u64,
    /// Clip rectangle, when an ancestor clips this node.
    pub clip: Option<UiRect>,
    /// Border color and width, for bordered nodes.
    pub border: Option<(ColorRgba, i64)>,
    /// Corner radii, for rounded nodes.
    pub corner_radius: Option<(i64, i64, i64, i64)>,
}

/// The image assets that have finished loading, by handle key.
pub struct ImageAssets {
    /// Keys of the loaded images.
    pub loaded: Vec<u64>,
}

/// The extracted record of a plain node: a quad over the node's size,
/// textured from the image's full extent.
pub open spec fn node_snapshot(n: UiNodeInput) -> ExtractedUiNode {
    ExtractedUiNode {
        translation: n.translation,
        z: n.z,
        color: n.color,
        rect: UiRect { min: Vec2i { x: 0, y: 0 }, max: n.size },
        image: n.image,
        atlas_size: None,
        clip: n.clip,
        border_color: match n.border {
            Some(b) => Some(b.0),
            None => None,
        },
        border_width: match n.border {
            Some(b) => Some(b.1),
            None => None,
        },
        corner_radius: n.corner_radius,
    }
}

/// What extraction owes: one record per visible node whose image is
/// loaded, in input order; nothing for the others.
pub open spec fn extract_model(inputs: Seq<UiNodeInput>, loaded: Seq<u64>) -> Seq<ExtractedUiNode>
    decreases inputs.len(),
{
    if inputs.len() == 0 {
        Seq::empty()
    } else {
        extract_model(inputs.drop_last(), loaded) + (if inputs.last().visible && loaded.contains(
            inputs.last().image,
        ) {
            seq![node_snapshot(inputs.last())]
        } else {
            Seq::empty()
        })
    }
}

/// Clears the extracted-node list and fills it with the snapshot of
/// every visible node whose image is loaded, in input order.
#[verifier::loop_isolation(false)]
pub fn extract_uinodes(
    nodes: &Vec<UiNodeInput>,
    images: &ImageAssets,
    extracted: &mut ExtractedUiNodes,
)
    ensures
        final(extracted).uinodes@ == extract_model(nodes@, images.loaded@),
{
    extracted.uinodes.clear();
    let mut i: usize = 0;
    while i < nodes.len()
        invariant
            i <= nodes@.len(),
            extracted.uinodes@ == extract_model(nodes@.take(i as int), images.loaded@),
        decreases nodes@.len() - i,
    {
        proof {
            assert(nodes@.take(i + 1 as int).drop_last() =~= nodes@.take(i as int));
            assert(nodes@.take(i + 1 as int).last() == nodes@[i as int]);
        }
        let n = nodes[i];
        if n.visible && vec_contains(&images.loaded, n.image) {
            extracted.uinodes.push(
                ExtractedUiNode {
                    translation: n.translation,
                    z: n.z,
                    color: n.color,
                    rect: UiRect { min: Vec2i { x: 0, y: 0 }, max: n.size },
                    image: n.image,
                    atlas_size: None,
                    clip: n.clip,
                    border_color: match n.border {
                        Some(b) => Some(b.0),
                        None => None,
                    },
                    border_width: match n.border {
                        Some(b) => Some(b.1),
                        None => None,
                    },
                    corner_radius: n.corner_radius,
                },
            );
            proof {
                assert(extracted.uinodes@ =~= extract_model(nodes@.take(i as int), images.loaded@)
                    + seq![node_snapshot(nodes@[i as int])]);
            }
        } else {
            proof {
                assert(extracted.uinodes@ =~= extract_model(nodes@.take(i as int), images.loaded@)
                    + Seq::<ExtractedUiNode>::empty());
            }
        }
        i = i + 1;
    }
    proof {
        assert(nodes@.take(nodes@.len() as int) =~= nodes@);
    }
}

/// One laid-out glyph of a text node: its color, the atlas it draws
/// from, its rectangle and the atlas extent, and its position relative
/// to the node's center.
#[derive(Clone, Copy, Debug, PartialEq, Eq)]
pub struct TextGlyphInput {
    /// Color of the glyph's text section.
    pub color: ColorRgba,
    /// Interned key of the atlas texture's handle.
    pub image: u64,
    /// The glyph's rectangle inside the atlas, in texels.
    pub rect: UiRect,
    /// Extent of the atlas texture.
    pub atlas_size: Vec2i,
    /// Position of the glyph relative to the node's top-left corner.
    pub position: Vec2i,
}

/// Snapshot of one text node and its laid-out glyphs. A node that the
/// text pipeline has not laid out yet carries no glyph list.
pub struct TextNodeInput {
    /// Whether the node is visible this frame.
    pub visible: bool,
    /// Size of the node; a zero-sized node is skipped.
    pub size: Vec2i,
    /// On-screen center of the node.
    pub translation: Vec2i,
    /// Depth key.
    pub z: i64,
    /// The laid-out glyphs, when a layout exists for this node.
    pub glyphs: Option<Vec<TextGlyphInput>>,
    /// Clip rectangle, when an ancestor clips this node.
    pub clip: Option<UiRect>,
}

/// Geometry small enough for the glyph placement arithmetic.
pub open spec fn text_node_wf(n: TextNodeInput) -> bool {
    &&& n.translation.wf()
    &&& n.size.wf()
    &&& n.size.x >= 0 && n.size.y >= 0
    &&& match n.glyphs {
        Some(gs) => forall|k: int| 0 <= k < gs@.len() ==> (#[trigger] gs@[k]).position.wf(),
        None => true,
    }
}

/// The extracted record of one glyph: positioned from the node's
/// top-left corner (the node's center shifted back by half its size)
/// plus the glyph's own offset, drawing the glyph's atlas rectangle.
pub open spec fn glyph_snapshot(n: TextNodeInput, g: TextGlyphInput) -> ExtractedUiNode {
    ExtractedUiNode {
        translation: Vec2i {
            x: (n.translation.x - n.size.x / 2 + g.position.x) as i64,
            y: (n.translation.y - n.size.y / 2 + g.position.y) as i64,
        },
        z: n.z,
        color: g.color,
        rect: g.rect,
        image: g.image,
        atlas_size: Some(g.atlas_size),
        clip: n.clip,
        border_color: None,
        border_width: None,
        corner_radius: None,
    }
}

/// The records one text node contributes: one per glyph when the node
/// is visible, has a size and has been laid out; none otherwise.
pub open spec fn text_node_model(n: TextNodeInput) -> Seq<ExtractedUiNode> {
    if !n.visible || (n.size.x == 0 && n.size.y == 0) {
        Seq::empty()
    } else {
        match n.glyphs {
            Some(gs) => gs@.map_values(|g: TextGlyphInput| glyph_snapshot(n, g)),
            None => Seq::empty(),
        }
    }
}

/// What text extraction owes: each node's glyph records, in input
/// order.
pub open spec fn extract_text_model(inputs: Seq<TextNodeInput>) -> Seq<ExtractedUiNode>
    decreases inputs.len(),
{
    if inputs.len() == 0 {
        Seq::empty()
    } else {
        extract_text_model(inputs.drop_last()) + text_node_model(inputs.last())
    }
}

/// Appends the glyph records of every visible, laid-out, non-empty
/// text node to the extracted-node list, in input order. Runs after
/// [`extract_uinodes`], which clears the list.
#[verifier::loop_isolation(false)]
pub fn extract_text_uinodes(nodes: &Vec<TextNodeInput>, extracted: &mut ExtractedUiNodes)
    requires
        forall|k: int| 0 <= k < nodes@.len() ==> text_node_wf(#[trigger] nodes@[k]),
    ensures
        final(extracted).uinodes@ == old(extracted).uinodes@ + extract_text_model(nodes@),
{
    let mut i: usize = 0;
    while i < nodes.len()
        invariant
            i <= nodes@.len(),
            extracted.uinodes@ == old(extracted).uinodes@ + extract_text_model(
                nodes@.take(i as int),
            ),
        decreases nodes@.len() - i,
    {
        proof {
            assert(nodes@.take(i + 1 as int).drop_last() =~= nodes@.take(i as int));
            assert(nodes@.take(i + 1 as int).last() == nodes@[i as int]);
        }
        let n = &nodes[i];
        let skip = !n.visible || (n.size.x == 0 && n.size.y == 0);
        if !skip {
            match &n.glyphs {
                Some(gs) => {
                    let half_x = ((n.size.x as u64) / 2) as i64;
                    let half_y = ((n.size.y as u64) / 2) as i64;
                    let mut j: usize = 0;
                    while j < gs.len()
                        invariant
                            j <= gs@.len(),
                            gs@ == nodes@[i as int].glyphs->Some_0@,
                            half_x as int == nodes@[i as int].size.x / 2,
                            half_y as int == nodes@[i as int].size.y / 2,
                            extracted.uinodes@ == old(extracted).uinodes@ + extract_text_model(
                                nodes@.take(i as int),
                            ) + gs@.take(j as int).map_values(
                                |g: TextGlyphInput| glyph_snapshot(nodes@[i as int], g),
                            ),
                        decreases gs@.len() - j,
                    {
                        let g = gs[j];
                        extracted.uinodes.push(
                            ExtractedUiNode {
                                translation: Vec2i {
                                    x: n.translation.x - half_x + g.position.x,
                                    y: n.translation.y - half_y + g.position.y,
                                },
                                z: n.z,
                                color: g.color,
                                rect: g.rect,
                                image: g.image,
                                atlas_size: Some(g.atlas_size),
                                clip: n.clip,
                                border_color: None,
                                border_width: None,
                                corner_radius: None,
                            },
                        );
                        proof {
                            assert(gs@.take(j + 1 as int).map_values(
                                |g2: TextGlyphInput| glyph_snapshot(nodes@[i as int], g2),
                            ) =~= gs@.take(j as int).map_values(
                                |g2: TextGlyphInput| glyph_snapshot(nodes@[i as int], g2),
                            ).push(glyph_snapshot(nodes@[i as int], gs@[j as int])));
                            assert(extracted.uinodes@ =~= old(extracted).uinodes@
                                + extract_text_model(nodes@.take(i as int)) + gs@.take(
                                j + 1 as int,
                            ).map_values(|g2: TextGlyphInput| glyph_snapshot(nodes@[i as int], g2)));
                        }
                        j = j + 1;
                    }
                    proof {
                        assert(gs@.take(gs@.len() as int) =~= gs@);
                        assert(extracted.uinodes@ =~= old(extracted).uinodes@
                            + extract_text_model(nodes@.take(i + 1 as int)));
                    }
                },
                None => {
                    proof {
                        assert(extracted.uinodes@ =~= old(extracted).uinodes@
                            + extract_text_model(nodes@.take(i + 1 as int)));
                    }
                },
            }
        } else {
            proof {
                assert(extracted.uinodes@ =~= old(extracted).uinodes@ + extract_text_model(
                    nodes@.take(i + 1 as int),
                ));
            }
        }
        i = i + 1;
    }
    proof {
        assert(nodes@.take(nodes@.len() as int) =~= nodes@);
    }
}

} // verus!
