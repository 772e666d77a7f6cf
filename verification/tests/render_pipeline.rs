use bevy_app::app::App;
use bevy_app::extract::{
    extract_text_uinodes, extract_uinodes, ImageAssets, TextGlyphInput, TextNodeInput, UiNodeInput,
};
use bevy_app::labels::{RenderStage, RENDER_APP};
use bevy_app::prepare::{prepare_uinodes, sort_by_z, UiMeta, MAX_UI_UNIFORM_ENTRIES};
use bevy_app::queue::{
    queue_uinodes, sort_phase_system, AssetEventKind, TransparentUi, UiImageBindGroups,
};
use bevy_app::render::{
    build_ui_render, encode_color_as_u32, new_render_sub_app, ColorRgba, ExtractedUiNode,
    ExtractedUiNodes, UiRect, Vec2i,
};

fn v(x: i64, y: i64) -> Vec2i {
    Vec2i { x, y }
}

fn white() -> ColorRgba {
    ColorRgba { r: 255, g: 255, b: 255, a: 255 }
}

fn node(x: i64, y: i64, z: i64, w: i64, h: i64, image: u64) -> ExtractedUiNode {
    ExtractedUiNode {
        translation: v(x, y),
        z,
        color: white(),
        rect: UiRect { min: v(0, 0), max: v(w, h) },
        image,
        atlas_size: None,
        clip: None,
        border_color: None,
        border_width: None,
        corner_radius: None,
    }
}

#[test]
fn color_packs_one_channel_per_byte() {
    assert_eq!(encode_color_as_u32(ColorRgba { r: 1, g: 2, b: 3, a: 4 }), 0x04030201);
    assert_eq!(encode_color_as_u32(white()), 0xffffffff);
    assert_eq!(encode_color_as_u32(ColorRgba { r: 0, g: 0, b: 0, a: 0 }), 0);
}

#[test]
fn up_to_capacity_one_image_gives_one_batch() {
    let mut extracted = ExtractedUiNodes::new();
    for i in 0..MAX_UI_UNIFORM_ENTRIES {
        extracted.uinodes.push(node(i as i64 * 10, 0, i as i64, 8, 8, 42));
    }
    let mut meta = UiMeta::new();
    let batches = prepare_uinodes(&mut extracted, &mut meta);
    assert_eq!(batches.len(), 1);
    assert_eq!(batches[0].start, 0);
    assert_eq!(batches[0].end, 6 * MAX_UI_UNIFORM_ENTRIES);
    assert_eq!(batches[0].image, 42);
    assert_eq!(batches[0].ui_uniform_offset, 0);
    assert_eq!(meta.ui_uniforms.len(), 1);
    assert_eq!(meta.ui_uniforms[0].len(), MAX_UI_UNIFORM_ENTRIES);
}

#[test]
fn one_over_capacity_splits_at_the_boundary() {
    let mut extracted = ExtractedUiNodes::new();
    for i in 0..(MAX_UI_UNIFORM_ENTRIES + 1) {
        extracted.uinodes.push(node(i as i64 * 10, 0, i as i64, 8, 8, 42));
    }
    let mut meta = UiMeta::new();
    let batches = prepare_uinodes(&mut extracted, &mut meta);
    assert_eq!(batches.len(), 2);
    assert_eq!(batches[0].start, 0);
    assert_eq!(batches[0].end, 6 * MAX_UI_UNIFORM_ENTRIES);
    assert_eq!(batches[1].start, 6 * MAX_UI_UNIFORM_ENTRIES);
    assert_eq!(batches[1].end, 6 * (MAX_UI_UNIFORM_ENTRIES + 1));
    assert_eq!(meta.ui_uniforms[0].len(), MAX_UI_UNIFORM_ENTRIES);
    assert_eq!(meta.ui_uniforms[1].len(), 1);
}

#[test]
fn alternating_images_give_one_batch_per_contiguous_run() {
    let mut extracted = ExtractedUiNodes::new();
    // Depth keys keep the input order; images alternate 7,7,8,7.
    extracted.uinodes.push(node(0, 0, 0, 8, 8, 7));
    extracted.uinodes.push(node(10, 0, 1, 8, 8, 7));
    extracted.uinodes.push(node(20, 0, 2, 8, 8, 8));
    extracted.uinodes.push(node(30, 0, 3, 8, 8, 7));
    let mut meta = UiMeta::new();
    let batches = prepare_uinodes(&mut extracted, &mut meta);
    // Not globally grouped by image: one batch per same-image run.
    assert_eq!(batches.len(), 3);
    assert_eq!(batches[0].image, 7);
    assert_eq!(batches[0].end, 12);
    assert_eq!(batches[1].image, 8);
    assert_eq!(batches[2].image, 7);
}

#[test]
fn prepare_sorts_by_depth_before_batching() {
    let mut extracted = ExtractedUiNodes::new();
    extracted.uinodes.push(node(0, 0, 5, 8, 8, 7));
    extracted.uinodes.push(node(10, 0, 1, 8, 8, 9));
    let mut meta = UiMeta::new();
    let batches = prepare_uinodes(&mut extracted, &mut meta);
    // After sorting, image 9 (depth 1) comes first.
    assert_eq!(batches.len(), 2);
    assert_eq!(batches[0].image, 9);
    assert_eq!(batches[0].z, 1);
    assert_eq!(batches[1].image, 7);
    assert_eq!(batches[1].z, 5);
}

#[test]
fn fully_clipped_node_produces_zero_geometry() {
    // Quad spans x in [96, 104]; the clip ends at x = 90: the whole
    // quad is excluded on the x axis and must be culled, not drawn
    // degenerate.
    let mut n = node(100, 0, 0, 8, 8, 7);
    n.clip = Some(UiRect { min: v(-1000, -1000), max: v(90, 1000) });
    let mut extracted = ExtractedUiNodes::new();
    extracted.uinodes.push(n);
    let mut meta = UiMeta::new();
    let batches = prepare_uinodes(&mut extracted, &mut meta);
    assert_eq!(meta.vertices.len(), 0);
    assert_eq!(batches.len(), 0);
}

#[test]
fn partial_clip_shrinks_the_quad() {
    // Quad spans x in [96, 104]; the clip ends at x = 100.
    let mut n = node(100, 0, 0, 8, 8, 7);
    n.clip = Some(UiRect { min: v(-1000, -1000), max: v(100, 1000) });
    let mut extracted = ExtractedUiNodes::new();
    extracted.uinodes.push(n);
    let mut meta = UiMeta::new();
    let batches = prepare_uinodes(&mut extracted, &mut meta);
    assert_eq!(batches.len(), 1);
    assert_eq!(meta.vertices.len(), 6);
    for vert in &meta.vertices {
        assert!(vert.position.0 <= 100);
    }
}

#[test]
fn extract_skips_invisible_and_unloaded_nodes() {
    let loaded = ImageAssets { loaded: vec![7] };
    let visible = UiNodeInput {
        visible: true,
        size: v(8, 8),
        translation: v(0, 0),
        z: 1,
        color: white(),
        image: 7,
        clip: None,
        border: None,
        corner_radius: None,
    };
    let mut invisible = visible;
    invisible.visible = false;
    let mut not_loaded = visible;
    not_loaded.image = 9;
    let nodes = vec![visible, invisible, not_loaded];
    let mut extracted = ExtractedUiNodes::new();
    extract_uinodes(&nodes, &loaded, &mut extracted);
    assert_eq!(extracted.uinodes.len(), 1);
    assert_eq!(extracted.uinodes[0].image, 7);
    assert_eq!(extracted.uinodes[0].rect.max, v(8, 8));
}

#[test]
fn text_extraction_emits_one_record_per_glyph() {
    let glyph = |px: i64| TextGlyphInput {
        color: white(),
        image: 11,
        rect: UiRect { min: v(0, 0), max: v(4, 4) },
        atlas_size: v(64, 64),
        position: v(px, 0),
    };
    let text = TextNodeInput {
        visible: true,
        size: v(20, 10),
        translation: v(100, 50),
        z: 2,
        glyphs: Some(vec![glyph(0), glyph(5)]),
        clip: None,
    };
    let empty = TextNodeInput {
        visible: true,
        size: v(0, 0),
        translation: v(0, 0),
        z: 0,
        glyphs: Some(vec![glyph(0)]),
        clip: None,
    };
    let nodes = vec![text, empty];
    let mut extracted = ExtractedUiNodes::new();
    extract_text_uinodes(&nodes, &mut extracted);
    assert_eq!(extracted.uinodes.len(), 2);
    // Glyphs place from the node's top-left corner: center minus half size.
    assert_eq!(extracted.uinodes[0].translation, v(90, 45));
    assert_eq!(extracted.uinodes[1].translation, v(95, 45));
    assert_eq!(extracted.uinodes[0].atlas_size, Some(v(64, 64)));
}

#[test]
fn queue_evicts_dirty_images_and_enqueues_one_item_per_batch() {
    let mut extracted = ExtractedUiNodes::new();
    extracted.uinodes.push(node(0, 0, 3, 8, 8, 7));
    extracted.uinodes.push(node(10, 0, 1, 8, 8, 8));
    let mut meta = UiMeta::new();
    let batches = prepare_uinodes(&mut extracted, &mut meta);
    assert_eq!(batches.len(), 2);

    let mut bind_groups = UiImageBindGroups::new();
    bind_groups.images.push(7);
    bind_groups.images.push(8);
    let events = vec![(AssetEventKind::Modified, 8), (AssetEventKind::Created, 7)];
    let mut phase = Vec::new();
    let new_groups = queue_uinodes(&batches, &events, true, &mut bind_groups, &mut phase);
    // 8 was dirty and needed a fresh bind group; 7 stayed cached.
    assert_eq!(new_groups, vec![8]);
    assert!(bind_groups.images.contains(&7));
    assert!(bind_groups.images.contains(&8));
    assert_eq!(phase.len(), 2);
    assert_eq!(phase[0].batch_index, 0);
    assert_eq!(phase[0].sort_key, batches[0].z);
    assert_eq!(phase[1].sort_key, batches[1].z);
}

#[test]
fn queue_without_a_ready_view_enqueues_nothing() {
    let batches = Vec::new();
    let events = Vec::new();
    let mut bind_groups = UiImageBindGroups::new();
    let mut phase = Vec::new();
    let new_groups = queue_uinodes(&batches, &events, false, &mut bind_groups, &mut phase);
    assert!(new_groups.is_empty());
    assert!(phase.is_empty());
}

#[test]
fn phase_sort_orders_items_by_key() {
    let mut extracted = ExtractedUiNodes::new();
    extracted.uinodes.push(node(0, 0, 9, 8, 8, 7));
    extracted.uinodes.push(node(10, 0, 2, 8, 8, 7));
    let mut meta = UiMeta::new();
    let _ = prepare_uinodes(&mut extracted, &mut meta);
    let mut phase = vec![
        TransparentUi { batch_index: 0, sort_key: 9 },
        TransparentUi { batch_index: 1, sort_key: 2 },
    ];
    sort_phase_system(&mut phase);
    assert_eq!(phase[0].sort_key, 2);
    assert_eq!(phase[1].sort_key, 9);
}

#[test]
fn sorting_orders_nodes_ascending_by_depth() {
    let mut nodes = vec![node(0, 0, 3, 8, 8, 7), node(0, 0, 1, 8, 8, 7), node(0, 0, 2, 8, 8, 7)];
    sort_by_z(&mut nodes);
    assert_eq!(nodes[0].z, 1);
    assert_eq!(nodes[1].z, 2);
    assert_eq!(nodes[2].z, 3);
}

#[test]
fn build_ui_render_registers_the_pipeline_systems() {
    let mut app = App::new();
    app.add_sub_app(RENDER_APP, new_render_sub_app());
    build_ui_render(&mut app);
    let sub = app.sub_app(RENDER_APP);
    let extract_label = RenderStage::Extract.label();
    let mut extract_len = 0;
    for (label, stage) in &sub.schedule.stages {
        if *label == extract_label {
            match stage {
                bevy_app::schedule::Stage::Parallel(st) => extract_len = st.systems.len(),
                _ => panic!("extract stage has the wrong kind"),
            }
        }
    }
    assert_eq!(extract_len, 3);
}

#[test]
fn build_ui_render_without_a_render_sub_app_is_a_no_op() {
    let mut app = App::new();
    build_ui_render(&mut app);
    assert!(app.get_sub_app(RENDER_APP).is_err());
}

#[test]
fn an_empty_frame_prepares_into_nothing() {
    let mut extracted = ExtractedUiNodes::new();
    let mut meta = UiMeta::new();
    let batches = prepare_uinodes(&mut extracted, &mut meta);
    assert!(batches.is_empty());
    assert!(meta.vertices.is_empty());
    assert!(meta.ui_uniforms.is_empty());
}

#[test]
fn equal_depth_records_keep_their_extraction_order() {
    // Three records share one depth key; the depth sort is stable, so
    // their extraction order (and with it the batch split between the
    // two images) is preserved.
    let mut extracted = ExtractedUiNodes::new();
    extracted.uinodes.push(node(0, 0, 5, 8, 8, 7));
    extracted.uinodes.push(node(10, 0, 5, 8, 8, 7));
    extracted.uinodes.push(node(20, 0, 5, 8, 8, 9));
    let mut meta = UiMeta::new();
    let batches = prepare_uinodes(&mut extracted, &mut meta);
    assert_eq!(extracted.uinodes[0].translation, v(0, 0));
    assert_eq!(extracted.uinodes[1].translation, v(10, 0));
    assert_eq!(extracted.uinodes[2].translation, v(20, 0));
    assert_eq!(batches.len(), 2);
    assert_eq!(batches[0].image, 7);
    assert_eq!(batches[0].end, 12);
    assert_eq!(batches[1].image, 9);
}
