use slow_text_outline::batching::spawn_text_outline_shadows;
use slow_text_outline::extract::extract_2d_text_outlines;
use slow_text_outline::extract::extract_ui_text_outlines;
use slow_text_outline::extract::Text2d;
use slow_text_outline::extract::UiTextNode;
use slow_text_outline::plugin::SlowTextOutlinePlugin;
use slow_text_outline::plugin::TextOutlineMaxWidth;
use slow_text_outline::types::same_texture;
use slow_text_outline::types::AtlasRect;
use slow_text_outline::types::Batch;
use slow_text_outline::types::Glyph;
use slow_text_outline::types::Instance;
use slow_text_outline::types::Layer;
use slow_text_outline::types::OutlineSpec;
use slow_text_outline::types::TextureId;

const A: TextureId = TextureId::Index(1);
const B: TextureId = TextureId::Index(2);
const C: TextureId = TextureId::Uuid(1);

fn glyph(texture: TextureId) -> Glyph {
    Glyph { texture, rect: AtlasRect { min_x: 0, min_y: 0, max_x: 8, max_y: 12 } }
}

fn outline(width: i32, anti_aliasing: bool) -> OutlineSpec {
    OutlineSpec { width, anti_aliasing }
}

fn spawn(
    max_width: u16,
    outline: OutlineSpec,
    textures: &[TextureId],
) -> (Vec<Instance>, Vec<Batch>, Vec<Instance>) {
    let glyphs: Vec<Glyph> = textures.iter().map(|t| glyph(*t)).collect();
    let mut cache = Vec::new();
    let mut instances = Vec::new();
    let mut batches = Vec::new();
    spawn_text_outline_shadows(0, max_width, &outline, &glyphs, &mut cache, &mut instances, &mut batches);
    (instances, batches, cache)
}

/// Checks what holds of every output: the batches lie end to end over the new
/// instances, none is empty, and every instance of a batch has the batch's owner,
/// layer and texture.
fn check_batches(
    first: usize,
    instances: &[Instance],
    batches: &[Batch],
    texture_of: &dyn Fn(&Instance) -> TextureId,
) {
    let mut next = first;
    for batch in batches {
        assert_eq!(batch.start, next);
        assert!(batch.len > 0);
        for instance in &instances[batch.start..batch.start + batch.len] {
            assert_eq!(instance.owner, batch.owner);
            assert_eq!(instance.layer, batch.layer);
            assert_eq!(texture_of(instance), batch.texture);
        }
        next = batch.start + batch.len;
    }
    assert_eq!(next, instances.len());
}

#[test]
fn textures_compare_by_kind_and_bits() {
    assert!(same_texture(&glyph(A), &glyph(A)));
    assert!(!same_texture(&glyph(A), &glyph(B)));
    assert!(!same_texture(&glyph(TextureId::Index(1)), &glyph(TextureId::Uuid(1))));
    assert!(same_texture(&glyph(C), &glyph(TextureId::Uuid(1))));
}

#[test]
fn single_glyph_width_two_is_one_batch() {
    let (instances, batches, cache) = spawn(8, outline(2, false), &[A]);
    assert_eq!(instances.len(), 16);
    assert_eq!(
        batches,
        vec![Batch { owner: 0, texture: A, layer: Layer::Core, start: 0, len: 16 }]
    );
    assert!(cache.is_empty());
    assert!(instances.iter().all(|i| i.glyph == 0 && i.layer == Layer::Core));
}

#[test]
fn glyphs_of_one_texture_merge_into_one_batch() {
    let (instances, batches, _) = spawn(8, outline(1, false), &[A, A]);
    assert_eq!(instances.len(), 8);
    assert_eq!(
        batches,
        vec![Batch { owner: 0, texture: A, layer: Layer::Core, start: 0, len: 8 }]
    );
    let glyphs: Vec<usize> = instances.iter().map(|i| i.glyph).collect();
    assert_eq!(glyphs, vec![0, 0, 0, 0, 1, 1, 1, 1]);
}

#[test]
fn glyphs_of_two_textures_get_a_batch_each() {
    let (instances, batches, _) = spawn(8, outline(1, false), &[A, B]);
    assert_eq!(instances.len(), 8);
    assert_eq!(
        batches,
        vec![
            Batch { owner: 0, texture: A, layer: Layer::Core, start: 0, len: 4 },
            Batch { owner: 0, texture: B, layer: Layer::Core, start: 4, len: 4 },
        ]
    );
}

#[test]
fn glyphs_of_two_textures_get_a_batch_pair_each_with_anti_aliasing() {
    let (instances, batches, cache) = spawn(8, outline(2, true), &[A, B]);
    assert_eq!(instances.len(), 32);
    assert_eq!(
        batches,
        vec![
            Batch { owner: 0, texture: A, layer: Layer::Core, start: 0, len: 8 },
            Batch { owner: 0, texture: A, layer: Layer::Rim, start: 8, len: 8 },
            Batch { owner: 0, texture: B, layer: Layer::Core, start: 16, len: 8 },
            Batch { owner: 0, texture: B, layer: Layer::Rim, start: 24, len: 8 },
        ]
    );
    assert!(cache.is_empty());
}

#[test]
fn rim_of_a_run_follows_the_core_of_the_whole_run() {
    let (instances, batches, _) = spawn(8, outline(2, true), &[A, A, A]);
    assert_eq!(
        batches,
        vec![
            Batch { owner: 0, texture: A, layer: Layer::Core, start: 0, len: 24 },
            Batch { owner: 0, texture: A, layer: Layer::Rim, start: 24, len: 24 },
        ]
    );
    let core_glyphs: Vec<usize> = instances[..24].iter().map(|i| i.glyph).collect();
    let rim_glyphs: Vec<usize> = instances[24..].iter().map(|i| i.glyph).collect();
    let by_glyph: Vec<usize> = (0..24).map(|k| k / 8).collect();
    assert_eq!(core_glyphs, by_glyph);
    assert_eq!(rim_glyphs, by_glyph);
    assert!(instances[..24].iter().all(|i| i.layer == Layer::Core));
    assert!(instances[24..].iter().all(|i| i.layer == Layer::Rim));
}

#[test]
fn a_texture_that_returns_starts_a_new_run() {
    let (instances, batches, _) = spawn(8, outline(1, false), &[A, B, B, A]);
    assert_eq!(
        batches,
        vec![
            Batch { owner: 0, texture: A, layer: Layer::Core, start: 0, len: 4 },
            Batch { owner: 0, texture: B, layer: Layer::Core, start: 4, len: 8 },
            Batch { owner: 0, texture: A, layer: Layer::Core, start: 12, len: 4 },
        ]
    );
    assert_eq!(instances.len(), 16);
}

#[test]
fn radius_one_with_anti_aliasing_has_only_rim_batches() {
    let (instances, batches, _) = spawn(8, outline(1, true), &[A, C]);
    assert_eq!(
        batches,
        vec![
            Batch { owner: 0, texture: A, layer: Layer::Rim, start: 0, len: 4 },
            Batch { owner: 0, texture: C, layer: Layer::Rim, start: 4, len: 4 },
        ]
    );
    assert!(instances.iter().all(|i| i.layer == Layer::Rim));
}

#[test]
fn zero_width_yields_nothing() {
    for anti_aliasing in [false, true] {
        let (instances, batches, cache) = spawn(8, outline(0, anti_aliasing), &[A, B, B]);
        assert!(instances.is_empty());
        assert!(batches.is_empty());
        assert!(cache.is_empty());
        assert_eq!(cache.capacity(), 0);
    }
}

#[test]
fn negative_width_yields_nothing() {
    let (instances, batches, cache) = spawn(8, outline(-4, true), &[A, B]);
    assert!(instances.is_empty());
    assert!(batches.is_empty());
    assert!(cache.is_empty());
}

#[test]
fn zero_max_width_yields_nothing() {
    let (instances, batches, _) = spawn(0, outline(3, true), &[A, B]);
    assert!(instances.is_empty());
    assert!(batches.is_empty());
}

#[test]
fn no_glyphs_yield_nothing() {
    let (instances, batches, cache) = spawn(8, outline(3, true), &[]);
    assert!(instances.is_empty());
    assert!(batches.is_empty());
    assert!(cache.is_empty());
}

#[test]
fn width_beyond_max_width_is_clamped() {
    for anti_aliasing in [false, true] {
        let capped = spawn(2, outline(2, anti_aliasing), &[A, B]);
        for width in [3, 8, 1000, i32::MAX] {
            let wide = spawn(2, outline(width, anti_aliasing), &[A, B]);
            assert_eq!(wide.0, capped.0);
            assert_eq!(wide.1, capped.1);
        }
        assert_eq!(capped.0.len(), 32);
    }
}

#[test]
fn batches_tile_the_new_instances() {
    let textures = [A, A, B, C, C, C, A];
    for width in 0..5 {
        for anti_aliasing in [false, true] {
            let glyphs: Vec<Glyph> = textures.iter().map(|t| glyph(*t)).collect();
            let mut cache = Vec::new();
            let mut instances = Vec::new();
            let mut batches = Vec::new();
            spawn_text_outline_shadows(
                3,
                8,
                &outline(1, false),
                &glyphs[..2].to_vec(),
                &mut cache,
                &mut instances,
                &mut batches,
            );
            let first = instances.len();
            let first_batches = batches.len();
            assert_eq!(first, 8);
            spawn_text_outline_shadows(
                5,
                8,
                &outline(width, anti_aliasing),
                &glyphs,
                &mut cache,
                &mut instances,
                &mut batches,
            );
            assert!(cache.is_empty());
            assert!(instances[first..].iter().all(|i| i.owner == 5));
            assert!(batches[first_batches..].iter().all(|b| b.owner == 5));
            check_batches(first, &instances, &batches[first_batches..], &|i| {
                glyphs[i.glyph].texture
            });
        }
    }
}

#[test]
fn core_batch_comes_before_rim_batch_of_its_run() {
    let textures = [A, B, B, C];
    let (_, batches, _) = spawn(8, outline(3, true), &textures);
    assert_eq!(batches.len(), 6);
    for pair in batches.chunks(2) {
        assert_eq!(pair[0].layer, Layer::Core);
        assert_eq!(pair[1].layer, Layer::Rim);
        assert_eq!(pair[0].texture, pair[1].texture);
        assert_eq!(pair[0].start + pair[0].len, pair[1].start);
    }
}

#[test]
fn without_anti_aliasing_there_is_one_batch_per_run() {
    let textures = [A, A, B, C, C, A];
    let (instances, batches, cache) = spawn(8, outline(2, false), &textures);
    assert!(cache.is_empty());
    assert!(instances.iter().all(|i| i.layer == Layer::Core));
    let got: Vec<(TextureId, usize, usize)> =
        batches.iter().map(|b| (b.texture, b.start, b.len)).collect();
    assert_eq!(got, vec![(A, 0, 32), (B, 32, 16), (C, 48, 32), (A, 80, 16)]);
    assert!(batches.iter().all(|b| b.layer == Layer::Core));
}

#[test]
fn scratch_buffer_keeps_its_allocation() {
    let glyphs = vec![glyph(A), glyph(B)];
    let mut cache: Vec<Instance> = Vec::with_capacity(64);
    let mut instances = Vec::new();
    let mut batches = Vec::new();
    spawn_text_outline_shadows(0, 8, &outline(2, true), &glyphs, &mut cache, &mut instances, &mut batches);
    assert!(cache.is_empty());
    assert!(cache.capacity() >= 64);
}

fn ui_node(visible: bool, empty: bool, has_camera: bool, width: i32, textures: &[TextureId]) -> UiTextNode {
    UiTextNode {
        visible,
        empty,
        has_camera,
        outline: outline(width, false),
        glyphs: textures.iter().map(|t| glyph(*t)).collect(),
    }
}

#[test]
fn ui_pass_skips_nodes_that_are_not_outlined() {
    assert!(ui_node(true, false, true, 1, &[A]).is_outlined());
    assert!(!ui_node(false, false, true, 1, &[A]).is_outlined());
    assert!(!ui_node(true, true, true, 1, &[A]).is_outlined());
    assert!(!ui_node(true, false, false, 1, &[A]).is_outlined());
    assert!(!ui_node(true, false, true, 0, &[A]).is_outlined());

    let nodes = vec![
        ui_node(false, false, true, 1, &[A]),
        ui_node(true, false, true, 1, &[A, B]),
        ui_node(true, true, true, 1, &[A]),
        ui_node(true, false, false, 1, &[A]),
        ui_node(true, false, true, 0, &[A]),
        ui_node(true, false, true, 2, &[B]),
    ];
    let mut cache = vec![Instance {
        owner: 99,
        glyph: 99,
        offset_x: 0,
        offset_y: 0,
        rect: glyph(A).rect,
        layer: Layer::Rim,
    }];
    let mut instances = Vec::new();
    let mut batches = Vec::new();
    let max_width = TextOutlineMaxWidth { max_width: 8 };
    extract_ui_text_outlines(&mut cache, &max_width, &nodes, &mut instances, &mut batches);
    assert!(cache.is_empty());
    assert_eq!(
        batches,
        vec![
            Batch { owner: 1, texture: A, layer: Layer::Core, start: 0, len: 4 },
            Batch { owner: 1, texture: B, layer: Layer::Core, start: 4, len: 4 },
            Batch { owner: 5, texture: B, layer: Layer::Core, start: 8, len: 16 },
        ]
    );
    assert_eq!(instances.len(), 24);
    assert!(instances.iter().all(|i| i.owner != 99));
    check_batches(0, &instances, &batches, &|i| nodes[i.owner].glyphs[i.glyph].texture);
}

#[test]
fn ui_pass_does_not_merge_batches_across_nodes() {
    let nodes = vec![ui_node(true, false, true, 1, &[A]), ui_node(true, false, true, 1, &[A])];
    let mut cache = Vec::new();
    let mut instances = Vec::new();
    let mut batches = Vec::new();
    let max_width = TextOutlineMaxWidth { max_width: 8 };
    extract_ui_text_outlines(&mut cache, &max_width, &nodes, &mut instances, &mut batches);
    assert_eq!(
        batches,
        vec![
            Batch { owner: 0, texture: A, layer: Layer::Core, start: 0, len: 4 },
            Batch { owner: 1, texture: A, layer: Layer::Core, start: 4, len: 4 },
        ]
    );
}

#[test]
fn ui_pass_continues_the_instance_sequence() {
    let nodes = vec![ui_node(true, false, true, 9, &[A])];
    let mut cache = Vec::new();
    let mut instances = Vec::new();
    let mut batches = Vec::new();
    let max_width = TextOutlineMaxWidth { max_width: 1 };
    extract_ui_text_outlines(&mut cache, &max_width, &nodes, &mut instances, &mut batches);
    extract_ui_text_outlines(&mut cache, &max_width, &nodes, &mut instances, &mut batches);
    assert_eq!(
        batches,
        vec![
            Batch { owner: 0, texture: A, layer: Layer::Core, start: 0, len: 4 },
            Batch { owner: 0, texture: A, layer: Layer::Core, start: 4, len: 4 },
        ]
    );
    assert_eq!(instances.len(), 8);
}

fn text2d(visible: bool, width: i32, anti_aliasing: bool, textures: &[TextureId]) -> Text2d {
    Text2d {
        visible,
        outline: outline(width, anti_aliasing),
        glyphs: textures.iter().map(|t| glyph(*t)).collect(),
    }
}

#[test]
fn world_pass_skips_objects_that_are_not_outlined() {
    assert!(text2d(true, 1, false, &[A]).is_outlined());
    assert!(!text2d(false, 1, false, &[A]).is_outlined());
    assert!(!text2d(true, 0, false, &[A]).is_outlined());

    let objects = vec![
        text2d(true, 2, true, &[A, A]),
        text2d(false, 2, true, &[A]),
        text2d(true, 0, true, &[A]),
        text2d(true, 1, true, &[C]),
    ];
    let mut cache = Vec::new();
    let mut instances = Vec::new();
    let mut batches = Vec::new();
    let max_width = SlowTextOutlinePlugin::default().max_width_resource();
    extract_2d_text_outlines(&mut cache, &max_width, &objects, &mut instances, &mut batches);
    assert!(cache.is_empty());
    assert_eq!(
        batches,
        vec![
            Batch { owner: 0, texture: A, layer: Layer::Core, start: 0, len: 16 },
            Batch { owner: 0, texture: A, layer: Layer::Rim, start: 16, len: 16 },
            Batch { owner: 3, texture: C, layer: Layer::Rim, start: 32, len: 4 },
        ]
    );
    assert_eq!(instances.len(), 36);
    check_batches(0, &instances, &batches, &|i| objects[i.owner].glyphs[i.glyph].texture);
}

#[test]
fn world_pass_clears_a_stale_scratch_buffer() {
    let stale = Instance {
        owner: 7,
        glyph: 7,
        offset_x: 1,
        offset_y: 1,
        rect: glyph(A).rect,
        layer: Layer::Rim,
    };
    let mut cache = vec![stale; 3];
    let mut instances = Vec::new();
    let mut batches = Vec::new();
    let max_width = TextOutlineMaxWidth { max_width: 8 };
    extract_2d_text_outlines(&mut cache, &max_width, &Vec::new(), &mut instances, &mut batches);
    assert!(cache.is_empty());
    assert!(instances.is_empty());
    assert!(batches.is_empty());
}

#[test]
fn default_plugin_caps_the_radius_at_eight() {
    let plugin = SlowTextOutlinePlugin::default();
    assert_eq!(plugin.max_width, 8);
    assert_eq!(plugin.max_width_resource(), TextOutlineMaxWidth { max_width: 8 });
    let custom = SlowTextOutlinePlugin { max_width: 3 };
    assert_eq!(custom.max_width_resource().max_width, 3);
}

#[test]
fn batch_ranges_do_not_overlap_and_starts_grow() {
    let objects = vec![
        text2d(true, 3, true, &[A, B, B]),
        text2d(true, 1, false, &[C]),
        text2d(true, 2, true, &[A, A, C, A]),
    ];
    let mut cache = Vec::new();
    let mut instances = Vec::new();
    let mut batches = Vec::new();
    let max_width = TextOutlineMaxWidth { max_width: 2 };
    extract_2d_text_outlines(&mut cache, &max_width, &objects, &mut instances, &mut batches);
    assert_eq!(batches.len(), 11);
    for i in 0..batches.len() {
        for j in i + 1..batches.len() {
            assert!(batches[i].start < batches[j].start);
            assert!(batches[i].start + batches[i].len <= batches[j].start);
        }
    }
    let total: usize = batches.iter().map(|b| b.len).sum();
    assert_eq!(total, instances.len());
    assert_eq!(total, 3 * 16 + 4 + 4 * 16);
}

#[test]
fn default_cap_limits_the_radius_to_eight() {
    let max_width = SlowTextOutlinePlugin::default().max_width_resource();
    let objects = vec![text2d(true, 50, false, &[A])];
    let mut cache = Vec::new();
    let mut instances = Vec::new();
    let mut batches = Vec::new();
    extract_2d_text_outlines(&mut cache, &max_width, &objects, &mut instances, &mut batches);
    assert_eq!(instances.len(), 224);
    assert_eq!(
        batches,
        vec![Batch { owner: 0, texture: A, layer: Layer::Core, start: 0, len: 224 }]
    );
    assert!(instances.iter().all(|i| i.offset_x.abs() <= 8 && i.offset_y.abs() <= 8));
}
