//! Grouping the instances of a glyph stream into draw batches.
//!
//! The glyphs of a text are outlined one after the other. The core instances of a glyph
//! go to the instance sequence at once; its rim instances wait in a scratch buffer
//! until the glyph's run is closed. Closing a run emits its batches.

use vstd::prelude::*;
use crate::expander::expand_glyph;
use crate::expander::glyph_instances;
use crate::pattern::clamp_radius;
use crate::pattern::outline_radius;
use crate::runs::emitted_batches;
use crate::runs::emitted_instances;
use crate::runs::lemma_glyph_step;
use crate::runs::lemma_same_outline;
use crate::runs::lemma_stream_start;
use crate::runs::lemma_stream_tiles;
use crate::runs::open_run;
use crate::runs::run_batches;
use crate::runs::span_instances;
use crate::tiling::tiles;
use crate::types::Batch;
use crate::types::Glyph;
use crate::types::Instance;
use crate::types::Layer;
use crate::types::OutlineSpec;
use crate::types::same_texture;

verus! {

/// Closes the current run: emits its core batch, moves the rim instances from the
/// scratch buffer behind the core instances and emits the rim batch.
fn close_run(
    owner: usize,
    glyph: &Glyph,
    start: usize,
    len: usize,
    aa_cache: &mut Vec<Instance>,
    instances: &mut Vec<Instance>,
    batches: &mut Vec<Batch>,
) -> (next: usize)
    requires
        start + len == old(instances)@.len(),
    ensures
        final(instances)@ == old(instances)@ + old(aa_cache)@,
        final(aa_cache)@.len() == 0,
        next == final(instances)@.len(),
        final(batches)@ == old(batches)@ + (if len > 0 {
            seq![Batch { owner, texture: glyph.texture, layer: Layer::Core, start, len }]
        } else {
            Seq::empty()
        }) + (if old(aa_cache)@.len() > 0 {
            seq![
                Batch {
                    owner,
                    texture: glyph.texture,
                    layer: Layer::Rim,
                    start: (start + len) as usize,
                    len: old(aa_cache)@.len() as usize,
                },
            ]
        } else {
            Seq::empty()
        }),
{
    let ghost batches_before = batches@;
    let ghost rim_len = aa_cache@.len();
    let mut next = start;
    proof {
        assert(instances@.len() == instances.len());
    }
    if len > 0 {
        batches.push(Batch { owner, texture: glyph.texture, layer: Layer::Core, start: next, len });
        next = next + len;
    }
    let aa_len = aa_cache.len();
    instances.append(aa_cache);
    proof {
        assert(instances@.len() == instances.len());
    }
    if aa_len > 0 {
        batches.push(
            Batch { owner, texture: glyph.texture, layer: Layer::Rim, start: next, len: aa_len },
        );
        next = next + aa_len;
    }
    assert(batches@ =~= batches_before + (if len > 0 {
        seq![Batch { owner, texture: glyph.texture, layer: Layer::Core, start, len }]
    } else {
        Seq::empty()
    }) + (if rim_len > 0 {
        seq![
            Batch {
                owner,
                texture: glyph.texture,
                layer: Layer::Rim,
                start: (start + len) as usize,
                len: rim_len as usize,
            },
        ]
    } else {
        Seq::empty()
    }));
    next
}

/// Outlines the glyphs of one text.
///
/// The radius of the outline is `outline.width`, capped at `max_width`. The instances
/// are appended to `instances` and the batches to `batches`; a batch addresses its
/// instances by their index in `instances`. `owner` is copied into every instance and
/// batch. The scratch buffer `aa_cache` must be empty on entry and is empty again on
/// return, with its allocation kept.
pub fn spawn_text_outline_shadows(
    owner: usize,
    max_width: u16,
    outline: &OutlineSpec,
    glyphs: &Vec<Glyph>,
    aa_cache: &mut Vec<Instance>,
    instances: &mut Vec<Instance>,
    batches: &mut Vec<Batch>,
)
    requires
        old(aa_cache)@.len() == 0,
    ensures
        final(instances)@ == old(instances)@ + emitted_instances(
            owner,
            glyphs@,
            outline_radius(outline.width as int, max_width as int),
            outline.anti_aliasing,
            glyphs@.len() as int,
        ),
        final(batches)@ == old(batches)@ + emitted_batches(
            owner,
            glyphs@,
            outline_radius(outline.width as int, max_width as int),
            outline.anti_aliasing,
            old(instances)@.len() as int,
            glyphs@.len() as int,
        ),
        tiles(
            emitted_batches(
                owner,
                glyphs@,
                outline_radius(outline.width as int, max_width as int),
                outline.anti_aliasing,
                old(instances)@.len() as int,
                glyphs@.len() as int,
            ),
            old(instances)@.len() as int,
            final(instances)@.len() as int,
        ),
        final(aa_cache)@.len() == 0,
{
    let clamped = clamp_radius(outline.width, max_width);
    let radius: u16 = if clamped <= 0 {
        0
    } else {
        clamped as u16
    };
    let anti_aliasing = outline.anti_aliasing;
    let ghost instances_before = instances@;
    let ghost batches_before = batches@;
    let ghost base = instances@.len() as int;
    let ghost r = clamped as int;
    let n = glyphs.len();
    let mut start = instances.len();
    let mut len: usize = 0;
    let mut i: usize = 0;
    let ghost from: int = 0;
    let ghost done = Seq::<Instance>::empty();
    let ghost done_batches = Seq::<Batch>::empty();
    proof {
        lemma_stream_start(owner, glyphs@, r, anti_aliasing, base);
        assert(aa_cache@ =~= Seq::<Instance>::empty());
        assert(instances@ =~= instances_before + done + Seq::<Instance>::empty());
        assert(batches@ =~= batches_before + done_batches);
        assert(done =~= done + Seq::<Instance>::empty());
    }
    while i < n
        invariant
            n == glyphs@.len(),
            0 <= from <= i <= n,
            r == outline_radius(outline.width as int, max_width as int),
            radius == (if r <= 0 {
                0
            } else {
                r
            }),
            anti_aliasing == outline.anti_aliasing,
            base == instances_before.len(),
            open_run(glyphs@, from, i as int),
            done == emitted_instances(owner, glyphs@, r, anti_aliasing, from),
            done_batches == emitted_batches(owner, glyphs@, r, anti_aliasing, base, from),
            emitted_instances(owner, glyphs@, r, anti_aliasing, i as int) == done + span_instances(
                owner,
                glyphs@,
                r,
                anti_aliasing,
                Layer::Core,
                from,
                i as int,
            ),
            emitted_batches(owner, glyphs@, r, anti_aliasing, base, i as int) == done_batches,
            aa_cache@ == span_instances(
                owner,
                glyphs@,
                r,
                anti_aliasing,
                Layer::Rim,
                from,
                i as int,
            ),
            instances@ == instances_before + done + span_instances(
                owner,
                glyphs@,
                r,
                anti_aliasing,
                Layer::Core,
                from,
                i as int,
            ),
            batches@ == batches_before + done_batches,
            start == base + done.len(),
            len == span_instances(
                owner,
                glyphs@,
                r,
                anti_aliasing,
                Layer::Core,
                from,
                i as int,
            ).len(),
        decreases n - i,
    {
        let glyph = &glyphs[i];
        let ghost open_core = span_instances(
            owner,
            glyphs@,
            r,
            anti_aliasing,
            Layer::Core,
            from,
            i as int,
        );
        let ghost core = glyph_instances(owner, i, *glyph, r, anti_aliasing, Layer::Core);
        proof {
            lemma_same_outline(owner, i, *glyph, r, anti_aliasing);
            lemma_glyph_step(owner, glyphs@, r, anti_aliasing, base, from, i as int);
        }
        let core_len = expand_glyph(owner, i, glyph, radius, anti_aliasing, instances, aa_cache);
        proof {
            assert(instances@ =~= instances_before + done + (open_core + core));
            assert(instances@.len() == instances.len());
        }
        len = len + core_len;
        if i + 1 >= n || !same_texture(&glyphs[i + 1], glyph) {
            let ghost run = run_batches(
                owner,
                glyphs@,
                r,
                anti_aliasing,
                from,
                i + 1,
                base + done.len(),
            );
            let ghost rim = aa_cache@;
            start = close_run(owner, glyph, start, len, aa_cache, instances, batches);
            len = 0;
            proof {
                assert(batches@ =~= batches_before + (done_batches + run));
                assert(instances@ =~= instances_before + (done + (open_core + core) + rim)
                    + Seq::<Instance>::empty());
                assert(aa_cache@ =~= Seq::<Instance>::empty());
                done = done + (open_core + core) + rim;
                done_batches = done_batches + run;
                from = i + 1;
                assert(done =~= done + Seq::<Instance>::empty());
            }
        }
        i = i + 1;
    }
    proof {
        assert(instances@ =~= instances_before + emitted_instances(
            owner,
            glyphs@,
            r,
            anti_aliasing,
            n as int,
        ));
        assert(instances@.len() == instances.len());
        lemma_stream_tiles(owner, glyphs@, r, anti_aliasing, base, n as int);
    }
}

} // verus!
