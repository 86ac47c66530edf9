//! Runs of glyphs and what they put into the output.
//!
//! Consecutive glyphs that share a texture form a run. A run is closed when the next
//! glyph has another texture or the stream ends. A closed run contributes the core
//! instances of all its glyphs, then the rim instances of all its glyphs, and one batch
//! for each of the two groups that is not empty.

use vstd::prelude::*;
use crate::expander::glyph_instances;
use crate::expander::lemma_glyph_instance_count;
use crate::expander::lemma_plain_glyph_has_no_rim;
use crate::pattern::cells_in_columns;
use crate::pattern::lemma_no_offsets;
use crate::pattern::lemma_pattern_not_empty;
use crate::pattern::lemma_width_is_clamped;
use crate::pattern::outline_radius;
use crate::tiling::lemma_tiles_add;
use crate::tiling::lemma_tiles_inside;
use crate::tiling::lemma_tiles_one;
use crate::tiling::tiles;
use crate::types::Batch;
use crate::types::Glyph;
use crate::types::Instance;
use crate::types::Layer;

verus! {

/// Glyph `i` is the last glyph of its run.
pub open spec fn closes_run(glyphs: Seq<Glyph>, i: int) -> bool {
    i + 1 >= glyphs.len() || glyphs[i + 1].texture != glyphs[i].texture
}

/// The index of the first glyph of the run that holds glyph `i`.
pub open spec fn run_start(glyphs: Seq<Glyph>, i: int) -> int
    decreases i,
{
    if i <= 0 {
        0
    } else if glyphs[i - 1].texture != glyphs[i].texture {
        i
    } else {
        run_start(glyphs, i - 1)
    }
}

/// The instances of `layer` that outline the glyphs `from .. to`, glyph after glyph.
#[verifier::opaque]
pub open spec fn span_instances(
    owner: usize,
    glyphs: Seq<Glyph>,
    radius: int,
    anti_aliasing: bool,
    layer: Layer,
    from: int,
    to: int,
) -> Seq<Instance>
    decreases to - from,
{
    if to <= from {
        Seq::empty()
    } else {
        span_instances(owner, glyphs, radius, anti_aliasing, layer, from, to - 1)
            + glyph_instances(
            owner,
            (to - 1) as usize,
            glyphs[to - 1],
            radius,
            anti_aliasing,
            layer,
        )
    }
}

/// The instances that the first `n` glyphs of a stream have put into the instance
/// sequence: the core instances of every glyph, and behind the last glyph of every run
/// the rim instances of the whole run.
#[verifier::opaque]
pub open spec fn emitted_instances(
    owner: usize,
    glyphs: Seq<Glyph>,
    radius: int,
    anti_aliasing: bool,
    n: int,
) -> Seq<Instance>
    decreases n,
{
    if n <= 0 {
        Seq::empty()
    } else {
        let core = emitted_instances(owner, glyphs, radius, anti_aliasing, n - 1)
            + glyph_instances(
            owner,
            (n - 1) as usize,
            glyphs[n - 1],
            radius,
            anti_aliasing,
            Layer::Core,
        );
        if closes_run(glyphs, n - 1) {
            core + span_instances(
                owner,
                glyphs,
                radius,
                anti_aliasing,
                Layer::Rim,
                run_start(glyphs, n - 1),
                n,
            )
        } else {
            core
        }
    }
}

/// The batches of the run `from .. to` when its first instance has the index `start`:
/// the core batch, if the run has core instances, then the rim batch, if it has rim
/// instances.
pub open spec fn run_batches(
    owner: usize,
    glyphs: Seq<Glyph>,
    radius: int,
    anti_aliasing: bool,
    from: int,
    to: int,
    start: int,
) -> Seq<Batch> {
    let core = span_instances(owner, glyphs, radius, anti_aliasing, Layer::Core, from, to).len();
    let rim = span_instances(owner, glyphs, radius, anti_aliasing, Layer::Rim, from, to).len();
    let texture = glyphs[to - 1].texture;
    let core_batch = if core > 0 {
        seq![Batch { owner, texture, layer: Layer::Core, start: start as usize, len: core as usize }]
    } else {
        Seq::empty()
    };
    let rim_batch = if rim > 0 {
        seq![
            Batch {
                owner,
                texture,
                layer: Layer::Rim,
                start: (start + core) as usize,
                len: rim as usize,
            },
        ]
    } else {
        Seq::empty()
    };
    core_batch + rim_batch
}

/// The batches that the first `n` glyphs of a stream have produced, when the instance
/// sequence held `base` instances before the stream.
#[verifier::opaque]
pub open spec fn emitted_batches(
    owner: usize,
    glyphs: Seq<Glyph>,
    radius: int,
    anti_aliasing: bool,
    base: int,
    n: int,
) -> Seq<Batch>
    decreases n,
{
    if n <= 0 {
        Seq::empty()
    } else {
        let before = emitted_batches(owner, glyphs, radius, anti_aliasing, base, n - 1);
        if closes_run(glyphs, n - 1) {
            let from = run_start(glyphs, n - 1);
            before + run_batches(
                owner,
                glyphs,
                radius,
                anti_aliasing,
                from,
                n,
                base + emitted_instances(owner, glyphs, radius, anti_aliasing, from).len(),
            )
        } else {
            before
        }
    }
}

/// Before the first glyph nothing is emitted and no run is open.
pub proof fn lemma_stream_start(
    owner: usize,
    glyphs: Seq<Glyph>,
    radius: int,
    anti_aliasing: bool,
    base: int,
)
    ensures
        emitted_instances(owner, glyphs, radius, anti_aliasing, 0) == Seq::<Instance>::empty(),
        emitted_batches(owner, glyphs, radius, anti_aliasing, base, 0) == Seq::<Batch>::empty(),
        forall|layer: Layer, at: int| #[trigger]
            span_instances(owner, glyphs, radius, anti_aliasing, layer, at, at) == Seq::<
                Instance,
            >::empty(),
{
    reveal(span_instances);
    reveal(emitted_instances);
    reveal(emitted_batches);
}

/// The glyphs `from .. to` are the beginning of a run that is still open: they share
/// one texture, and no run reaches across `from`.
pub open spec fn open_run(glyphs: Seq<Glyph>, from: int, to: int) -> bool {
    &&& from < to ==> run_start(glyphs, to - 1) == from && !closes_run(glyphs, to - 1)
    &&& from == to ==> to == 0 || closes_run(glyphs, to - 1)
}

/// What one more glyph adds to an open run.
pub proof fn lemma_glyph_step(
    owner: usize,
    glyphs: Seq<Glyph>,
    radius: int,
    anti_aliasing: bool,
    base: int,
    from: int,
    i: int,
)
    requires
        0 <= from <= i < glyphs.len(),
        open_run(glyphs, from, i),
        emitted_instances(owner, glyphs, radius, anti_aliasing, i) == emitted_instances(
            owner,
            glyphs,
            radius,
            anti_aliasing,
            from,
        ) + span_instances(owner, glyphs, radius, anti_aliasing, Layer::Core, from, i),
        emitted_batches(owner, glyphs, radius, anti_aliasing, base, i) == emitted_batches(
            owner,
            glyphs,
            radius,
            anti_aliasing,
            base,
            from,
        ),
    ensures
        run_start(glyphs, i) == from,
        span_instances(owner, glyphs, radius, anti_aliasing, Layer::Core, from, i + 1)
            == span_instances(owner, glyphs, radius, anti_aliasing, Layer::Core, from, i)
            + glyph_instances(owner, i as usize, glyphs[i], radius, anti_aliasing, Layer::Core),
        span_instances(owner, glyphs, radius, anti_aliasing, Layer::Rim, from, i + 1)
            == span_instances(owner, glyphs, radius, anti_aliasing, Layer::Rim, from, i)
            + glyph_instances(owner, i as usize, glyphs[i], radius, anti_aliasing, Layer::Rim),
        span_instances(owner, glyphs, radius, anti_aliasing, Layer::Core, i + 1, i + 1)
            == Seq::<Instance>::empty(),
        span_instances(owner, glyphs, radius, anti_aliasing, Layer::Rim, i + 1, i + 1)
            == Seq::<Instance>::empty(),
        !closes_run(glyphs, i) ==> open_run(glyphs, from, i + 1) && emitted_instances(
            owner,
            glyphs,
            radius,
            anti_aliasing,
            i + 1,
        ) == emitted_instances(owner, glyphs, radius, anti_aliasing, from) + span_instances(
            owner,
            glyphs,
            radius,
            anti_aliasing,
            Layer::Core,
            from,
            i + 1,
        ) && emitted_batches(owner, glyphs, radius, anti_aliasing, base, i + 1)
            == emitted_batches(owner, glyphs, radius, anti_aliasing, base, from),
        closes_run(glyphs, i) ==> open_run(glyphs, i + 1, i + 1) && emitted_instances(
            owner,
            glyphs,
            radius,
            anti_aliasing,
            i + 1,
        ) == emitted_instances(owner, glyphs, radius, anti_aliasing, from) + span_instances(
            owner,
            glyphs,
            radius,
            anti_aliasing,
            Layer::Core,
            from,
            i + 1,
        ) + span_instances(owner, glyphs, radius, anti_aliasing, Layer::Rim, from, i + 1)
            && emitted_batches(owner, glyphs, radius, anti_aliasing, base, i + 1)
            == emitted_batches(owner, glyphs, radius, anti_aliasing, base, from) + run_batches(
            owner,
            glyphs,
            radius,
            anti_aliasing,
            from,
            i + 1,
            base + emitted_instances(owner, glyphs, radius, anti_aliasing, from).len(),
        ),
{
    reveal(span_instances);
    reveal(emitted_instances);
    reveal(emitted_batches);
    let done = emitted_instances(owner, glyphs, radius, anti_aliasing, from);
    let open_core = span_instances(owner, glyphs, radius, anti_aliasing, Layer::Core, from, i);
    let core = glyph_instances(owner, i as usize, glyphs[i], radius, anti_aliasing, Layer::Core);
    assert(run_start(glyphs, i) == from);
    assert(done + open_core + core =~= done + (open_core + core));
}

/// A radius below zero outlines a glyph like the radius zero: not at all.
pub proof fn lemma_same_outline(
    owner: usize,
    index: usize,
    glyph: Glyph,
    radius: int,
    anti_aliasing: bool,
)
    ensures
        radius <= 0 ==> glyph_instances(owner, index, glyph, radius, anti_aliasing, Layer::Core)
            == glyph_instances(owner, index, glyph, 0, anti_aliasing, Layer::Core),
        radius <= 0 ==> glyph_instances(owner, index, glyph, radius, anti_aliasing, Layer::Rim)
            == glyph_instances(owner, index, glyph, 0, anti_aliasing, Layer::Rim),
{
    if radius <= 0 {
        lemma_no_offsets(radius);
        lemma_no_offsets(0);
    }
}

/// The glyph at which no run is open: `i` itself if glyph `i` starts a run, else the
/// first glyph of the run that reaches up to glyph `i`.
pub open spec fn open_start(glyphs: Seq<Glyph>, i: int) -> int {
    if i <= 0 || closes_run(glyphs, i - 1) {
        i
    } else {
        run_start(glyphs, i - 1)
    }
}

/// A run starts at or before each of its glyphs.
pub proof fn lemma_run_start_bounds(glyphs: Seq<Glyph>, i: int)
    requires
        0 <= i,
    ensures
        0 <= run_start(glyphs, i) <= i,
    decreases i,
{
    if i > 0 {
        lemma_run_start_bounds(glyphs, i - 1);
    }
}

/// A run starts at the first glyph or behind the last glyph of another run.
pub proof fn lemma_run_start_is_boundary(glyphs: Seq<Glyph>, i: int)
    requires
        0 <= i < glyphs.len(),
    ensures
        run_start(glyphs, i) == 0 || closes_run(glyphs, run_start(glyphs, i) - 1),
    decreases i,
{
    if i > 0 && glyphs[i - 1].texture == glyphs[i].texture {
        lemma_run_start_is_boundary(glyphs, i - 1);
    }
}

/// All glyphs of a run have the same texture.
pub proof fn lemma_run_shares_texture(glyphs: Seq<Glyph>, i: int, k: int)
    requires
        0 <= i,
        run_start(glyphs, i) <= k <= i,
    ensures
        glyphs[k].texture == glyphs[i].texture,
    decreases i,
{
    if k < i {
        lemma_run_shares_texture(glyphs, i - 1, k);
    }
}

/// While a run is open, the instance sequence holds everything of the closed runs and
/// the core instances of the open run, and no batch of the open run exists yet.
proof fn lemma_open_run(
    owner: usize,
    glyphs: Seq<Glyph>,
    radius: int,
    anti_aliasing: bool,
    base: int,
    i: int,
)
    requires
        0 <= i <= glyphs.len(),
    ensures
        0 <= open_start(glyphs, i) <= i,
        open_run(glyphs, open_start(glyphs, i), i),
        emitted_instances(owner, glyphs, radius, anti_aliasing, i) == emitted_instances(
            owner,
            glyphs,
            radius,
            anti_aliasing,
            open_start(glyphs, i),
        ) + span_instances(
            owner,
            glyphs,
            radius,
            anti_aliasing,
            Layer::Core,
            open_start(glyphs, i),
            i,
        ),
        emitted_batches(owner, glyphs, radius, anti_aliasing, base, i) == emitted_batches(
            owner,
            glyphs,
            radius,
            anti_aliasing,
            base,
            open_start(glyphs, i),
        ),
    decreases i,
{
    let from = open_start(glyphs, i);
    if i > 0 {
        lemma_run_start_bounds(glyphs, i - 1);
    }
    if from == i {
        lemma_stream_start(owner, glyphs, radius, anti_aliasing, base);
        assert(emitted_instances(owner, glyphs, radius, anti_aliasing, i) =~= emitted_instances(
            owner,
            glyphs,
            radius,
            anti_aliasing,
            i,
        ) + Seq::<Instance>::empty());
    } else {
        lemma_open_run(owner, glyphs, radius, anti_aliasing, base, i - 1);
        lemma_glyph_step(
            owner,
            glyphs,
            radius,
            anti_aliasing,
            base,
            open_start(glyphs, i - 1),
            i - 1,
        );
    }
}

/// How a closed run appears in the output. Behind everything of the earlier runs stand
/// the core instances of all glyphs of the run, then the rim instances of all glyphs of
/// the run; and behind the batches of the earlier runs stand the batches of the run.
/// The run begins where the run before it was closed, and its glyphs share the texture
/// of its batches.
pub proof fn lemma_run_layout(
    owner: usize,
    glyphs: Seq<Glyph>,
    radius: int,
    anti_aliasing: bool,
    base: int,
    n: int,
)
    requires
        0 < n <= glyphs.len(),
        closes_run(glyphs, n - 1),
    ensures
        0 <= run_start(glyphs, n - 1) < n,
        run_start(glyphs, n - 1) == 0 || closes_run(glyphs, run_start(glyphs, n - 1) - 1),
        forall|k: int|
            run_start(glyphs, n - 1) <= k < n ==> (#[trigger] glyphs[k]).texture == glyphs[n
                - 1].texture,
        emitted_instances(owner, glyphs, radius, anti_aliasing, n) == emitted_instances(
            owner,
            glyphs,
            radius,
            anti_aliasing,
            run_start(glyphs, n - 1),
        ) + span_instances(
            owner,
            glyphs,
            radius,
            anti_aliasing,
            Layer::Core,
            run_start(glyphs, n - 1),
            n,
        ) + span_instances(
            owner,
            glyphs,
            radius,
            anti_aliasing,
            Layer::Rim,
            run_start(glyphs, n - 1),
            n,
        ),
        emitted_batches(owner, glyphs, radius, anti_aliasing, base, n) == emitted_batches(
            owner,
            glyphs,
            radius,
            anti_aliasing,
            base,
            run_start(glyphs, n - 1),
        ) + run_batches(
            owner,
            glyphs,
            radius,
            anti_aliasing,
            run_start(glyphs, n - 1),
            n,
            base + emitted_instances(
                owner,
                glyphs,
                radius,
                anti_aliasing,
                run_start(glyphs, n - 1),
            ).len(),
        ),
{
    let from = open_start(glyphs, n - 1);
    lemma_run_start_is_boundary(glyphs, n - 1);
    lemma_open_run(owner, glyphs, radius, anti_aliasing, base, n - 1);
    lemma_glyph_step(owner, glyphs, radius, anti_aliasing, base, from, n - 1);
    assert forall|k: int| run_start(glyphs, n - 1) <= k < n implies (#[trigger] glyphs[k]).texture
        == glyphs[n - 1].texture by {
        lemma_run_shares_texture(glyphs, n - 1, k);
    }
}

/// The batches of a run, in their order: the core batch stands before the rim batch, it
/// ends where the rim batch starts, and the two lie end to end over the instances of
/// the run. A run has a batch of a layer exactly if it has instances of it.
pub proof fn lemma_run_batches_order(
    owner: usize,
    glyphs: Seq<Glyph>,
    radius: int,
    anti_aliasing: bool,
    from: int,
    to: int,
    start: int,
)
    requires
        0 <= start,
        start + span_instances(owner, glyphs, radius, anti_aliasing, Layer::Core, from, to).len()
            + span_instances(owner, glyphs, radius, anti_aliasing, Layer::Rim, from, to).len()
            <= usize::MAX,
    ensures
        ({
            let core = span_instances(
                owner,
                glyphs,
                radius,
                anti_aliasing,
                Layer::Core,
                from,
                to,
            ).len();
            let rim = span_instances(
                owner,
                glyphs,
                radius,
                anti_aliasing,
                Layer::Rim,
                from,
                to,
            ).len();
            let batches = run_batches(owner, glyphs, radius, anti_aliasing, from, to, start);
            &&& batches.len() == (if core > 0 {
                1int
            } else {
                0int
            }) + (if rim > 0 {
                1int
            } else {
                0int
            })
            &&& core > 0 ==> batches[0] == (Batch {
                owner,
                texture: glyphs[to - 1].texture,
                layer: Layer::Core,
                start: start as usize,
                len: core as usize,
            })
            &&& rim > 0 ==> batches.last() == (Batch {
                owner,
                texture: glyphs[to - 1].texture,
                layer: Layer::Rim,
                start: (start + core) as usize,
                len: rim as usize,
            })
            &&& core > 0 && rim > 0 ==> batches[0].end() == batches[1].start
            &&& tiles(batches, start, start + core + rim)
        }),
{
    let core = span_instances(owner, glyphs, radius, anti_aliasing, Layer::Core, from, to).len();
    let rim = span_instances(owner, glyphs, radius, anti_aliasing, Layer::Rim, from, to).len();
    let batches = run_batches(owner, glyphs, radius, anti_aliasing, from, to, start);
    let texture = glyphs[to - 1].texture;
    let core_batch = Batch {
        owner,
        texture,
        layer: Layer::Core,
        start: start as usize,
        len: core as usize,
    };
    let rim_batch = Batch {
        owner,
        texture,
        layer: Layer::Rim,
        start: (start + core) as usize,
        len: rim as usize,
    };
    let none = Seq::<Batch>::empty();
    if core > 0 && rim > 0 {
        lemma_tiles_one(core_batch);
        lemma_tiles_one(rim_batch);
        lemma_tiles_add(seq![core_batch], seq![rim_batch], start, start + core, start + core + rim);
        assert(batches =~= seq![core_batch] + seq![rim_batch]);
    } else if core > 0 {
        lemma_tiles_one(core_batch);
        assert(batches =~= seq![core_batch]);
    } else if rim > 0 {
        lemma_tiles_one(rim_batch);
        assert(batches =~= seq![rim_batch]);
    } else {
        assert(batches =~= none);
    }
}

/// The batches of a stream lie end to end over the instances of the stream: their
/// ranges do not overlap, their starts grow, none is empty, and together they address
/// as many instances as the stream has appended.
pub proof fn lemma_stream_tiles(
    owner: usize,
    glyphs: Seq<Glyph>,
    radius: int,
    anti_aliasing: bool,
    base: int,
    n: int,
)
    requires
        0 <= n <= glyphs.len(),
        n == 0 || closes_run(glyphs, n - 1),
        0 <= base,
        base + emitted_instances(owner, glyphs, radius, anti_aliasing, n).len() <= usize::MAX,
    ensures
        tiles(
            emitted_batches(owner, glyphs, radius, anti_aliasing, base, n),
            base,
            base + emitted_instances(owner, glyphs, radius, anti_aliasing, n).len(),
        ),
    decreases n,
{
    if n > 0 {
        let from = run_start(glyphs, n - 1);
        lemma_run_layout(owner, glyphs, radius, anti_aliasing, base, n);
        let done = emitted_instances(owner, glyphs, radius, anti_aliasing, from);
        lemma_stream_tiles(owner, glyphs, radius, anti_aliasing, base, from);
        lemma_run_batches_order(
            owner,
            glyphs,
            radius,
            anti_aliasing,
            from,
            n,
            base + done.len(),
        );
        lemma_tiles_add(
            emitted_batches(owner, glyphs, radius, anti_aliasing, base, from),
            run_batches(owner, glyphs, radius, anti_aliasing, from, n, base + done.len()),
            base,
            base + done.len(),
            base + emitted_instances(owner, glyphs, radius, anti_aliasing, n).len(),
        );
    } else {
        lemma_stream_start(owner, glyphs, radius, anti_aliasing, base);
    }
}

/// Glyphs that are not outlined have no instances.
proof fn lemma_span_of_nothing(
    owner: usize,
    glyphs: Seq<Glyph>,
    radius: int,
    anti_aliasing: bool,
    layer: Layer,
    from: int,
    to: int,
)
    requires
        radius <= 0 || (!anti_aliasing && layer == Layer::Rim),
    ensures
        span_instances(owner, glyphs, radius, anti_aliasing, layer, from, to) == Seq::<
            Instance,
        >::empty(),
    decreases to - from,
{
    reveal(span_instances);
    if to > from {
        lemma_span_of_nothing(owner, glyphs, radius, anti_aliasing, layer, from, to - 1);
        let last = glyph_instances(
            owner,
            (to - 1) as usize,
            glyphs[to - 1],
            radius,
            anti_aliasing,
            layer,
        );
        if radius <= 0 {
            lemma_no_offsets(radius);
        } else {
            lemma_plain_glyph_has_no_rim(owner, (to - 1) as usize, glyphs[to - 1], radius);
        }
        assert(last =~= Seq::<Instance>::empty());
        assert(Seq::<Instance>::empty() + last =~= Seq::<Instance>::empty());
    }
}

/// A radius of zero or less yields no instance and no batch.
pub proof fn lemma_no_radius_no_outline(
    owner: usize,
    glyphs: Seq<Glyph>,
    radius: int,
    anti_aliasing: bool,
    base: int,
    n: int,
)
    requires
        radius <= 0,
    ensures
        emitted_instances(owner, glyphs, radius, anti_aliasing, n) == Seq::<Instance>::empty(),
        emitted_batches(owner, glyphs, radius, anti_aliasing, base, n) == Seq::<Batch>::empty(),
    decreases n,
{
    reveal(emitted_instances);
    reveal(emitted_batches);
    if n > 0 {
        lemma_no_radius_no_outline(owner, glyphs, radius, anti_aliasing, base, n - 1);
        lemma_no_offsets(radius);
        let from = run_start(glyphs, n - 1);
        lemma_span_of_nothing(owner, glyphs, radius, anti_aliasing, Layer::Core, from, n);
        lemma_span_of_nothing(owner, glyphs, radius, anti_aliasing, Layer::Rim, from, n);
        let core = glyph_instances(
            owner,
            (n - 1) as usize,
            glyphs[n - 1],
            radius,
            anti_aliasing,
            Layer::Core,
        );
        assert(core =~= Seq::<Instance>::empty());
        assert(emitted_instances(owner, glyphs, radius, anti_aliasing, n) =~= Seq::<
            Instance,
        >::empty());
        assert(run_batches(
            owner,
            glyphs,
            radius,
            anti_aliasing,
            from,
            n,
            base + emitted_instances(owner, glyphs, radius, anti_aliasing, from).len(),
        ) =~= Seq::<Batch>::empty());
        assert(emitted_batches(owner, glyphs, radius, anti_aliasing, base, n) =~= Seq::<
            Batch,
        >::empty());
    }
}

/// A width of zero yields no instance and no batch, whatever the cap.
pub proof fn lemma_zero_width(
    owner: usize,
    glyphs: Seq<Glyph>,
    max_width: int,
    anti_aliasing: bool,
    base: int,
    n: int,
)
    requires
        0 <= max_width,
    ensures
        emitted_instances(owner, glyphs, outline_radius(0, max_width), anti_aliasing, n) == Seq::<
            Instance,
        >::empty(),
        emitted_batches(owner, glyphs, outline_radius(0, max_width), anti_aliasing, base, n)
            == Seq::<Batch>::empty(),
{
    lemma_no_radius_no_outline(
        owner,
        glyphs,
        outline_radius(0, max_width),
        anti_aliasing,
        base,
        n,
    );
}

/// A width beyond the cap yields what a width equal to the cap yields, and not one
/// instance more.
pub proof fn lemma_width_beyond_cap(
    owner: usize,
    glyphs: Seq<Glyph>,
    width: int,
    max_width: int,
    anti_aliasing: bool,
    base: int,
    n: int,
)
    requires
        width >= max_width,
    ensures
        emitted_instances(owner, glyphs, outline_radius(width, max_width), anti_aliasing, n)
            == emitted_instances(owner, glyphs, max_width, anti_aliasing, n),
        emitted_batches(owner, glyphs, outline_radius(width, max_width), anti_aliasing, base, n)
            == emitted_batches(owner, glyphs, max_width, anti_aliasing, base, n),
        emitted_instances(owner, glyphs, outline_radius(width, max_width), anti_aliasing, n)
            == emitted_instances(
            owner,
            glyphs,
            outline_radius(max_width, max_width),
            anti_aliasing,
            n,
        ),
{
    lemma_width_is_clamped(width, max_width);
}

/// The glyphs `from .. to` have at least one instance of a layer if one of them has.
proof fn lemma_span_not_empty(
    owner: usize,
    glyphs: Seq<Glyph>,
    radius: int,
    anti_aliasing: bool,
    layer: Layer,
    from: int,
    to: int,
)
    requires
        from < to,
        glyph_instances(owner, (to - 1) as usize, glyphs[to - 1], radius, anti_aliasing, layer).len()
            > 0,
    ensures
        span_instances(owner, glyphs, radius, anti_aliasing, layer, from, to).len() > 0,
{
    reveal(span_instances);
}

/// Without anti-aliasing nothing is routed to the rim: a run has no rim instances, and
/// if it is outlined at all it has exactly one batch, a core batch over all its
/// instances.
pub proof fn lemma_one_batch_per_run(
    owner: usize,
    glyphs: Seq<Glyph>,
    radius: int,
    from: int,
    to: int,
    start: int,
)
    requires
        radius >= 1,
        from < to,
    ensures
        span_instances(owner, glyphs, radius, false, Layer::Rim, from, to) == Seq::<
            Instance,
        >::empty(),
        run_batches(owner, glyphs, radius, false, from, to, start) == seq![
            Batch {
                owner,
                texture: glyphs[to - 1].texture,
                layer: Layer::Core,
                start: start as usize,
                len: span_instances(
                    owner,
                    glyphs,
                    radius,
                    false,
                    Layer::Core,
                    from,
                    to,
                ).len() as usize,
            },
        ],
{
    lemma_span_of_nothing(owner, glyphs, radius, false, Layer::Rim, from, to);
    lemma_plain_glyph_has_no_rim(owner, (to - 1) as usize, glyphs[to - 1], radius);
    lemma_pattern_not_empty(radius);
    lemma_span_not_empty(owner, glyphs, radius, false, Layer::Core, from, to);
    assert(run_batches(owner, glyphs, radius, false, from, to, start) =~= seq![
        Batch {
            owner,
            texture: glyphs[to - 1].texture,
            layer: Layer::Core,
            start: start as usize,
            len: span_instances(owner, glyphs, radius, false, Layer::Core, from, to).len() as usize,
        },
    ]);
}

/// Every instance that the batch addresses in `instances` carries the batch's owner and
/// layer and shows a glyph of the batch's texture.
pub open spec fn batch_matches(batch: Batch, instances: Seq<Instance>, glyphs: Seq<Glyph>) -> bool {
    forall|p: int|
        batch.start <= p < batch.end() ==> {
            &&& 0 <= p < instances.len()
            &&& (#[trigger] instances[p]).owner == batch.owner
            &&& instances[p].layer == batch.layer
            &&& 0 <= instances[p].glyph < glyphs.len()
            &&& glyphs[instances[p].glyph as int].texture == batch.texture
        }
}

/// Every instance of the glyphs `from .. to` carries the owner and the layer, and names
/// one of these glyphs together with its atlas rectangle.
pub proof fn lemma_span_instance(
    owner: usize,
    glyphs: Seq<Glyph>,
    radius: int,
    anti_aliasing: bool,
    layer: Layer,
    from: int,
    to: int,
    k: int,
)
    requires
        0 <= from,
        to <= glyphs.len() <= usize::MAX,
        0 <= k < span_instances(owner, glyphs, radius, anti_aliasing, layer, from, to).len(),
    ensures
        ({
            let instance = span_instances(owner, glyphs, radius, anti_aliasing, layer, from, to)[k];
            &&& instance.owner == owner
            &&& instance.layer == layer
            &&& from <= instance.glyph < to
            &&& instance.rect == glyphs[instance.glyph as int].rect
        }),
    decreases to - from,
{
    reveal(span_instances);
    if to > from {
        let front = span_instances(owner, glyphs, radius, anti_aliasing, layer, from, to - 1);
        if k < front.len() {
            lemma_span_instance(owner, glyphs, radius, anti_aliasing, layer, from, to - 1, k);
        }
    }
}

/// Every batch of a stream addresses instances of its own owner, layer and texture.
/// `before` is what the instance sequence held before the stream.
pub proof fn lemma_stream_batches_match(
    owner: usize,
    glyphs: Seq<Glyph>,
    radius: int,
    anti_aliasing: bool,
    before: Seq<Instance>,
    n: int,
    j: int,
)
    requires
        0 <= n <= glyphs.len() <= usize::MAX,
        n == 0 || closes_run(glyphs, n - 1),
        before.len() + emitted_instances(owner, glyphs, radius, anti_aliasing, n).len()
            <= usize::MAX,
        0 <= j < emitted_batches(
            owner,
            glyphs,
            radius,
            anti_aliasing,
            before.len() as int,
            n,
        ).len(),
    ensures
        batch_matches(
            emitted_batches(owner, glyphs, radius, anti_aliasing, before.len() as int, n)[j],
            before + emitted_instances(owner, glyphs, radius, anti_aliasing, n),
            glyphs,
        ),
    decreases n,
{
    let base = before.len() as int;
    if n <= 0 {
        lemma_stream_start(owner, glyphs, radius, anti_aliasing, base);
    } else {
        let from = run_start(glyphs, n - 1);
        lemma_run_layout(owner, glyphs, radius, anti_aliasing, base, n);
        let done = emitted_instances(owner, glyphs, radius, anti_aliasing, from);
        let core = span_instances(owner, glyphs, radius, anti_aliasing, Layer::Core, from, n);
        let rim = span_instances(owner, glyphs, radius, anti_aliasing, Layer::Rim, from, n);
        let all = before + emitted_instances(owner, glyphs, radius, anti_aliasing, n);
        let earlier = emitted_batches(owner, glyphs, radius, anti_aliasing, base, from);
        let run = run_batches(owner, glyphs, radius, anti_aliasing, from, n, base + done.len());
        let batch = (earlier + run)[j];
        assert(all =~= before + done + core + rim);
        if j < earlier.len() {
            lemma_stream_batches_match(owner, glyphs, radius, anti_aliasing, before, from, j);
            lemma_stream_tiles(owner, glyphs, radius, anti_aliasing, base, from);
            lemma_tiles_inside(earlier, base, base + done.len(), j);
            assert forall|p: int| batch.start <= p < batch.end() implies {
                &&& 0 <= p < all.len()
                &&& (#[trigger] all[p]).owner == batch.owner
                &&& all[p].layer == batch.layer
                &&& 0 <= all[p].glyph < glyphs.len()
                &&& glyphs[all[p].glyph as int].texture == batch.texture
            } by {
                assert(all[p] == (before + done)[p]);
            }
        } else {
            lemma_run_batches_order(
                owner,
                glyphs,
                radius,
                anti_aliasing,
                from,
                n,
                base + done.len(),
            );
            assert(batch == run[j - earlier.len()]);
            assert forall|p: int| batch.start <= p < batch.end() implies {
                &&& 0 <= p < all.len()
                &&& (#[trigger] all[p]).owner == batch.owner
                &&& all[p].layer == batch.layer
                &&& 0 <= all[p].glyph < glyphs.len()
                &&& glyphs[all[p].glyph as int].texture == batch.texture
            } by {
                if batch.layer == Layer::Core {
                    let k = p - base - done.len();
                    assert(all[p] == core[k]);
                    lemma_span_instance(
                        owner,
                        glyphs,
                        radius,
                        anti_aliasing,
                        Layer::Core,
                        from,
                        n,
                        k,
                    );
                } else {
                    let k = p - base - done.len() - core.len();
                    assert(all[p] == rim[k]);
                    lemma_span_instance(
                        owner,
                        glyphs,
                        radius,
                        anti_aliasing,
                        Layer::Rim,
                        from,
                        n,
                        k,
                    );
                }
                lemma_run_shares_texture(glyphs, n - 1, all[p].glyph as int);
            }
        }
    }
}

/// Every batch of a stream carries the owner of the stream.
pub proof fn lemma_stream_batch_owner(
    owner: usize,
    glyphs: Seq<Glyph>,
    radius: int,
    anti_aliasing: bool,
    base: int,
    n: int,
    j: int,
)
    requires
        0 <= j < emitted_batches(owner, glyphs, radius, anti_aliasing, base, n).len(),
    ensures
        emitted_batches(owner, glyphs, radius, anti_aliasing, base, n)[j].owner == owner,
    decreases n,
{
    reveal(emitted_batches);
    if n > 0 {
        let earlier = emitted_batches(owner, glyphs, radius, anti_aliasing, base, n - 1);
        if j < earlier.len() {
            lemma_stream_batch_owner(owner, glyphs, radius, anti_aliasing, base, n - 1, j);
        }
    }
}

/// Every glyph of a stream is outlined by as many instances as the pattern has
/// offsets. Once the runs of the first `n` glyphs are closed, all of them stand in the
/// instance sequence.
pub proof fn lemma_stream_instance_count(
    owner: usize,
    glyphs: Seq<Glyph>,
    radius: int,
    anti_aliasing: bool,
    n: int,
)
    requires
        radius >= 0,
        0 <= n <= glyphs.len(),
    ensures
        emitted_instances(owner, glyphs, radius, anti_aliasing, n).len() + span_instances(
            owner,
            glyphs,
            radius,
            anti_aliasing,
            Layer::Rim,
            open_start(glyphs, n),
            n,
        ).len() == n * (cells_in_columns(radius, (2 * radius + 1) as nat) - 1),
        n == 0 || closes_run(glyphs, n - 1) ==> emitted_instances(
            owner,
            glyphs,
            radius,
            anti_aliasing,
            n,
        ).len() == n * (cells_in_columns(radius, (2 * radius + 1) as nat) - 1),
    decreases n,
{
    let each = cells_in_columns(radius, (2 * radius + 1) as nat) - 1;
    lemma_stream_start(owner, glyphs, radius, anti_aliasing, 0);
    if n > 0 {
        let from = open_start(glyphs, n - 1);
        lemma_stream_instance_count(owner, glyphs, radius, anti_aliasing, n - 1);
        lemma_open_run(owner, glyphs, radius, anti_aliasing, 0, n - 1);
        lemma_glyph_step(owner, glyphs, radius, anti_aliasing, 0, from, n - 1);
        lemma_glyph_instance_count(owner, (n - 1) as usize, glyphs[n - 1], radius, anti_aliasing);
        assert(n * each == (n - 1) * each + each) by (nonlinear_arith);
    }
}

/// Without anti-aliasing every instance of a stream is a core instance.
pub proof fn lemma_plain_stream_is_core(
    owner: usize,
    glyphs: Seq<Glyph>,
    radius: int,
    n: int,
    k: int,
)
    requires
        0 <= n <= glyphs.len() <= usize::MAX,
        n == 0 || closes_run(glyphs, n - 1),
        0 <= k < emitted_instances(owner, glyphs, radius, false, n).len(),
    ensures
        emitted_instances(owner, glyphs, radius, false, n)[k].layer == Layer::Core,
    decreases n,
{
    if n <= 0 {
        lemma_stream_start(owner, glyphs, radius, false, 0);
    } else {
        let from = run_start(glyphs, n - 1);
        lemma_run_layout(owner, glyphs, radius, false, 0, n);
        lemma_span_of_nothing(owner, glyphs, radius, false, Layer::Rim, from, n);
        let done = emitted_instances(owner, glyphs, radius, false, from);
        if k < done.len() {
            lemma_plain_stream_is_core(owner, glyphs, radius, from, k);
        } else {
            lemma_span_instance(
                owner,
                glyphs,
                radius,
                false,
                Layer::Core,
                from,
                n,
                k - done.len(),
            );
        }
    }
}

} // verus!
