//! Extraction passes over all texts of a frame.
//!
//! A pass visits the texts in order. Every text that takes part is handed to
//! [`spawn_text_outline_shadows`]; all texts share one instance sequence, one batch
//! sequence and one scratch buffer. A text is the owner of its instances and batches
//! under its index in the list.

use vstd::prelude::*;
use crate::batching::spawn_text_outline_shadows;
use crate::pattern::outline_radius;
use crate::plugin::TextOutlineMaxWidth;
use crate::runs::batch_matches;
use crate::runs::emitted_batches;
use crate::runs::emitted_instances;
use crate::runs::lemma_no_radius_no_outline;
use crate::runs::lemma_stream_batch_owner;
use crate::runs::lemma_stream_batches_match;
use crate::runs::lemma_stream_tiles;
use crate::tiling::lemma_tiles_add;
use crate::tiling::lemma_tiles_ordered;
use crate::tiling::lemma_tiles_total;
use crate::tiling::tiles;
use crate::tiling::total_len;
use crate::types::Batch;
use crate::types::Glyph;
use crate::types::Instance;
use crate::types::OutlineSpec;

verus! {

/// The mathematical view of a text: what a pass reads of it.
pub struct Source {
    /// Whether the text takes part in the pass.
    pub outlined: bool,
    pub outline: OutlineSpec,
    pub glyphs: Seq<Glyph>,
}

/// A text node of the user interface.
pub struct UiTextNode {
    /// Whether the node is visible, its ancestors considered.
    pub visible: bool,
    /// Whether the node's box has no area.
    pub empty: bool,
    /// Whether the node's target camera is known to the renderer.
    pub has_camera: bool,
    pub outline: OutlineSpec,
    pub glyphs: Vec<Glyph>,
}

/// A text object in the two-dimensional world.
pub struct Text2d {
    /// Whether the object is visible in some view.
    pub visible: bool,
    pub outline: OutlineSpec,
    pub glyphs: Vec<Glyph>,
}

impl UiTextNode {
    /// A node is outlined if it is visible, has an area, asks for an outline and has a
    /// camera to be drawn to.
    pub open spec fn outlined(&self) -> bool {
        self.visible && !self.empty && self.outline.width != 0 && self.has_camera
    }

    /// Tells whether the pass outlines this node.
    pub fn is_outlined(&self) -> (outlined: bool)
        ensures
            outlined == self.outlined(),
    {
        self.visible && !self.empty && self.outline.width != 0 && self.has_camera
    }
}

impl View for UiTextNode {
    type V = Source;

    open spec fn view(&self) -> Source {
        Source { outlined: self.outlined(), outline: self.outline, glyphs: self.glyphs@ }
    }
}

impl Text2d {
    /// An object is outlined if it is visible and asks for an outline.
    pub open spec fn outlined(&self) -> bool {
        self.visible && self.outline.width != 0
    }

    /// Tells whether the pass outlines this object.
    pub fn is_outlined(&self) -> (outlined: bool)
        ensures
            outlined == self.outlined(),
    {
        self.visible && self.outline.width != 0
    }
}

impl View for Text2d {
    type V = Source;

    open spec fn view(&self) -> Source {
        Source { outlined: self.outlined(), outline: self.outline, glyphs: self.glyphs@ }
    }
}

/// What the nodes of a pass over the user interface look like to the pass.
pub open spec fn ui_sources(nodes: Seq<UiTextNode>) -> Seq<Source> {
    nodes.map_values(|node: UiTextNode| node@)
}

/// What the objects of a pass over the world look like to the pass.
pub open spec fn world_sources(objects: Seq<Text2d>) -> Seq<Source> {
    objects.map_values(|object: Text2d| object@)
}

/// The instances that text `k` of a pass contributes.
pub open spec fn source_instances(sources: Seq<Source>, max_width: int, k: int) -> Seq<
    Instance,
> {
    if sources[k].outlined {
        emitted_instances(
            k as usize,
            sources[k].glyphs,
            outline_radius(sources[k].outline.width as int, max_width),
            sources[k].outline.anti_aliasing,
            sources[k].glyphs.len() as int,
        )
    } else {
        Seq::empty()
    }
}

/// The instances of the first `n` texts of a pass.
pub open spec fn pass_instances(sources: Seq<Source>, max_width: int, n: int) -> Seq<Instance>
    decreases n,
{
    if n <= 0 {
        Seq::empty()
    } else {
        pass_instances(sources, max_width, n - 1) + source_instances(sources, max_width, n - 1)
    }
}

/// The batches that text `k` of a pass contributes, when the instance sequence held
/// `base` instances before the pass.
pub open spec fn source_batches(sources: Seq<Source>, max_width: int, base: int, k: int) -> Seq<
    Batch,
> {
    if sources[k].outlined {
        emitted_batches(
            k as usize,
            sources[k].glyphs,
            outline_radius(sources[k].outline.width as int, max_width),
            sources[k].outline.anti_aliasing,
            base + pass_instances(sources, max_width, k).len(),
            sources[k].glyphs.len() as int,
        )
    } else {
        Seq::empty()
    }
}

/// The batches of the first `n` texts of a pass.
pub open spec fn pass_batches(sources: Seq<Source>, max_width: int, base: int, n: int) -> Seq<
    Batch,
>
    decreases n,
{
    if n <= 0 {
        Seq::empty()
    } else {
        pass_batches(sources, max_width, base, n - 1) + source_batches(
            sources,
            max_width,
            base,
            n - 1,
        )
    }
}

/// Outlines the text nodes of the user interface.
///
/// The scratch buffer is cleared first. Nodes that are invisible, have no area, ask
/// for no outline or have no camera contribute nothing.
pub fn extract_ui_text_outlines(
    aa_glyph_cache: &mut Vec<Instance>,
    max_width: &TextOutlineMaxWidth,
    nodes: &Vec<UiTextNode>,
    instances: &mut Vec<Instance>,
    batches: &mut Vec<Batch>,
)
    ensures
        final(instances)@ == old(instances)@ + pass_instances(
            ui_sources(nodes@),
            max_width.max_width as int,
            nodes@.len() as int,
        ),
        final(batches)@ == old(batches)@ + pass_batches(
            ui_sources(nodes@),
            max_width.max_width as int,
            old(instances)@.len() as int,
            nodes@.len() as int,
        ),
        tiles(
            pass_batches(
                ui_sources(nodes@),
                max_width.max_width as int,
                old(instances)@.len() as int,
                nodes@.len() as int,
            ),
            old(instances)@.len() as int,
            final(instances)@.len() as int,
        ),
        final(aa_glyph_cache)@.len() == 0,
{
    aa_glyph_cache.clear();
    let ghost sources = ui_sources(nodes@);
    let ghost instances_before = instances@;
    let ghost batches_before = batches@;
    let ghost base = instances@.len() as int;
    let ghost cap = max_width.max_width as int;
    let n = nodes.len();
    let mut k: usize = 0;
    proof {
        assert(instances@ =~= instances_before + pass_instances(sources, cap, 0));
        assert(batches@ =~= batches_before + pass_batches(sources, cap, base, 0));
    }
    while k < n
        invariant
            n == nodes@.len(),
            k <= n,
            sources == ui_sources(nodes@),
            cap == max_width.max_width,
            base == instances_before.len(),
            aa_glyph_cache@.len() == 0,
            instances@ == instances_before + pass_instances(sources, cap, k as int),
            batches@ == batches_before + pass_batches(sources, cap, base, k as int),
        decreases n - k,
    {
        let node = &nodes[k];
        let ghost added = source_instances(sources, cap, k as int);
        let ghost added_batches = source_batches(sources, cap, base, k as int);
        let ghost done = pass_instances(sources, cap, k as int);
        let ghost done_batches = pass_batches(sources, cap, base, k as int);
        assert(sources[k as int] == node@);
        if node.is_outlined() {
            spawn_text_outline_shadows(
                k,
                max_width.max_width,
                &node.outline,
                &node.glyphs,
                aa_glyph_cache,
                instances,
                batches,
            );
        }
        proof {
            assert(instances@ =~= instances_before + (done + added));
            assert(batches@ =~= batches_before + (done_batches + added_batches));
        }
        k = k + 1;
    }
    proof {
        assert(instances@.len() == instances.len());
        lemma_pass_tiles(sources, cap, base, n as int);
    }
}

/// Outlines the text objects of the two-dimensional world.
///
/// The scratch buffer is cleared first. Objects that are invisible or ask for no
/// outline contribute nothing.
pub fn extract_2d_text_outlines(
    aa_slice_cache: &mut Vec<Instance>,
    max_width: &TextOutlineMaxWidth,
    objects: &Vec<Text2d>,
    instances: &mut Vec<Instance>,
    batches: &mut Vec<Batch>,
)
    ensures
        final(instances)@ == old(instances)@ + pass_instances(
            world_sources(objects@),
            max_width.max_width as int,
            objects@.len() as int,
        ),
        final(batches)@ == old(batches)@ + pass_batches(
            world_sources(objects@),
            max_width.max_width as int,
            old(instances)@.len() as int,
            objects@.len() as int,
        ),
        tiles(
            pass_batches(
                world_sources(objects@),
                max_width.max_width as int,
                old(instances)@.len() as int,
                objects@.len() as int,
            ),
            old(instances)@.len() as int,
            final(instances)@.len() as int,
        ),
        final(aa_slice_cache)@.len() == 0,
{
    aa_slice_cache.clear();
    let ghost sources = world_sources(objects@);
    let ghost instances_before = instances@;
    let ghost batches_before = batches@;
    let ghost base = instances@.len() as int;
    let ghost cap = max_width.max_width as int;
    let n = objects.len();
    let mut k: usize = 0;
    proof {
        assert(instances@ =~= instances_before + pass_instances(sources, cap, 0));
        assert(batches@ =~= batches_before + pass_batches(sources, cap, base, 0));
    }
    while k < n
        invariant
            n == objects@.len(),
            k <= n,
            sources == world_sources(objects@),
            cap == max_width.max_width,
            base == instances_before.len(),
            aa_slice_cache@.len() == 0,
            instances@ == instances_before + pass_instances(sources, cap, k as int),
            batches@ == batches_before + pass_batches(sources, cap, base, k as int),
        decreases n - k,
    {
        let object = &objects[k];
        let ghost added = source_instances(sources, cap, k as int);
        let ghost added_batches = source_batches(sources, cap, base, k as int);
        let ghost done = pass_instances(sources, cap, k as int);
        let ghost done_batches = pass_batches(sources, cap, base, k as int);
        assert(sources[k as int] == object@);
        if object.is_outlined() {
            spawn_text_outline_shadows(
                k,
                max_width.max_width,
                &object.outline,
                &object.glyphs,
                aa_slice_cache,
                instances,
                batches,
            );
        }
        proof {
            assert(instances@ =~= instances_before + (done + added));
            assert(batches@ =~= batches_before + (done_batches + added_batches));
        }
        k = k + 1;
    }
    proof {
        assert(instances@.len() == instances.len());
        lemma_pass_tiles(sources, cap, base, n as int);
    }
}

/// The batches of a pass lie end to end over the instances of the pass: their ranges
/// do not overlap, their starts grow, none is empty, and together they address as many
/// instances as the pass has appended.
pub proof fn lemma_pass_tiles(sources: Seq<Source>, max_width: int, base: int, n: int)
    requires
        0 <= n <= sources.len(),
        0 <= base,
        base + pass_instances(sources, max_width, n).len() <= usize::MAX,
    ensures
        tiles(
            pass_batches(sources, max_width, base, n),
            base,
            base + pass_instances(sources, max_width, n).len(),
        ),
    decreases n,
{
    if n > 0 {
        let source = sources[n - 1];
        let mid = base + pass_instances(sources, max_width, n - 1).len();
        lemma_pass_tiles(sources, max_width, base, n - 1);
        if source.outlined {
            lemma_stream_tiles(
                (n - 1) as usize,
                source.glyphs,
                outline_radius(source.outline.width as int, max_width),
                source.outline.anti_aliasing,
                mid,
                source.glyphs.len() as int,
            );
        }
        lemma_tiles_add(
            pass_batches(sources, max_width, base, n - 1),
            source_batches(sources, max_width, base, n - 1),
            base,
            mid,
            base + pass_instances(sources, max_width, n).len(),
        );
    }
}

/// A text that does not take part, or that asks for an outline of width zero,
/// contributes no instance and no batch.
pub proof fn lemma_source_without_outline(
    sources: Seq<Source>,
    max_width: int,
    base: int,
    k: int,
)
    requires
        0 <= max_width,
        !sources[k].outlined || sources[k].outline.width == 0,
    ensures
        source_instances(sources, max_width, k) == Seq::<Instance>::empty(),
        source_batches(sources, max_width, base, k) == Seq::<Batch>::empty(),
{
    if sources[k].outlined {
        lemma_no_radius_no_outline(
            k as usize,
            sources[k].glyphs,
            outline_radius(sources[k].outline.width as int, max_width),
            sources[k].outline.anti_aliasing,
            base + pass_instances(sources, max_width, k).len(),
            sources[k].glyphs.len() as int,
        );
    }
}

/// Every batch of a pass belongs to a text that takes part, and addresses instances of
/// that text, of its own layer and of its own texture. `before` is what the instance
/// sequence held before the pass.
pub proof fn lemma_pass_batches_match(
    sources: Seq<Source>,
    max_width: int,
    before: Seq<Instance>,
    n: int,
    j: int,
)
    requires
        0 <= n <= sources.len() <= usize::MAX,
        forall|k: int| 0 <= k < n ==> (#[trigger] sources[k]).glyphs.len() <= usize::MAX,
        before.len() + pass_instances(sources, max_width, n).len() <= usize::MAX,
        0 <= j < pass_batches(sources, max_width, before.len() as int, n).len(),
    ensures
        ({
            let batch = pass_batches(sources, max_width, before.len() as int, n)[j];
            &&& batch.owner < n
            &&& sources[batch.owner as int].outlined
            &&& batch_matches(
                batch,
                before + pass_instances(sources, max_width, n),
                sources[batch.owner as int].glyphs,
            )
        }),
    decreases n,
{
    let base = before.len() as int;
    if n > 0 {
        let source = sources[n - 1];
        let earlier = pass_batches(sources, max_width, base, n - 1);
        let done = pass_instances(sources, max_width, n - 1);
        let added = source_instances(sources, max_width, n - 1);
        let all = before + pass_instances(sources, max_width, n);
        let batch = pass_batches(sources, max_width, base, n)[j];
        assert(all =~= (before + done) + added);
        if j < earlier.len() {
            lemma_pass_batches_match(sources, max_width, before, n - 1, j);
            assert(batch == earlier[j]);
            let glyphs = sources[batch.owner as int].glyphs;
            assert forall|p: int| batch.start <= p < batch.end() implies {
                &&& 0 <= p < all.len()
                &&& (#[trigger] all[p]).owner == batch.owner
                &&& all[p].layer == batch.layer
                &&& 0 <= all[p].glyph < glyphs.len()
                &&& glyphs[all[p].glyph as int].texture == batch.texture
            } by {
                assert(all[p] == (before + done)[p]);
            }
        } else {
            let radius = outline_radius(source.outline.width as int, max_width);
            assert(batch == source_batches(sources, max_width, base, n - 1)[j - earlier.len()]);
            lemma_stream_batch_owner(
                (n - 1) as usize,
                source.glyphs,
                radius,
                source.outline.anti_aliasing,
                base + done.len(),
                source.glyphs.len() as int,
                j - earlier.len(),
            );
            lemma_stream_batches_match(
                (n - 1) as usize,
                source.glyphs,
                radius,
                source.outline.anti_aliasing,
                before + done,
                source.glyphs.len() as int,
                j - earlier.len(),
            );
        }
    }
}

/// The ranges of the batches of a pass do not overlap, and their starts grow with the
/// order of the batches: an earlier batch ends before a later one starts. Together the
/// batches are as long as the pass has appended instances.
pub proof fn lemma_pass_ranges(sources: Seq<Source>, max_width: int, base: int, n: int)
    requires
        0 <= n <= sources.len(),
        0 <= base,
        base + pass_instances(sources, max_width, n).len() <= usize::MAX,
    ensures
        forall|i: int, j: int|
            0 <= i < j < pass_batches(sources, max_width, base, n).len() ==> {
                let earlier = #[trigger] pass_batches(sources, max_width, base, n)[i];
                let later = #[trigger] pass_batches(sources, max_width, base, n)[j];
                &&& earlier.start < later.start
                &&& earlier.end() <= later.start
            },
        total_len(pass_batches(sources, max_width, base, n)) == pass_instances(
            sources,
            max_width,
            n,
        ).len(),
{
    let batches = pass_batches(sources, max_width, base, n);
    let end = base + pass_instances(sources, max_width, n).len();
    lemma_pass_tiles(sources, max_width, base, n);
    lemma_tiles_total(batches, base, end);
    assert forall|i: int, j: int| 0 <= i < j < batches.len() implies {
        let earlier = #[trigger] batches[i];
        let later = #[trigger] batches[j];
        &&& earlier.start < later.start
        &&& earlier.end() <= later.start
    } by {
        lemma_tiles_ordered(batches, base, end, i, j);
    }
}

} // verus!
