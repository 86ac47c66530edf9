//! Outline expansion of one glyph.
//!
//! Every offset of the radial pattern yields one instance of the glyph. Core instances
//! go straight to the instance sequence. Rim instances are held back in a scratch
//! buffer, so that the caller can place them behind the core instances of the whole
//! texture run.

use vstd::prelude::*;
use crate::pattern::cells_in_columns;
use crate::pattern::column_height;
use crate::pattern::column_offsets;
use crate::pattern::compute_column_height;
use crate::pattern::in_layer;
use crate::pattern::in_pattern;
use crate::pattern::layer_of;
use crate::pattern::layer_offsets;
use crate::pattern::leading_columns;
use crate::pattern::lemma_column_height_bounds;
use crate::pattern::lemma_layer_cells;
use crate::pattern::lemma_layers_split;
use crate::pattern::lemma_no_anti_aliasing;
use crate::pattern::lemma_pattern_len;
use crate::pattern::outline_offsets;
use crate::types::AtlasRect;
use crate::types::Glyph;
use crate::types::Instance;
use crate::types::Layer;

verus! {

/// The instance that is drawn at an offset.
pub open spec fn instance_at(
    owner: usize,
    glyph: usize,
    rect: AtlasRect,
    layer: Layer,
) -> spec_fn((int, int)) -> Instance {
    |c: (int, int)|
        Instance { owner, glyph, offset_x: c.0 as i32, offset_y: c.1 as i32, rect, layer }
}

/// The instances of `layer` among `offsets`, in the same order.
pub open spec fn placed(
    offsets: Seq<(int, int)>,
    owner: usize,
    glyph: usize,
    rect: AtlasRect,
    radius: int,
    anti_aliasing: bool,
    layer: Layer,
) -> Seq<Instance> {
    offsets.filter(in_layer(radius, anti_aliasing, layer)).map_values(
        instance_at(owner, glyph, rect, layer),
    )
}

/// The instances of one layer that outline one glyph, in the order of the pattern.
pub open spec fn glyph_instances(
    owner: usize,
    index: usize,
    glyph: Glyph,
    radius: int,
    anti_aliasing: bool,
    layer: Layer,
) -> Seq<Instance> {
    layer_offsets(radius, anti_aliasing, layer).map_values(
        instance_at(owner, index, glyph.rect, layer),
    )
}

/// Placing a longer list of offsets adds the instance of the last offset, if it lies in
/// the layer.
proof fn lemma_placed_push(
    offsets: Seq<(int, int)>,
    c: (int, int),
    owner: usize,
    glyph: usize,
    rect: AtlasRect,
    radius: int,
    anti_aliasing: bool,
    layer: Layer,
)
    ensures
        placed(offsets.push(c), owner, glyph, rect, radius, anti_aliasing, layer) == if layer_of(
            radius,
            anti_aliasing,
            c.0,
            c.1,
        ) == layer {
            placed(offsets, owner, glyph, rect, radius, anti_aliasing, layer).push(
                instance_at(owner, glyph, rect, layer)(c),
            )
        } else {
            placed(offsets, owner, glyph, rect, radius, anti_aliasing, layer)
        },
{
    let keep = in_layer(radius, anti_aliasing, layer);
    let at = instance_at(owner, glyph, rect, layer);
    offsets.lemma_filter_push(c, keep);
    if keep(c) {
        assert(offsets.filter(keep).push(c).map_values(at) =~= offsets.filter(keep).map_values(
            at,
        ).push(at(c)));
    }
}

/// Placing two lists of offsets one after the other places both.
proof fn lemma_placed_add(
    a: Seq<(int, int)>,
    b: Seq<(int, int)>,
    owner: usize,
    glyph: usize,
    rect: AtlasRect,
    radius: int,
    anti_aliasing: bool,
    layer: Layer,
)
    ensures
        placed(a + b, owner, glyph, rect, radius, anti_aliasing, layer) == placed(
            a,
            owner,
            glyph,
            rect,
            radius,
            anti_aliasing,
            layer,
        ) + placed(b, owner, glyph, rect, radius, anti_aliasing, layer),
{
    let keep = in_layer(radius, anti_aliasing, layer);
    let at = instance_at(owner, glyph, rect, layer);
    Seq::filter_distributes_over_add(a, b, keep);
    assert((a.filter(keep) + b.filter(keep)).map_values(at) =~= a.filter(keep).map_values(at)
        + b.filter(keep).map_values(at));
}

/// The number of offsets of column `x` that lie below row `y`.
spec fn rows_below(x: int, h: int, y: int) -> int {
    if x == 0 && y > 0 {
        y + h - 1
    } else {
        y + h
    }
}

/// Generates the instances of column `x`.
fn expand_column(
    owner: usize,
    index: usize,
    rect: AtlasRect,
    radius: u16,
    anti_aliasing: bool,
    x: i32,
    instances: &mut Vec<Instance>,
    aa_cache: &mut Vec<Instance>,
)
    requires
        -radius <= x <= radius,
    ensures
        final(instances)@ == old(instances)@ + placed(
            column_offsets(radius as int, x as int),
            owner,
            index,
            rect,
            radius as int,
            anti_aliasing,
            Layer::Core,
        ),
        final(aa_cache)@ == old(aa_cache)@ + placed(
            column_offsets(radius as int, x as int),
            owner,
            index,
            rect,
            radius as int,
            anti_aliasing,
            Layer::Rim,
        ),
{
    let h = compute_column_height(radius, x);
    let ghost column = column_offsets(radius as int, x as int);
    let ghost core_before = instances@;
    let ghost rim_before = aa_cache@;
    let mut y: i32 = -h;
    proof {
        assert(column.take(0) =~= Seq::<(int, int)>::empty());
        assert(placed(
            column.take(0),
            owner,
            index,
            rect,
            radius as int,
            anti_aliasing,
            Layer::Core,
        ) =~= Seq::<Instance>::empty()) by {
            reveal(Seq::filter);
        }
        assert(placed(
            column.take(0),
            owner,
            index,
            rect,
            radius as int,
            anti_aliasing,
            Layer::Rim,
        ) =~= Seq::<Instance>::empty()) by {
            reveal(Seq::filter);
        }
    }
    while y <= h
        invariant
            0 <= h <= radius,
            -radius <= x <= radius,
            -h <= y <= h + 1,
            h == column_height(radius as int, x as int),
            column == column_offsets(radius as int, x as int),
            instances@ == core_before + placed(
                column.take(rows_below(x as int, h as int, y as int)),
                owner,
                index,
                rect,
                radius as int,
                anti_aliasing,
                Layer::Core,
            ),
            aa_cache@ == rim_before + placed(
                column.take(rows_below(x as int, h as int, y as int)),
                owner,
                index,
                rect,
                radius as int,
                anti_aliasing,
                Layer::Rim,
            ),
        decreases h + 1 - y,
    {
        if !(x == 0 && y == 0) {
            let ghost k = rows_below(x as int, h as int, y as int);
            let ghost c = (x as int, y as int);
            proof {
                assert(column[k] == c);
                assert(column.take(k + 1) =~= column.take(k).push(c));
                lemma_placed_push(
                    column.take(k),
                    c,
                    owner,
                    index,
                    rect,
                    radius as int,
                    anti_aliasing,
                    Layer::Core,
                );
                lemma_placed_push(
                    column.take(k),
                    c,
                    owner,
                    index,
                    rect,
                    radius as int,
                    anti_aliasing,
                    Layer::Rim,
                );
            }
            let edge = if y < 0 {
                -y == h
            } else {
                y == h
            };
            if anti_aliasing && edge {
                aa_cache.push(
                    Instance {
                        owner,
                        glyph: index,
                        offset_x: x,
                        offset_y: y,
                        rect,
                        layer: Layer::Rim,
                    },
                );
            } else {
                instances.push(
                    Instance {
                        owner,
                        glyph: index,
                        offset_x: x,
                        offset_y: y,
                        rect,
                        layer: Layer::Core,
                    },
                );
            }
        }
        y = y + 1;
    }
    proof {
        assert(column.take(column.len() as int) =~= column);
    }
}

/// Generates the outline instances of one glyph.
///
/// The core instances are appended to `instances`, the rim instances to `aa_cache`,
/// both in the order of the pattern. Returns the number of core instances.
pub fn expand_glyph(
    owner: usize,
    index: usize,
    glyph: &Glyph,
    radius: u16,
    anti_aliasing: bool,
    instances: &mut Vec<Instance>,
    aa_cache: &mut Vec<Instance>,
) -> (core_len: usize)
    ensures
        final(instances)@ == old(instances)@ + glyph_instances(
            owner,
            index,
            *glyph,
            radius as int,
            anti_aliasing,
            Layer::Core,
        ),
        final(aa_cache)@ == old(aa_cache)@ + glyph_instances(
            owner,
            index,
            *glyph,
            radius as int,
            anti_aliasing,
            Layer::Rim,
        ),
        core_len == glyph_instances(
            owner,
            index,
            *glyph,
            radius as int,
            anti_aliasing,
            Layer::Core,
        ).len(),
{
    let before = instances.len();
    let ghost core_before = instances@;
    let ghost rim_before = aa_cache@;
    let r: i32 = radius as i32;
    let mut x: i32 = -r;
    proof {
        assert(placed(
            leading_columns(r as int, 0),
            owner,
            index,
            glyph.rect,
            r as int,
            anti_aliasing,
            Layer::Core,
        ) =~= Seq::<Instance>::empty()) by {
            reveal(Seq::filter);
        }
        assert(placed(
            leading_columns(r as int, 0),
            owner,
            index,
            glyph.rect,
            r as int,
            anti_aliasing,
            Layer::Rim,
        ) =~= Seq::<Instance>::empty()) by {
            reveal(Seq::filter);
        }
    }
    while x <= r
        invariant
            r == radius,
            -r <= x <= r + 1,
            instances@ == core_before + placed(
                leading_columns(r as int, (x + r) as nat),
                owner,
                index,
                glyph.rect,
                r as int,
                anti_aliasing,
                Layer::Core,
            ),
            aa_cache@ == rim_before + placed(
                leading_columns(r as int, (x + r) as nat),
                owner,
                index,
                glyph.rect,
                r as int,
                anti_aliasing,
                Layer::Rim,
            ),
        decreases r + 1 - x,
    {
        proof {
            let done = leading_columns(r as int, (x + r) as nat);
            let column = column_offsets(r as int, x as int);
            assert(leading_columns(r as int, (x + 1 + r) as nat) == done + column);
            lemma_placed_add(
                done,
                column,
                owner,
                index,
                glyph.rect,
                r as int,
                anti_aliasing,
                Layer::Core,
            );
            lemma_placed_add(
                done,
                column,
                owner,
                index,
                glyph.rect,
                r as int,
                anti_aliasing,
                Layer::Rim,
            );
        }
        expand_column(owner, index, glyph.rect, radius, anti_aliasing, x, instances, aa_cache);
        x = x + 1;
    }
    instances.len() - before
}

/// Every instance of a glyph's layer carries the glyph's owner, index and rectangle and
/// the layer, and sits at the offset of the layer that has its place in the sequence.
/// That offset belongs to the pattern and to the layer.
pub proof fn lemma_glyph_instance(
    owner: usize,
    index: usize,
    glyph: Glyph,
    radius: int,
    anti_aliasing: bool,
    layer: Layer,
    k: int,
)
    requires
        0 <= radius <= i32::MAX,
        0 <= k < glyph_instances(owner, index, glyph, radius, anti_aliasing, layer).len(),
    ensures
        ({
            let instance = glyph_instances(owner, index, glyph, radius, anti_aliasing, layer)[k];
            &&& instance.owner == owner
            &&& instance.glyph == index
            &&& instance.rect == glyph.rect
            &&& instance.layer == layer
            &&& layer_offsets(radius, anti_aliasing, layer)[k] == (
                instance.offset_x as int,
                instance.offset_y as int,
            )
            &&& in_pattern(radius, instance.offset_x as int, instance.offset_y as int)
            &&& layer_of(radius, anti_aliasing, instance.offset_x as int, instance.offset_y as int)
                == layer
        }),
{
    let offsets = layer_offsets(radius, anti_aliasing, layer);
    let c = offsets[k];
    assert(offsets.contains(c));
    lemma_layer_cells(radius, anti_aliasing, layer, c.0, c.1);
    lemma_column_height_bounds(radius, c.0);
}

/// The two layers of a glyph hold one instance for every cell of the pattern's columns
/// but the center: the sum of `2 * h + 1` over all columns, less one.
pub proof fn lemma_glyph_instance_count(
    owner: usize,
    index: usize,
    glyph: Glyph,
    radius: int,
    anti_aliasing: bool,
)
    requires
        radius >= 0,
    ensures
        glyph_instances(owner, index, glyph, radius, anti_aliasing, Layer::Core).len()
            + glyph_instances(owner, index, glyph, radius, anti_aliasing, Layer::Rim).len()
            == cells_in_columns(radius, (2 * radius + 1) as nat) - 1,
{
    lemma_layers_split(radius, anti_aliasing);
    lemma_pattern_len(radius);
}

/// Without anti-aliasing a glyph has no rim instances: every offset of the pattern
/// yields a core instance.
pub proof fn lemma_plain_glyph_has_no_rim(owner: usize, index: usize, glyph: Glyph, radius: int)
    ensures
        glyph_instances(owner, index, glyph, radius, false, Layer::Rim) == Seq::<
            Instance,
        >::empty(),
        glyph_instances(owner, index, glyph, radius, false, Layer::Core).len()
            == outline_offsets(radius).len(),
{
    lemma_no_anti_aliasing(radius);
    assert(glyph_instances(owner, index, glyph, radius, false, Layer::Rim) =~= Seq::<
        Instance,
    >::empty());
}

} // verus!
