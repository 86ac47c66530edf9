//! The radial pattern of offsets that approximates a disk.
//!
//! For a radius `r` the pattern has one column for every `x` in `-r ..= r`. Column `x`
//! reaches from row `-h` to row `h`, where `h` is the square root of `r² - x²`, rounded
//! up. The cell `(0, 0)` is left out: that is the glyph itself.

use vstd::prelude::*;
use vstd::math::abs;
use vstd::math::min;
use crate::radial::ceil_sqrt;
use crate::radial::ceil_sqrt_u32;
use crate::radial::is_ceil_sqrt;
use crate::radial::lemma_ceil_sqrt_exists;
use crate::radial::lemma_ceil_sqrt_unique;
use crate::seq_lemmas::ascending;
use crate::seq_lemmas::lemma_contains_add;
use crate::seq_lemmas::lemma_filter_all;
use crate::seq_lemmas::lemma_filter_ascending;
use crate::seq_lemmas::lemma_filter_none;
use crate::seq_lemmas::lemma_filter_split;
use crate::types::Layer;

verus! {

/// The radius that is drawn for a requested width: the width, capped at `max_width`.
pub open spec fn outline_radius(width: int, max_width: int) -> int {
    min(width, max_width)
}

/// Half the height of column `x`: its rows are `-h ..= h`.
pub open spec fn column_height(radius: int, x: int) -> int {
    ceil_sqrt(abs(radius * radius - x * x)) as int
}

/// The offsets of column `x`, lowest row first, without the center `(0, 0)`.
pub open spec fn column_offsets(radius: int, x: int) -> Seq<(int, int)> {
    let h = column_height(radius, x);
    if x == 0 {
        Seq::new((2 * h) as nat, |k: int| (0int, if k < h { k - h } else { k - h + 1 }))
    } else {
        Seq::new((2 * h + 1) as nat, |k: int| (x, k - h))
    }
}

/// The offsets of the first `columns` columns of the pattern, column `-radius` first.
pub open spec fn leading_columns(radius: int, columns: nat) -> Seq<(int, int)>
    decreases columns,
{
    if columns == 0 {
        Seq::empty()
    } else {
        leading_columns(radius, (columns - 1) as nat) + column_offsets(
            radius,
            columns - 1 - radius,
        )
    }
}

/// All offsets of the pattern in the order in which they are generated: column by
/// column from left to right, each column from its lowest row to its highest.
/// A radius below zero has no pattern.
pub open spec fn outline_offsets(radius: int) -> Seq<(int, int)> {
    if radius < 0 {
        Seq::empty()
    } else {
        leading_columns(radius, (2 * radius + 1) as nat)
    }
}

/// The layer of the instance at offset `(x, y)`: with anti-aliasing the two ends of
/// every column form the rim, everything else is core.
pub open spec fn layer_of(radius: int, anti_aliasing: bool, x: int, y: int) -> Layer {
    if anti_aliasing && abs(y) == column_height(radius, x) {
        Layer::Rim
    } else {
        Layer::Core
    }
}

/// The test "this offset lies in `layer`".
pub open spec fn in_layer(radius: int, anti_aliasing: bool, layer: Layer) -> spec_fn(
    (int, int),
) -> bool {
    |c: (int, int)| layer_of(radius, anti_aliasing, c.0, c.1) == layer
}

/// The offsets of one layer, in pattern order.
pub open spec fn layer_offsets(radius: int, anti_aliasing: bool, layer: Layer) -> Seq<
    (int, int),
> {
    outline_offsets(radius).filter(in_layer(radius, anti_aliasing, layer))
}

/// The cell `(x, y)` belongs to the pattern: its column is one of `-radius ..= radius`,
/// its row one of the column's rows, and it is not the center.
pub open spec fn in_pattern(radius: int, x: int, y: int) -> bool {
    &&& -radius <= x <= radius
    &&& -column_height(radius, x) <= y <= column_height(radius, x)
    &&& !(x == 0 && y == 0)
}

/// Offset `a` is generated before offset `b`: it lies in a column further left, or
/// lower in the same column.
pub open spec fn comes_before() -> spec_fn((int, int), (int, int)) -> bool {
    |a: (int, int), b: (int, int)| a.0 < b.0 || (a.0 == b.0 && a.1 < b.1)
}

/// The number of cells in the first `columns` columns, the center included.
pub open spec fn cells_in_columns(radius: int, columns: nat) -> int
    decreases columns,
{
    if columns == 0 {
        0
    } else {
        cells_in_columns(radius, (columns - 1) as nat) + 2 * column_height(
            radius,
            columns - 1 - radius,
        ) + 1
    }
}

/// A column inside the pattern is at most as high as the radius.
pub proof fn lemma_column_height_bounds(radius: int, x: int)
    requires
        -radius <= x <= radius,
    ensures
        0 <= column_height(radius, x) <= radius,
        is_ceil_sqrt((radius * radius - x * x) as nat, column_height(radius, x) as nat),
{
    assert(radius * radius - x * x >= 0) by (nonlinear_arith)
        requires
            -radius <= x <= radius,
    ;
    let n = (radius * radius - x * x) as nat;
    lemma_ceil_sqrt_exists(n);
    let h = ceil_sqrt(n);
    if h > radius {
        assert((h - 1) * (h - 1) >= radius * radius) by (nonlinear_arith)
            requires
                h - 1 >= radius >= 0,
        ;
        assert(radius * radius >= n) by (nonlinear_arith)
            requires
                n == radius * radius - x * x,
        ;
    }
}

/// Computes the radius that is drawn for a requested width.
pub fn clamp_radius(width: i32, max_width: u16) -> (radius: i32)
    ensures
        radius == outline_radius(width as int, max_width as int),
{
    if width <= max_width as i32 {
        width
    } else {
        max_width as i32
    }
}

/// Computes half the height of column `x`.
pub fn compute_column_height(radius: u16, x: i32) -> (h: i32)
    requires
        -radius <= x <= radius,
    ensures
        h == column_height(radius as int, x as int),
        0 <= h <= radius,
{
    let r: i64 = radius as i64;
    let c: i64 = x as i64;
    assert(0 <= r * r - c * c <= 65535 * 65535) by (nonlinear_arith)
        requires
            0 <= r <= 65535,
            -r <= c <= r,
    ;
    assert(c * c <= 65535 * 65535 && r * r <= 65535 * 65535) by (nonlinear_arith)
        requires
            0 <= r <= 65535,
            -r <= c <= r,
    ;
    let n: i64 = r * r - c * c;
    proof {
        lemma_column_height_bounds(radius as int, x as int);
    }
    let h = ceil_sqrt_u32(n as u32);
    h as i32
}

/// A radius of zero or less has no offsets, in either layer.
pub proof fn lemma_no_offsets(radius: int)
    requires
        radius <= 0,
    ensures
        outline_offsets(radius) == Seq::<(int, int)>::empty(),
        forall|anti_aliasing: bool, layer: Layer| #[trigger]
            layer_offsets(radius, anti_aliasing, layer) == Seq::<(int, int)>::empty(),
{
    if radius == 0 {
        lemma_ceil_sqrt_unique(0, 0);
        assert(abs(0int * 0int - 0int * 0int) == 0);
        assert(column_offsets(0, 0) =~= Seq::<(int, int)>::empty());
        assert(leading_columns(0, 1) =~= Seq::<(int, int)>::empty()) by {
            assert(leading_columns(0, 0) =~= Seq::<(int, int)>::empty());
        }
    }
    assert forall|anti_aliasing: bool, layer: Layer| #[trigger]
        layer_offsets(radius, anti_aliasing, layer) == Seq::<(int, int)>::empty() by {
        reveal(Seq::filter);
    }
}

/// What column `x` holds: the rows `-h ..= h` of that column, without the center.
proof fn lemma_column_contains(radius: int, x: int, c: (int, int))
    ensures
        column_offsets(radius, x).contains(c) <==> c.0 == x && -column_height(radius, x) <= c.1
            <= column_height(radius, x) && !(c.0 == 0 && c.1 == 0),
{
    let h = column_height(radius, x);
    let column = column_offsets(radius, x);
    if c.0 == x && -h <= c.1 <= h && !(c.0 == 0 && c.1 == 0) {
        let k = if x == 0 && c.1 > 0 {
            c.1 + h - 1
        } else {
            c.1 + h
        };
        assert(column[k] == c);
    }
}

/// A column lists its rows from the lowest to the highest.
proof fn lemma_column_ascending(radius: int, x: int)
    ensures
        ascending(column_offsets(radius, x), comes_before()),
{
}

/// What the first `columns` columns hold.
proof fn lemma_leading_contains(radius: int, columns: nat, c: (int, int))
    ensures
        leading_columns(radius, columns).contains(c) <==> -radius <= c.0 < columns - radius
            && -column_height(radius, c.0) <= c.1 <= column_height(radius, c.0) && !(c.0 == 0
            && c.1 == 0),
    decreases columns,
{
    if columns > 0 {
        let done = leading_columns(radius, (columns - 1) as nat);
        let column = column_offsets(radius, columns - 1 - radius);
        lemma_leading_contains(radius, (columns - 1) as nat, c);
        lemma_column_contains(radius, columns - 1 - radius, c);
        lemma_contains_add(done, column, c);
    }
}

/// The first `columns` columns are listed from left to right, each from its lowest row
/// to its highest.
proof fn lemma_leading_ascending(radius: int, columns: nat)
    ensures
        ascending(leading_columns(radius, columns), comes_before()),
    decreases columns,
{
    if columns > 0 {
        let x = columns - 1 - radius;
        let done = leading_columns(radius, (columns - 1) as nat);
        let column = column_offsets(radius, x);
        let all = done + column;
        lemma_leading_ascending(radius, (columns - 1) as nat);
        lemma_column_ascending(radius, x);
        assert forall|i: int, j: int| 0 <= i < j < all.len() implies comes_before()(
            #[trigger] all[i],
            #[trigger] all[j],
        ) by {
            if j < done.len() {
                assert(all[i] == done[i] && all[j] == done[j]);
            } else if i >= done.len() {
                assert(all[i] == column[i - done.len()] && all[j] == column[j - done.len()]);
            } else {
                assert(all[i] == done[i] && all[j] == column[j - done.len()]);
                assert(done.contains(done[i]));
                lemma_leading_contains(radius, (columns - 1) as nat, done[i]);
                assert(column.contains(column[j - done.len()]));
                lemma_column_contains(radius, x, column[j - done.len()]);
            }
        }
    }
}

/// The number of offsets in the first `columns` columns: one for every cell, less the
/// center once its column is among them.
proof fn lemma_leading_len(radius: int, columns: nat)
    requires
        radius >= 0,
    ensures
        leading_columns(radius, columns).len() == cells_in_columns(radius, columns) - (if columns
            > radius {
            1int
        } else {
            0int
        }),
    decreases columns,
{
    if columns > 0 {
        lemma_leading_len(radius, (columns - 1) as nat);
    }
}

/// The pattern of a radius holds exactly the cells of the columns `-radius ..= radius`,
/// every column reaching from row `-h` to row `h`, and leaves out only the center of
/// column zero.
pub proof fn lemma_pattern_cells(radius: int, x: int, y: int)
    requires
        radius >= 0,
    ensures
        outline_offsets(radius).contains((x, y)) <==> in_pattern(radius, x, y),
{
    lemma_leading_contains(radius, (2 * radius + 1) as nat, (x, y));
}

/// The pattern lists its offsets column by column from left to right and every column
/// from its lowest row to its highest. No offset occurs twice.
pub proof fn lemma_pattern_ascending(radius: int)
    ensures
        ascending(outline_offsets(radius), comes_before()),
        outline_offsets(radius).no_duplicates(),
{
    if radius >= 0 {
        lemma_leading_ascending(radius, (2 * radius + 1) as nat);
    }
    let pattern = outline_offsets(radius);
    assert forall|i: int, j: int| 0 <= i < pattern.len() && 0 <= j < pattern.len() && i
        != j implies pattern[i] != pattern[j] by {
        if i < j {
            assert(comes_before()(pattern[i], pattern[j]));
        } else {
            assert(comes_before()(pattern[j], pattern[i]));
        }
    }
}

/// The pattern has one offset for every cell of its columns but the center: the sum of
/// `2 * h + 1` over all columns, less one.
pub proof fn lemma_pattern_len(radius: int)
    requires
        radius >= 0,
    ensures
        outline_offsets(radius).len() == cells_in_columns(radius, (2 * radius + 1) as nat) - 1,
{
    lemma_leading_len(radius, (2 * radius + 1) as nat);
}

/// Every offset of the pattern lies in exactly one of the two layers.
pub proof fn lemma_layers_split(radius: int, anti_aliasing: bool)
    ensures
        layer_offsets(radius, anti_aliasing, Layer::Core).len() + layer_offsets(
            radius,
            anti_aliasing,
            Layer::Rim,
        ).len() == outline_offsets(radius).len(),
{
    lemma_filter_split(
        outline_offsets(radius),
        in_layer(radius, anti_aliasing, Layer::Core),
        in_layer(radius, anti_aliasing, Layer::Rim),
    );
}

/// A layer holds exactly the offsets of the pattern that belong to it, in the order of
/// the pattern.
pub proof fn lemma_layer_cells(radius: int, anti_aliasing: bool, layer: Layer, x: int, y: int)
    requires
        radius >= 0,
    ensures
        layer_offsets(radius, anti_aliasing, layer).contains((x, y)) <==> in_pattern(radius, x, y)
            && layer_of(radius, anti_aliasing, x, y) == layer,
        ascending(layer_offsets(radius, anti_aliasing, layer), comes_before()),
{
    let pattern = outline_offsets(radius);
    let keep = in_layer(radius, anti_aliasing, layer);
    let kept = pattern.filter(keep);
    lemma_pattern_cells(radius, x, y);
    lemma_pattern_ascending(radius);
    lemma_filter_ascending(pattern, keep, comes_before());
    if kept.contains((x, y)) {
        pattern.lemma_filter_contains_rev(keep, (x, y));
        let k = choose|k: int| 0 <= k < kept.len() && kept[k] == (x, y);
        pattern.lemma_filter_pred(keep, k);
    }
    if pattern.contains((x, y)) && keep((x, y)) {
        let k = choose|k: int| 0 <= k < pattern.len() && pattern[k] == (x, y);
        pattern.lemma_filter_contains(keep, k);
    }
}

/// With anti-aliasing the rim holds exactly the two ends of every column, and the core
/// everything between them.
pub proof fn lemma_rim_is_column_ends(radius: int, x: int, y: int)
    requires
        radius >= 0,
    ensures
        layer_offsets(radius, true, Layer::Rim).contains((x, y)) <==> in_pattern(radius, x, y)
            && abs(y) == column_height(radius, x),
        layer_offsets(radius, true, Layer::Core).contains((x, y)) <==> in_pattern(radius, x, y)
            && abs(y) != column_height(radius, x),
{
    lemma_layer_cells(radius, true, Layer::Rim, x, y);
    lemma_layer_cells(radius, true, Layer::Core, x, y);
}

/// Without anti-aliasing there is no rim: the core is the whole pattern.
pub proof fn lemma_no_anti_aliasing(radius: int)
    ensures
        layer_offsets(radius, false, Layer::Rim) == Seq::<(int, int)>::empty(),
        layer_offsets(radius, false, Layer::Core) == outline_offsets(radius),
{
    lemma_filter_none(outline_offsets(radius), in_layer(radius, false, Layer::Rim));
    lemma_filter_all(outline_offsets(radius), in_layer(radius, false, Layer::Core));
}

/// A width beyond the cap is drawn with the cap as its radius, like a width equal to
/// the cap.
pub proof fn lemma_width_is_clamped(width: int, max_width: int)
    requires
        width >= max_width,
    ensures
        outline_radius(width, max_width) == max_width,
        outline_radius(width, max_width) == outline_radius(max_width, max_width),
{
}

/// A pattern of radius one or more is not empty.
pub proof fn lemma_pattern_not_empty(radius: int)
    requires
        radius >= 1,
    ensures
        outline_offsets(radius).len() > 0,
{
    lemma_column_height_bounds(radius, -radius);
    lemma_pattern_cells(radius, -radius, 0);
}

} // verus!
