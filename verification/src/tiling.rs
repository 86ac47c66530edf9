//! Batches that lie end to end.

use vstd::prelude::*;
use crate::types::Batch;

verus! {

/// The batches cover the instances `from .. to` without gap or overlap, in order: the
/// first batch starts at `from`, every other batch starts where the batch before it
/// ends, the last batch ends at `to`, and no batch is empty.
pub open spec fn tiles(batches: Seq<Batch>, from: int, to: int) -> bool
    decreases batches.len(),
{
    if batches.len() == 0 {
        from == to
    } else {
        let last = batches.last();
        &&& last.len > 0
        &&& last.end() == to
        &&& from <= last.start
        &&& tiles(batches.drop_last(), from, last.start as int)
    }
}

/// The number of instances that the batches address together.
pub open spec fn total_len(batches: Seq<Batch>) -> int
    decreases batches.len(),
{
    if batches.len() == 0 {
        0
    } else {
        total_len(batches.drop_last()) + batches.last().len
    }
}

/// One batch that is not empty tiles its own range.
pub proof fn lemma_tiles_one(batch: Batch)
    requires
        batch.len > 0,
    ensures
        tiles(seq![batch], batch.start as int, batch.end()),
{
    let one = seq![batch];
    assert(one.last() == batch);
    assert(one.drop_last() =~= Seq::<Batch>::empty());
    assert(tiles(one.drop_last(), batch.start as int, batch.start as int));
}

/// Batches that tile a range and batches that tile the range behind it tile both
/// ranges together.
pub proof fn lemma_tiles_add(a: Seq<Batch>, b: Seq<Batch>, from: int, mid: int, to: int)
    requires
        tiles(a, from, mid),
        tiles(b, mid, to),
    ensures
        tiles(a + b, from, to),
    decreases b.len(),
{
    if b.len() == 0 {
        assert(a + b =~= a);
    } else {
        let last = b.last();
        lemma_tiles_add(a, b.drop_last(), from, mid, last.start as int);
        lemma_tiles_total(a, from, mid);
        lemma_tiles_total(b.drop_last(), mid, last.start as int);
        assert((a + b).last() == last);
        assert((a + b).drop_last() =~= a + b.drop_last());
    }
}

/// Batches that tile a range address as many instances as the range holds.
pub proof fn lemma_tiles_total(batches: Seq<Batch>, from: int, to: int)
    requires
        tiles(batches, from, to),
    ensures
        total_len(batches) == to - from,
        from <= to,
    decreases batches.len(),
{
    if batches.len() > 0 {
        lemma_tiles_total(batches.drop_last(), from, batches.last().start as int);
    }
}

/// Of batches that tile a range each one lies inside the range, and an earlier batch
/// ends before a later batch starts: the ranges do not overlap and their starts grow.
pub proof fn lemma_tiles_ordered(batches: Seq<Batch>, from: int, to: int, i: int, j: int)
    requires
        tiles(batches, from, to),
        0 <= i < j < batches.len(),
    ensures
        from <= batches[i].start,
        batches[i].start < batches[i].end(),
        batches[i].end() <= batches[j].start,
        batches[j].start < batches[j].end(),
        batches[j].end() <= to,
    decreases batches.len(),
{
    let front = batches.drop_last();
    let last = batches.last();
    if j == batches.len() - 1 {
        lemma_tiles_inside(front, from, last.start as int, i);
        assert(front[i] == batches[i]);
    } else {
        lemma_tiles_ordered(front, from, last.start as int, i, j);
        assert(front[i] == batches[i] && front[j] == batches[j]);
    }
}

/// Of batches that tile a range each one lies inside the range and is not empty.
pub proof fn lemma_tiles_inside(batches: Seq<Batch>, from: int, to: int, i: int)
    requires
        tiles(batches, from, to),
        0 <= i < batches.len(),
    ensures
        from <= batches[i].start,
        batches[i].len > 0,
        batches[i].end() <= to,
    decreases batches.len(),
{
    let front = batches.drop_last();
    let last = batches.last();
    if i < batches.len() - 1 {
        lemma_tiles_inside(front, from, last.start as int, i);
        assert(front[i] == batches[i]);
    } else {
        lemma_tiles_total(front, from, last.start as int);
    }
}

} // verus!
