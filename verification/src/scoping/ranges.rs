//! From byte ranges to scopes: the ranges are put in order, overlapping and
//! empty ones are discarded, and the gaps between them go out of scope.

use super::model::{all_filled, joined, lemma_joined_add, lemma_joined_one, Part};
use super::{ro_parts, ROScopes, Scope};
use crate::text::{
    byte_len, bytes_of, fits, is_boundary, lemma_slice_empty, lemma_slices_join,
    lemma_whole_slice, slice, slice_of,
};
use std::ops::Range;
use vstd::prelude::*;
use vstd::relations::{sorted_by, total_ordering};
use vstd::seq_lib::lemma_sorted_unique;

verus! {

/// The order in which ranges are taken: by start, and of two that start
/// together the longer one first.
pub open spec fn range_leq(a: Range<usize>, b: Range<usize>) -> bool {
    a.start < b.start || (a.start == b.start && a.end >= b.end)
}

/// [`range_leq`] as a relation.
pub open spec fn range_order() -> spec_fn(Range<usize>, Range<usize>) -> bool {
    |a: Range<usize>, b: Range<usize>| range_leq(a, b)
}

/// `ranges` in the order in which they are taken.
pub open spec fn ordered(ranges: Seq<Range<usize>>) -> Seq<Range<usize>> {
    ranges.sort_by(range_order())
}

/// Whether every range of `ranges` that holds a byte denotes a slice of `text`.
pub open spec fn all_fit(text: Seq<char>, ranges: Seq<Range<usize>>) -> bool {
    forall|i: int|
        0 <= i < ranges.len() && (#[trigger] ranges[i]).start < ranges[i].end ==> fits(
            text,
            ranges[i].start as int,
            ranges[i].end as int,
        )
}

/// The out-of-scope part between two offsets, if there is a byte between them.
pub open spec fn gap(text: Seq<char>, from: int, to: int) -> Seq<Part> {
    if from < to {
        seq![Part::Out(slice_of(text, from, to))]
    } else {
        Seq::empty()
    }
}

/// Whether a range is taken when the bytes before `cursor` are spoken for: it
/// holds a byte and does not reach back over the cursor.
pub open spec fn taken(range: Range<usize>, cursor: int) -> bool {
    range.start < range.end && cursor <= range.start
}

/// The parts of `text` from the byte `cursor` on, for ranges that are in
/// order: each range that is taken is in scope, what lies between two of them
/// is out of scope, and so is what follows the last.
pub open spec fn carve(text: Seq<char>, ranges: Seq<Range<usize>>, cursor: int) -> Seq<Part>
    decreases ranges.len(),
{
    if ranges.len() == 0 {
        gap(text, cursor, bytes_of(text).len() as int)
    } else if taken(ranges.first(), cursor) {
        let r = ranges.first();
        gap(text, cursor, r.start as int) + seq![
            Part::In(slice_of(text, r.start as int, r.end as int)),
        ] + carve(text, ranges.drop_first(), r.end as int)
    } else {
        carve(text, ranges.drop_first(), cursor)
    }
}

/// The parts that `ranges` carve `text` into.
pub open spec fn parts_from_ranges(text: Seq<char>, ranges: Seq<Range<usize>>) -> Seq<Part> {
    carve(text, ordered(ranges), 0)
}

/// [`range_leq`] orders ranges totally.
pub proof fn lemma_range_order_total()
    ensures
        total_ordering(range_order()),
{
    let r = range_order();
    assert forall|x: Range<usize>, y: Range<usize>| #[trigger] r(x, y) && #[trigger] r(y, x)
        implies x == y by {
        assert(x.start == y.start && x.end == y.end);
    }
}

/// Carving keeps the text and makes no empty part.
pub proof fn lemma_carve_covers(text: Seq<char>, ranges: Seq<Range<usize>>, cursor: int)
    requires
        all_fit(text, ranges),
        is_boundary(text, cursor),
    ensures
        joined(carve(text, ranges, cursor)) == slice_of(
            text,
            cursor,
            bytes_of(text).len() as int,
        ),
        all_filled(carve(text, ranges, cursor)),
    decreases ranges.len(),
{
    let end = bytes_of(text).len() as int;
    lemma_whole_slice(text);
    if ranges.len() == 0 {
        lemma_gap_covers(text, cursor, end);
    } else {
        let r = ranges.first();
        let rest = ranges.drop_first();
        assert forall|i: int| 0 <= i < rest.len() && (#[trigger] rest[i]).start < rest[i].end
            implies fits(text, rest[i].start as int, rest[i].end as int) by {
            assert(rest[i] == ranges[i + 1]);
        }
        if taken(r, cursor) {
            assert(fits(text, r.start as int, r.end as int));
            lemma_carve_covers(text, rest, r.end as int);
            lemma_gap_covers(text, cursor, r.start as int);
            let head = gap(text, cursor, r.start as int);
            let mid = seq![Part::In(slice_of(text, r.start as int, r.end as int))];
            let tail = carve(text, rest, r.end as int);
            lemma_slice_empty(text, r.start as int, r.end as int);
            lemma_joined_add(head, mid);
            lemma_joined_add(head + mid, tail);
            lemma_joined_one(mid[0]);
            lemma_slices_join(text, cursor, r.start as int, r.end as int);
            lemma_slices_join(text, cursor, r.end as int, end);
        } else {
            lemma_carve_covers(text, rest, cursor);
        }
    }
}

/// A gap joins to the slice between its offsets and holds no empty part.
pub proof fn lemma_gap_covers(text: Seq<char>, from: int, to: int)
    requires
        fits(text, from, to),
    ensures
        joined(gap(text, from, to)) == slice_of(text, from, to),
        all_filled(gap(text, from, to)),
{
    lemma_slice_empty(text, from, to);
    if from < to {
        lemma_joined_one(Part::Out(slice_of(text, from, to)));
    } else {
        assert(bytes_of(text).subrange(from, to) =~= Seq::<u8>::empty());
        assert(slice_of(text, from, to) =~= Seq::<char>::empty());
    }
}

/// Ranges that denote slices of a text still do so when they are put in order.
pub proof fn lemma_ordered_fit(text: Seq<char>, ranges: Seq<Range<usize>>)
    requires
        all_fit(text, ranges),
    ensures
        all_fit(text, ordered(ranges)),
{
    let sorted = ordered(ranges);
    lemma_range_order_total();
    ranges.lemma_sort_by_ensures(range_order());
    assert forall|i: int| 0 <= i < sorted.len() && (#[trigger] sorted[i]).start < sorted[i].end
        implies fits(text, sorted[i].start as int, sorted[i].end as int) by {
        assert(sorted.contains(sorted[i]));
        assert(ranges.contains(sorted[i]));
    }
}

/// The parts that ranges carve a text into join to the text, and none of
/// them is empty.
pub proof fn lemma_parts_from_ranges_cover(text: Seq<char>, ranges: Seq<Range<usize>>)
    requires
        all_fit(text, ranges),
    ensures
        joined(parts_from_ranges(text, ranges)) == text,
        all_filled(parts_from_ranges(text, ranges)),
{
    lemma_ordered_fit(text, ranges);
    lemma_whole_slice(text);
    lemma_carve_covers(text, ordered(ranges), 0);
}

/// The key by which ranges are put in order: the start, then what the end
/// lacks to the largest offset, so that of two ranges that start together the
/// longer one has the smaller key.
pub open spec fn key_of(range: Range<usize>) -> (usize, usize) {
    (range.start, (usize::MAX - range.end) as usize)
}

/// The order of pairs: by the first, and of two with the same first by the
/// second.
pub open spec fn pair_leq(a: (usize, usize), b: (usize, usize)) -> bool {
    a.0 < b.0 || (a.0 == b.0 && a.1 <= b.1)
}

/// Whether the keys of `ranges` ascend.
pub open spec fn keys_ascend(ranges: Seq<Range<usize>>) -> bool {
    forall|i: int, j: int|
        #![trigger ranges[i], ranges[j]]
        0 <= i < j < ranges.len() ==> pair_leq(key_of(ranges[i]), key_of(ranges[j]))
}

/// Ranges whose keys ascend are in the order in which ranges are taken.
pub proof fn lemma_keys_order(ranges: Seq<Range<usize>>)
    requires
        keys_ascend(ranges),
    ensures
        sorted_by(ranges, range_order()),
{
    let leq = range_order();
    assert forall|i: int, j: int| 0 <= i < j < ranges.len() implies #[trigger] leq(
        ranges[i],
        ranges[j],
    ) by {
        assert(pair_leq(key_of(ranges[i]), key_of(ranges[j])));
    }
}

/// The key by which `range` is put in order.
pub fn range_key(range: &Range<usize>) -> (key: (usize, usize))
    ensures
        key == key_of(*range),
{
    (range.start, usize::MAX - range.end)
}

/// Calls `Itertools::sorted_by_key` of itertools with [`range_key`] as the
/// key. Claimed of it: what comes out holds the same ranges as what went in,
/// each as often, and their keys ascend, a pair of integers being ordered by
/// its first and then by its second.
#[verifier::external_body]
fn sorted_by_key(ranges: Vec<Range<usize>>) -> (sorted: Vec<Range<usize>>)
    ensures
        sorted@.to_multiset() == ranges@.to_multiset(),
        keys_ascend(sorted@),
{
    itertools::Itertools::sorted_by_key(ranges.into_iter(), range_key).collect()
}

/// `ranges` in the order in which they are taken.
pub fn in_order(ranges: Vec<Range<usize>>) -> (sorted: Vec<Range<usize>>)
    ensures
        sorted@ == ordered(ranges@),
{
    let ghost given = ranges@;
    let sorted = sorted_by_key(ranges);
    proof {
        lemma_keys_order(sorted@);
        lemma_range_order_total();
        given.lemma_sort_by_ensures(range_order());
        lemma_sorted_unique(sorted@, ordered(given), range_order());
    }
    sorted
}

/// The scopes that `ranges` carve `input` into: each range is in scope, what
/// lies between two ranges is out of scope. Of two ranges that overlap, the
/// one that comes later in order is discarded, as is a range without a byte.
pub fn scopes_from_ranges<'a>(input: &'a str, ranges: Vec<Range<usize>>) -> (scopes: ROScopes<'a>)
    requires
        all_fit(input@, ranges@),
    ensures
        ro_parts(scopes@) == parts_from_ranges(input@, ranges@),
{
    let ghost given = ranges@;
    let sorted = in_order(ranges);
    proof {
        lemma_ordered_fit(input@, given);
        lemma_whole_slice(input@);
    }
    let len = byte_len(input);
    let mut scopes: ROScopes<'a> = Vec::new();
    let mut cursor: usize = 0;
    let mut i: usize = 0;
    assert(sorted@.skip(0) =~= sorted@);
    while i < sorted.len()
        invariant
            i <= sorted.len(),
            len == bytes_of(input@).len(),
            all_fit(input@, sorted@),
            is_boundary(input@, cursor as int),
            ro_parts(scopes@) + carve(input@, sorted@.skip(i as int), cursor as int) == carve(
                input@,
                sorted@,
                0,
            ),
        decreases sorted.len() - i,
    {
        let start = sorted[i].start;
        let end = sorted[i].end;
        let ghost rest = sorted@.skip(i as int);
        let ghost done = ro_parts(scopes@);
        proof {
            assert(rest.first() == sorted[i as int]);
            assert(rest.drop_first() =~= sorted@.skip(i + 1));
        }
        if start < end && cursor <= start {
            assert(fits(input@, start as int, end as int));
            if cursor < start {
                scopes.push(Scope::Out(slice(input, cursor, start)));
            }
            assert(ro_parts(scopes@) =~= done + gap(input@, cursor as int, start as int));
            let ghost mid = ro_parts(scopes@);
            scopes.push(Scope::In(slice(input, start, end)));
            proof {
                let part = Part::In(slice_of(input@, start as int, end as int));
                assert(ro_parts(scopes@) =~= mid + seq![part]);
                let tail = carve(input@, sorted@.skip(i + 1), end as int);
                assert(ro_parts(scopes@) + tail =~= done + carve(input@, rest, cursor as int));
            }
            cursor = end;
        }
        i += 1;
    }
    let ghost done = ro_parts(scopes@);
    if cursor < len {
        scopes.push(Scope::Out(slice(input, cursor, len)));
    }
    assert(ro_parts(scopes@) =~= done + gap(input@, cursor as int, len as int));
    scopes
}

} // verus!
