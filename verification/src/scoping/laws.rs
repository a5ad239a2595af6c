//! What holds of scoping and mapping whatever the scopers and actions are.

use super::model::{
    all_filled, covering, explode_with, exploded_by, joined, joined_out, lemma_exploded_covers,
    lemma_exploded_exactly, lemma_exploded_weaken, lemma_joined_add, lemma_joined_one,
    lemma_pruned, mapped_by, pruned, refines, replacement, start_of, Part,
};
use crate::text::{
    fits, lemma_bytes_of_add, lemma_bytes_of_filled, lemma_join_is_boundary, lemma_slices_join,
    lemma_whole_slice, slice_of,
};
use vstd::prelude::*;

verus! {

/// Whether each stage of `stages` but the first refines the one before it.
pub open spec fn refinement_chain(stages: Seq<Seq<Part>>) -> bool {
    forall|k: int| 0 <= k < stages.len() - 1 ==> refines(#[trigger] stages[k], stages[k + 1])
}

/// Whether each stage of `stages` but the first is what some action made of
/// the one before it.
pub open spec fn action_chain(stages: Seq<Seq<Part>>) -> bool {
    forall|k: int|
        0 <= k < stages.len() - 1 ==> mapped_by(
            #[trigger] stages[k],
            stages[k + 1],
            |t: Seq<char>, u: Seq<char>| true,
        )
}

/// Concatenation. Start with what a new builder holds of `input`, the whole
/// of it in scope, and explode any number of times, each time with an exploder
/// that covers: the parts still join to `input`.
pub proof fn law_concatenation(input: Seq<char>, stages: Seq<Seq<Part>>)
    requires
        stages.len() > 0,
        stages.first() == pruned(seq![Part::In(input)]),
        refinement_chain(stages),
    ensures
        joined(stages.last()) == input,
    decreases stages.len(),
{
    if stages.len() == 1 {
        lemma_pruned(seq![Part::In(input)]);
        lemma_joined_one(Part::In(input));
    } else {
        let front = stages.drop_last();
        assert forall|k: int| 0 <= k < front.len() - 1 implies refines(
            #[trigger] front[k],
            front[k + 1],
        ) by {
            assert(front[k] == stages[k]);
            assert(front[k + 1] == stages[k + 1]);
        }
        law_concatenation(input, front);
        let k = stages.len() - 2;
        assert(refines(stages[k], stages[k + 1]));
        lemma_exploded_covers(
            stages[k],
            stages[k + 1],
            |t: Seq<char>, raw: Seq<Part>| joined(raw) == t,
        );
    }
}

/// An explosion under an exploder that covers is a refinement.
pub proof fn law_covering_refines(
    before: Seq<Part>,
    after: Seq<Part>,
    step: spec_fn(Seq<char>, Seq<Part>) -> bool,
)
    requires
        exploded_by(before, after, step),
        covering(step),
    ensures
        refines(before, after),
{
    lemma_exploded_weaken(
        before,
        after,
        step,
        |t: Seq<char>, raw: Seq<Part>| joined(raw) == t,
    );
}

/// Out preservation. Whatever actions are mapped over a view, one after the
/// other, the out-of-scope text stays what it was.
pub proof fn law_out_preserved(stages: Seq<Seq<Part>>)
    requires
        stages.len() > 0,
        action_chain(stages),
    ensures
        joined_out(stages.last()) == joined_out(stages.first()),
    decreases stages.len(),
{
    if stages.len() > 1 {
        let front = stages.drop_last();
        assert forall|k: int| 0 <= k < front.len() - 1 implies mapped_by(
            #[trigger] front[k],
            front[k + 1],
            |t: Seq<char>, u: Seq<char>| true,
        ) by {
            assert(front[k] == stages[k]);
            assert(front[k + 1] == stages[k + 1]);
        }
        law_out_preserved(front);
        let k = stages.len() - 2;
        assert(mapped_by(stages[k], stages[k + 1], |t: Seq<char>, u: Seq<char>| true));
        lemma_mapped_keeps_out(stages[k], stages[k + 1], |t: Seq<char>, u: Seq<char>| true);
    }
}

/// One action mapped over parts leaves the out-of-scope text as it was.
pub proof fn lemma_mapped_keeps_out(
    before: Seq<Part>,
    after: Seq<Part>,
    step: spec_fn(Seq<char>, Seq<char>) -> bool,
)
    requires
        mapped_by(before, after, step),
    ensures
        joined_out(after) == joined_out(before),
    decreases before.len(),
{
    if before.len() > 0 {
        let b = before.drop_last();
        let a = after.drop_last();
        assert forall|i: int| 0 <= i < b.len() implies match #[trigger] b[i] {
            Part::In(t) => a[i] is In && step(t, a[i].text()),
            Part::Out(_) => a[i] == b[i],
        } by {
            assert(b[i] == before[i]);
            assert(a[i] == after[i]);
        }
        lemma_mapped_keeps_out(b, a, step);
        assert(before.last() == before[before.len() - 1]);
    }
}

/// Non-empty scopes. After an explosion no part is empty, whatever the
/// exploder answered.
pub proof fn law_no_empty_scope(
    before: Seq<Part>,
    after: Seq<Part>,
    step: spec_fn(Seq<char>, Seq<Part>) -> bool,
)
    requires
        exploded_by(before, after, step),
    ensures
        all_filled(after),
{
    lemma_exploded_covers(before, after, step);
}

/// Order. Where no part is empty, the parts start at strictly ascending byte
/// offsets of the joined text, and each part is the slice of the joined text
/// from its own start to the start of the next.
pub proof fn law_order(parts: Seq<Part>, i: int, j: int)
    requires
        all_filled(parts),
        0 <= i < j <= parts.len(),
    ensures
        start_of(parts, i) < start_of(parts, j),
        fits(joined(parts), start_of(parts, i) as int, start_of(parts, i + 1) as int),
        slice_of(joined(parts), start_of(parts, i) as int, start_of(parts, i + 1) as int)
            == parts[i].text(),
    decreases j - i,
{
    let whole = joined(parts);
    let head = parts.take(i);
    let upto = parts.take(i + 1);
    let tail = parts.skip(i + 1);
    assert(upto =~= head + seq![parts[i]]);
    assert(parts =~= upto + tail);
    lemma_joined_add(head, seq![parts[i]]);
    lemma_joined_add(upto, tail);
    lemma_joined_one(parts[i]);
    lemma_bytes_of_add(joined(head), parts[i].text());
    lemma_bytes_of_filled(parts[i].text());
    assert(start_of(parts, i) < start_of(parts, i + 1));
    if i + 1 < j {
        law_order(parts, i + 1, j);
    }
    lemma_join_is_boundary(joined(upto), joined(tail));
    lemma_join_is_boundary(joined(head), parts[i].text());
    lemma_join_is_boundary(joined(head), parts[i].text() + joined(tail));
    assert(joined(head) + (parts[i].text() + joined(tail)) =~= whole);
    assert(joined(upto) + joined(tail) =~= whole);
    lemma_whole_slice(whole);
    let at = start_of(parts, i) as int;
    let next = start_of(parts, i + 1) as int;
    assert(fits(whole, 0, at));
    assert(fits(whole, at, next));
    lemma_slices_join(whole, 0, at, next);
    assert(slice_of(whole, 0, at) == joined(head));
    assert(slice_of(whole, 0, next) == joined(upto));
    assert(slice_of(whole, at, next) =~= parts[i].text()) by {
        let a = slice_of(whole, 0, at);
        let m = slice_of(whole, at, next);
        assert(a + m == a + parts[i].text());
        assert(m.len() == parts[i].text().len());
        assert forall|k: int| 0 <= k < m.len() implies m[k] == parts[i].text()[k] by {
            assert((a + m)[a.len() + k] == (a + parts[i].text())[a.len() + k]);
        }
    }
}

/// What the identity scoper makes of a text: the text, in scope, and no part
/// where the text is empty. It is what a new builder holds of the text.
pub open spec fn identity() -> spec_fn(Seq<char>) -> Seq<Part> {
    |t: Seq<char>| pruned(seq![Part::In(t)])
}

/// What the identity scoper makes of a text that is not empty.
pub proof fn lemma_identity_of_filled(t: Seq<char>)
    requires
        t.len() > 0,
    ensures
        identity()(t) == seq![Part::In(t)],
{
    lemma_pruned(seq![Part::In(t)]);
}

/// Whether an exploder described by `step` is the identity scoper: it answers
/// every text with what [`identity`] makes of it.
pub open spec fn identical(step: spec_fn(Seq<char>, Seq<Part>) -> bool) -> bool {
    forall|t: Seq<char>, raw: Seq<Part>| #[trigger] step(t, raw) ==> raw == identity()(t)
}

/// Idempotence of the identity scoper. Exploding with a scoper that answers
/// every text with that text, in scope, only prunes; where no part is empty it
/// changes nothing. A builder never holds an empty part, so that on a builder
/// the identity scoper changes nothing at all.
pub proof fn law_identity_scoper(
    before: Seq<Part>,
    after: Seq<Part>,
    step: spec_fn(Seq<char>, Seq<Part>) -> bool,
)
    requires
        exploded_by(before, after, step),
        identical(step),
    ensures
        after == pruned(before),
        all_filled(before) ==> after == before,
{
    lemma_exploded_exactly(before, after, step, identity());
    lemma_explode_with_identity(before);
}

/// Exploding with the identity scoper is pruning.
pub proof fn lemma_explode_with_identity(parts: Seq<Part>)
    ensures
        explode_with(parts, identity()) == pruned(parts),
        all_filled(parts) ==> explode_with(parts, identity()) == parts,
    decreases parts.len(),
{
    let f = identity();
    let pieces = parts.map_values(|p: Part| replacement(p, f(p.text())));
    lemma_pruned(parts);
    reveal(Seq::filter);
    if parts.len() == 0 {
        assert(pieces =~= Seq::<Seq<Part>>::empty());
        assert(pruned(parts) =~= Seq::<Part>::empty());
    } else {
        let front = parts.drop_last();
        let last = parts.last();
        lemma_explode_with_identity(front);
        let front_pieces = front.map_values(|p: Part| replacement(p, f(p.text())));
        let piece = replacement(last, f(last.text()));
        assert(pieces =~= front_pieces.push(piece));
        front_pieces.lemma_flatten_push(piece);
        if last.text().len() > 0 {
            lemma_pruned(seq![last]);
            if last is In {
                lemma_identity_of_filled(last.text());
            }
            assert(piece =~= seq![last]);
            assert(pruned(parts) =~= pruned(front) + seq![last]);
        } else {
            assert(piece =~= Seq::<Part>::empty());
            assert(pruned(parts) =~= pruned(front) + Seq::<Part>::empty());
        }
    }
}

} // verus!
