//! The mathematical model of scoped text: a sequence of parts, each in scope
//! or out of scope, and what exploding does to such a sequence.

use vstd::prelude::*;

verus! {

/// What a scope is, apart from where its bytes live: in or out of scope, and
/// its characters.
pub enum Part {
    /// Open to further scoping, and to actions.
    In(Seq<char>),
    /// Frozen: passed on verbatim.
    Out(Seq<char>),
}

impl Part {
    /// The characters of the part.
    pub open spec fn text(self) -> Seq<char> {
        match self {
            Part::In(t) => t,
            Part::Out(t) => t,
        }
    }
}

/// The texts of `parts`, one after the other.
pub open spec fn joined(parts: Seq<Part>) -> Seq<char>
    decreases parts.len(),
{
    if parts.len() == 0 {
        Seq::empty()
    } else {
        joined(parts.drop_last()) + parts.last().text()
    }
}

/// The texts of the out-of-scope parts of `parts`, one after the other.
pub open spec fn joined_out(parts: Seq<Part>) -> Seq<char>
    decreases parts.len(),
{
    if parts.len() == 0 {
        Seq::empty()
    } else if parts.last() is Out {
        joined_out(parts.drop_last()) + parts.last().text()
    } else {
        joined_out(parts.drop_last())
    }
}

/// Whether no part of `parts` is empty.
pub open spec fn all_filled(parts: Seq<Part>) -> bool {
    forall|i: int| 0 <= i < parts.len() ==> (#[trigger] parts[i]).text().len() > 0
}

/// `parts` without its empty parts.
pub open spec fn pruned(parts: Seq<Part>) -> Seq<Part> {
    parts.filter(|p: Part| p.text().len() > 0)
}

/// The number of bytes before part `i` of `parts`, that is the offset at which
/// the part starts in the joined text.
pub open spec fn start_of(parts: Seq<Part>, i: int) -> nat {
    crate::text::bytes_of(joined(parts.take(i))).len()
}

/// The parts that take the place of `part` when a sequence is exploded and
/// `raw` is what the exploder made of the part's text. An out-of-scope part
/// stays, an in-scope part gives way to `raw`, and nothing empty is kept.
pub open spec fn replacement(part: Part, raw: Seq<Part>) -> Seq<Part> {
    match part {
        Part::In(t) => if t.len() == 0 {
            Seq::empty()
        } else {
            pruned(raw)
        },
        Part::Out(t) => if t.len() == 0 {
            Seq::empty()
        } else {
            seq![part]
        },
    }
}

/// Whether `piece` may take the place of `part` under an exploder that is
/// described by `step`: `step(t, raw)` says that the exploder may answer `raw`
/// when asked for the text `t`.
pub open spec fn piece_of(
    part: Part,
    piece: Seq<Part>,
    step: spec_fn(Seq<char>, Seq<Part>) -> bool,
) -> bool {
    if part is In && part.text().len() > 0 {
        exists|raw: Seq<Part>| #[trigger] step(part.text(), raw) && piece == pruned(raw)
    } else {
        piece == replacement(part, Seq::empty())
    }
}

/// Whether `pieces` show that `after` is an explosion of `before` under an
/// exploder described by `step`: every part gave way to a piece of its own,
/// and the pieces, in order, are `after`.
pub open spec fn pieced(
    before: Seq<Part>,
    after: Seq<Part>,
    pieces: Seq<Seq<Part>>,
    step: spec_fn(Seq<char>, Seq<Part>) -> bool,
) -> bool {
    &&& pieces.len() == before.len()
    &&& forall|i: int| 0 <= i < before.len() ==> piece_of(before[i], #[trigger] pieces[i], step)
    &&& after == pieces.flatten()
}

/// Whether `after` is an explosion of `before` under an exploder described by
/// `step`: every part gave way to a piece of its own, in order.
pub open spec fn exploded_by(
    before: Seq<Part>,
    after: Seq<Part>,
    step: spec_fn(Seq<char>, Seq<Part>) -> bool,
) -> bool {
    exists|pieces: Seq<Seq<Part>>| #[trigger] pieced(before, after, pieces, step)
}

/// The explosion of `parts` under an exploder that answers `f(t)` when asked
/// for the text `t`.
pub open spec fn explode_with(parts: Seq<Part>, f: spec_fn(Seq<char>) -> Seq<Part>) -> Seq<
    Part,
> {
    parts.map_values(|p: Part| replacement(p, f(p.text()))).flatten()
}

/// Whether `after` is what mapping an action over `before` may give, where
/// `step(t, u)` says that the action may answer `u` for the text `t`: the parts
/// keep their places and their kinds, an out-of-scope part keeps its text, and
/// an in-scope part holds what the action made of its text.
pub open spec fn mapped_by(
    before: Seq<Part>,
    after: Seq<Part>,
    step: spec_fn(Seq<char>, Seq<char>) -> bool,
) -> bool {
    &&& after.len() == before.len()
    &&& forall|i: int|
        #![trigger before[i]]
        #![trigger after[i]]
        0 <= i < before.len() ==> match before[i] {
            Part::In(t) => after[i] is In && step(t, after[i].text()),
            Part::Out(_) => after[i] == before[i],
        }
}

/// `parts` after an action that answers `g(t)` for the text `t` was mapped
/// over them.
pub open spec fn map_with(parts: Seq<Part>, g: spec_fn(Seq<char>) -> Seq<char>) -> Seq<Part> {
    parts.map_values(
        |p: Part|
            match p {
                Part::In(t) => Part::In(g(t)),
                Part::Out(_) => p,
            },
    )
}

/// Whether an exploder described by `step` covers: what it answers joins to
/// the text it was asked for.
pub open spec fn covering(step: spec_fn(Seq<char>, Seq<Part>) -> bool) -> bool {
    forall|t: Seq<char>, raw: Seq<Part>| #[trigger] step(t, raw) ==> joined(raw) == t
}

/// Whether `after` refines `before`: it is an explosion of it under some
/// exploder that covers.
pub open spec fn refines(before: Seq<Part>, after: Seq<Part>) -> bool {
    exploded_by(before, after, |t: Seq<char>, raw: Seq<Part>| joined(raw) == t)
}

/// A single part joins to its own text.
pub proof fn lemma_joined_one(part: Part)
    ensures
        joined(seq![part]) == part.text(),
{
    reveal_with_fuel(joined, 2);
    assert(seq![part].drop_last() =~= Seq::<Part>::empty());
    assert(joined(seq![part]) =~= part.text());
}

/// Joining goes through concatenation.
pub proof fn lemma_joined_add(a: Seq<Part>, b: Seq<Part>)
    ensures
        joined(a + b) == joined(a) + joined(b),
    decreases b.len(),
{
    if b.len() == 0 {
        assert(a + b =~= a);
        assert(joined(a) + joined(b) =~= joined(a));
    } else {
        assert((a + b).drop_last() =~= a + b.drop_last());
        lemma_joined_add(a, b.drop_last());
        assert(joined(a + b) =~= joined(a) + joined(b));
    }
}

/// Pruning keeps the joined text and leaves no empty part.
pub proof fn lemma_pruned(parts: Seq<Part>)
    ensures
        joined(pruned(parts)) == joined(parts),
        all_filled(pruned(parts)),
        all_filled(parts) ==> pruned(parts) == parts,
    decreases parts.len(),
{
    reveal(Seq::filter);
    let keep = |p: Part| p.text().len() > 0;
    if parts.len() > 0 {
        let front = parts.drop_last();
        let last = parts.last();
        lemma_pruned(front);
        if last.text().len() > 0 {
            assert(pruned(parts) == pruned(front).push(last));
            assert(pruned(parts).drop_last() =~= pruned(front));
            if all_filled(parts) {
                assert forall|i: int| 0 <= i < front.len() implies (#[trigger] front[i]).text().len()
                    > 0 by {
                    assert(front[i] == parts[i]);
                }
                assert(pruned(parts) =~= parts);
            }
        } else {
            assert(pruned(parts) == pruned(front));
            assert(joined(parts) =~= joined(front));
        }
    }
}

/// What takes the place of a part under an exploder that covers joins to the
/// part's text and holds no empty part.
pub proof fn lemma_piece_covers(
    part: Part,
    piece: Seq<Part>,
    step: spec_fn(Seq<char>, Seq<Part>) -> bool,
)
    requires
        piece_of(part, piece, step),
    ensures
        all_filled(piece),
        covering(step) ==> joined(piece) == part.text(),
{
    if part is In && part.text().len() > 0 {
        let raw = choose|raw: Seq<Part>| #[trigger] step(part.text(), raw) && piece == pruned(raw);
        lemma_pruned(raw);
    } else if part.text().len() > 0 {
        lemma_joined_one(part);
    } else {
        assert(joined(piece) =~= part.text());
    }
}

/// The pieces that take the place of the parts of `before`, one for one,
/// flatten to parts of which none is empty, and which join to the text of
/// `before` if the exploder covers.
pub proof fn lemma_pieces_cover(
    before: Seq<Part>,
    pieces: Seq<Seq<Part>>,
    step: spec_fn(Seq<char>, Seq<Part>) -> bool,
)
    requires
        pieces.len() == before.len(),
        forall|i: int| 0 <= i < before.len() ==> piece_of(before[i], #[trigger] pieces[i], step),
    ensures
        all_filled(pieces.flatten()),
        covering(step) ==> joined(pieces.flatten()) == joined(before),
    decreases before.len(),
{
    if before.len() > 0 {
        let front = pieces.drop_last();
        let last = pieces.last();
        assert forall|i: int| 0 <= i < before.drop_last().len() implies piece_of(
            before.drop_last()[i],
            #[trigger] front[i],
            step,
        ) by {
            assert(front[i] == pieces[i]);
        }
        lemma_pieces_cover(before.drop_last(), front, step);
        lemma_piece_covers(before.last(), last, step);
        front.lemma_flatten_push(last);
        assert(pieces =~= front.push(last));
        lemma_joined_add(front.flatten(), last);
        assert forall|k: int| 0 <= k < pieces.flatten().len() implies (
        #[trigger] pieces.flatten()[k]).text().len() > 0 by {
            if k >= front.flatten().len() {
                assert(pieces.flatten()[k] == last[k - front.flatten().len()]);
            } else {
                assert(pieces.flatten()[k] == front.flatten()[k]);
            }
        }
    }
}

/// An explosion holds no empty part, and under an exploder that covers it
/// joins to the same text as what was exploded.
pub proof fn lemma_exploded_covers(
    before: Seq<Part>,
    after: Seq<Part>,
    step: spec_fn(Seq<char>, Seq<Part>) -> bool,
)
    requires
        exploded_by(before, after, step),
    ensures
        all_filled(after),
        covering(step) ==> joined(after) == joined(before),
{
    let pieces = choose|pieces: Seq<Seq<Part>>| pieced(before, after, pieces, step);
    lemma_pieces_cover(before, pieces, step);
}

/// An explosion under one description of the exploder is one under any
/// description that allows as much.
pub proof fn lemma_exploded_weaken(
    before: Seq<Part>,
    after: Seq<Part>,
    step: spec_fn(Seq<char>, Seq<Part>) -> bool,
    wider: spec_fn(Seq<char>, Seq<Part>) -> bool,
)
    requires
        exploded_by(before, after, step),
        forall|t: Seq<char>, raw: Seq<Part>| #[trigger] step(t, raw) ==> wider(t, raw),
    ensures
        exploded_by(before, after, wider),
{
    let pieces = choose|pieces: Seq<Seq<Part>>| pieced(before, after, pieces, step);
    assert forall|i: int| 0 <= i < before.len() implies piece_of(
        before[i],
        #[trigger] pieces[i],
        wider,
    ) by {
        let part = before[i];
        assert(piece_of(part, pieces[i], step));
        if part is In && part.text().len() > 0 {
            let raw = choose|raw: Seq<Part>|
                #[trigger] step(part.text(), raw) && pieces[i] == pruned(raw);
            assert(wider(part.text(), raw));
        }
    }
    assert(pieced(before, after, pieces, wider));
}

/// Under an exploder that always gives one answer, `f(t)` for the text `t`,
/// there is one explosion: [`explode_with`].
pub proof fn lemma_exploded_exactly(
    before: Seq<Part>,
    after: Seq<Part>,
    step: spec_fn(Seq<char>, Seq<Part>) -> bool,
    f: spec_fn(Seq<char>) -> Seq<Part>,
)
    requires
        exploded_by(before, after, step),
        forall|t: Seq<char>, raw: Seq<Part>| #[trigger] step(t, raw) ==> raw == f(t),
    ensures
        after == explode_with(before, f),
{
    let pieces = choose|pieces: Seq<Seq<Part>>| pieced(before, after, pieces, step);
    let exact = before.map_values(|p: Part| replacement(p, f(p.text())));
    assert forall|i: int| 0 <= i < before.len() implies #[trigger] pieces[i] == exact[i] by {
        let part = before[i];
        assert(piece_of(part, pieces[i], step));
        if part is In && part.text().len() > 0 {
            let raw = choose|raw: Seq<Part>|
                #[trigger] step(part.text(), raw) && pieces[i] == pruned(raw);
            assert(raw == f(part.text()));
        } else {
            assert(replacement(part, Seq::empty()) == replacement(part, f(part.text())));
        }
    }
    assert(pieces =~= exact);
}

} // verus!
