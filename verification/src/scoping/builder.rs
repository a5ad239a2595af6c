//! Building a view: one input, carved ever finer by exploders.

use super::laws::{identical, law_covering_refines, law_identity_scoper};
use super::model::{
    all_filled, covering, exploded_by, joined, lemma_exploded_covers, lemma_exploded_weaken,
    lemma_joined_one, lemma_pruned, piece_of, pieced, pruned, refines, Part,
};
use super::ranges::{
    all_fit, lemma_parts_from_ranges_cover, parts_from_ranges, scopes_from_ranges,
};
use super::view::{all_borrowed, promoted, ScopedView};
use super::{
    ro_parts, rw_parts, scoper_step, ROScope, ROScopes, RWScopes, Scope, ScopedViewBuildStep,
};
use std::borrow::Cow;
use std::ops::Range;
use vstd::prelude::*;

verus! {

/// An ordered sequence of read-only scopes over one input, none of them
/// empty. Every operation keeps the scopes' joined text.
#[derive(Debug, PartialEq, Eq)]
pub struct ScopedViewBuilder<'a> {
    scopes: ROScopes<'a>,
}

impl<'a> View for ScopedViewBuilder<'a> {
    type V = Seq<Part>;

    open spec fn view(&self) -> Seq<Part> {
        ro_parts(self.scopes())
    }
}

impl<'a> Clone for ScopedViewBuilder<'a> {
    fn clone(&self) -> (copy: Self)
        ensures
            copy.scopes() == self.scopes(),
    {
        proof {
            use_type_invariant(self);
        }
        let mut scopes: ROScopes<'a> = Vec::with_capacity(self.scopes.len());
        let mut i: usize = 0;
        while i < self.scopes.len()
            invariant
                i <= self.scopes.len(),
                scopes@ == self.scopes@.take(i as int),
            decreases self.scopes.len() - i,
        {
            let scope = match &self.scopes[i] {
                Scope::In(s) => Scope::In(*s),
                Scope::Out(s) => Scope::Out(*s),
            };
            scopes.push(scope);
            assert(scopes@ =~= self.scopes@.take(i + 1));
            i += 1;
        }
        assert(self.scopes@.take(self.scopes.len() as int) =~= self.scopes@);
        ScopedViewBuilder { scopes }
    }
}

/// What a closure that answers a builder may answer when asked for `text`.
pub open spec fn builder_step<'a, F: Fn(&'a str) -> ScopedViewBuilder<'a>>(
    exploder: F,
) -> spec_fn(Seq<char>, Seq<Part>) -> bool {
    |text: Seq<char>, raw: Seq<Part>|
        exists|s: &'a str, b: ScopedViewBuilder<'a>|
            s@ == text && #[trigger] call_ensures(exploder, (s,), b) && b@ == raw
}

/// What a closure that answers byte ranges may make of `text`: the parts that
/// one of its answers carves the text into, the answer being one whose ranges
/// denote slices of the text.
pub open spec fn ranges_step<F: Fn(&str) -> Vec<Range<usize>>>(exploder: &F) -> spec_fn(
    Seq<char>,
    Seq<Part>,
) -> bool {
    |text: Seq<char>, raw: Seq<Part>|
        exists|s: &str, r: Vec<Range<usize>>|
            s@ == text && #[trigger] call_ensures(*exploder, (s,), r) && all_fit(text, r@) && raw
                == parts_from_ranges(text, r@)
}

/// Whether a closure that answers byte ranges may be asked for `s`, and
/// answers then with ranges that denote slices of `s`.
pub open spec fn may_ask<F: Fn(&str) -> Vec<Range<usize>>>(exploder: &F, s: &str) -> bool {
    &&& call_requires(*exploder, (s,))
    &&& forall|r: Vec<Range<usize>>| #[trigger] call_ensures(*exploder, (s,), r) ==> all_fit(s@, r@)
}

impl<'a> ScopedViewBuilder<'a> {
    #[verifier::type_invariant]
    spec fn filled(&self) -> bool {
        all_filled(ro_parts(self.scopes@))
    }

    /// The scopes that the builder holds, in order.
    pub closed spec fn scopes(&self) -> Seq<ROScope<'a>> {
        self.scopes@
    }

    /// A builder whose single scope holds all of `input`, in scope. Of an
    /// empty input nothing is held: no scope is ever empty.
    #[must_use]
    pub fn new(input: &'a str) -> (builder: Self)
        ensures
            builder@ == pruned(seq![Part::In(input@)]),
            builder.scopes() == if input@.len() == 0 {
                Seq::<ROScope<'a>>::empty()
            } else {
                seq![Scope::In(input)]
            },
            joined(builder@) == input@,
            all_filled(builder@),
    {
        let mut scopes: ROScopes<'a> = Vec::new();
        proof {
            lemma_pruned(seq![Part::In(input@)]);
            lemma_joined_one(Part::In(input@));
            reveal_with_fuel(Seq::filter, 2);
            assert(seq![Part::In(input@)].drop_last() =~= Seq::<Part>::empty());
        }
        if !input.is_empty() {
            scopes.push(Scope::In(input));
            assert(ro_parts(scopes@) =~= seq![Part::In(input@)]);
            assert(pruned(seq![Part::In(input@)]) =~= seq![Part::In(input@)]);
        } else {
            assert(ro_parts(scopes@) =~= Seq::<Part>::empty());
            assert(pruned(seq![Part::In(input@)]) =~= Seq::<Part>::empty());
        }
        ScopedViewBuilder { scopes }
    }

    /// The scopes that the builder holds, in order. None of them is empty.
    #[must_use]
    pub fn into_scopes(self) -> (scopes: ROScopes<'a>)
        ensures
            scopes@ == self.scopes(),
            all_filled(self@),
    {
        proof {
            use_type_invariant(&self);
        }
        self.scopes
    }

    /// Freezes the builder into a view. An in-scope slice becomes a borrowed
    /// payload, an out-of-scope slice stays as it is. The view holds no empty
    /// scope.
    #[must_use]
    pub fn build(self) -> (view: ScopedView<'a>)
        ensures
            view.scopes() == promoted(self.scopes()),
            all_borrowed(view.scopes()),
            view@ == self@,
            all_filled(view@),
    {
        proof {
            use_type_invariant(&self);
        }
        let mut scopes: RWScopes<'a> = Vec::with_capacity(self.scopes.len());
        let mut i: usize = 0;
        while i < self.scopes.len()
            invariant
                i <= self.scopes.len(),
                scopes@ == promoted(self.scopes@.take(i as int)),
            decreases self.scopes.len() - i,
        {
            let scope = match &self.scopes[i] {
                Scope::In(s) => Scope::In(Cow::Borrowed(*s)),
                Scope::Out(s) => Scope::Out(*s),
            };
            scopes.push(scope);
            assert(scopes@ =~= promoted(self.scopes@.take(i + 1)));
            i += 1;
        }
        proof {
            assert(self.scopes@.take(self.scopes.len() as int) =~= self.scopes@);
            assert(rw_parts(promoted(self.scopes@)) =~= ro_parts(self.scopes@));
        }
        ScopedView::new(scopes)
    }

    /// The builder that `ranges` carve `input` into: each range is in scope,
    /// what lies between two ranges is out of scope. Of two ranges that
    /// overlap, the one that comes later in order is discarded, as is a range
    /// without a byte.
    #[must_use]
    pub fn from_raw_ranges(input: &'a str, ranges: Vec<Range<usize>>) -> (builder: Self)
        requires
            all_fit(input@, ranges@),
        ensures
            builder@ == parts_from_ranges(input@, ranges@),
            joined(builder@) == input@,
            all_filled(builder@),
    {
        proof {
            lemma_parts_from_ranges_cover(input@, ranges@);
        }
        ScopedViewBuilder { scopes: scopes_from_ranges(input, ranges) }
    }

    /// Explodes with an exploder that answers byte ranges: within every
    /// non-empty in-scope part, the ranges that `exploder` gives for it stay in
    /// scope and the rest goes out of scope.
    #[must_use]
    pub fn explode_from_ranges<F>(self, exploder: F) -> (exploded: Self) where
        F: Fn(&str) -> Vec<Range<usize>>,

        requires
            forall|s: &str|
                self@.contains(Part::In(s@)) && s@.len() > 0 ==> #[trigger] may_ask(&exploder, s),
        ensures
            exploded_by(self@, exploded@, ranges_step(&exploder)),
            refines(self@, exploded@),
            joined(exploded@) == joined(self@),
            all_filled(exploded@),
    {
        let asked = &exploder;
        let by_ranges = |s: &'a str| -> (b: Self)
            requires
                may_ask(asked, s),
            ensures
                ranges_step(asked)(s@, b@),
            {
                let ranges = exploder(s);
                Self::from_raw_ranges(s, ranges)
            };
        let ghost before = self@;
        let exploded = self.explode(by_ranges);
        proof {
            lemma_exploded_weaken(
                before,
                exploded@,
                builder_step(by_ranges),
                ranges_step(asked),
            );
            assert forall|t: Seq<char>, raw: Seq<Part>| #[trigger]
                ranges_step(asked)(t, raw) implies joined(raw) == t by {
                let (s, r) = choose|s: &str, r: Vec<Range<usize>>|
                    s@ == t && #[trigger] call_ensures(*asked, (s,), r) && all_fit(t, r@) && raw
                        == parts_from_ranges(t, r@);
                lemma_parts_from_ranges_cover(t, r@);
            }
            lemma_exploded_covers(before, exploded@, ranges_step(asked));
            law_covering_refines(before, exploded@, ranges_step(asked));
        }
        exploded
    }

    /// Explodes with a scoper: every non-empty in-scope part gives way to what
    /// the scoper makes of it.
    #[must_use]
    pub fn explode_from_scoper<S: ScopedViewBuildStep>(self, scoper: &S) -> (exploded: Self)
        ensures
            exploded_by(self@, exploded@, scoper_step(scoper)),
            refines(self@, exploded@),
            joined(exploded@) == joined(self@),
            all_filled(exploded@),
            identical(scoper_step(scoper)) ==> exploded@ == self@,
    {
        proof {
            use_type_invariant(&self);
        }
        let by_scoper = |s: &'a str| -> (b: Self)
            ensures
                scoper_step(scoper)(s@, b@),
            { scoper.scope(s) };
        let ghost before = self@;
        let exploded = self.explode(by_scoper);
        proof {
            lemma_exploded_weaken(before, exploded@, builder_step(by_scoper), scoper_step(scoper));
            lemma_exploded_covers(before, exploded@, scoper_step(scoper));
            law_covering_refines(before, exploded@, scoper_step(scoper));
            if identical(scoper_step(scoper)) {
                law_identity_scoper(before, exploded@, scoper_step(scoper));
            }
        }
        exploded
    }

    /// Replaces every non-empty in-scope part by what `exploder` makes of it,
    /// forwards every out-of-scope part, and keeps nothing empty.
    #[must_use]
    pub fn explode<F>(self, exploder: F) -> (exploded: Self) where F: Fn(&'a str) -> Self
        requires
            forall|s: &'a str|
                self@.contains(Part::In(s@)) && s@.len() > 0 ==> #[trigger] call_requires(
                    exploder,
                    (s,),
                ),
        ensures
            exploded_by(self@, exploded@, builder_step(exploder)),
            all_filled(exploded@),
            covering(builder_step(exploder)) ==> refines(self@, exploded@) && joined(exploded@)
                == joined(self@),
            identical(builder_step(exploder)) ==> exploded@ == self@,
    {
        let mut new: ROScopes<'a> = Vec::with_capacity(self.scopes.len());
        let ghost mut pieces: Seq<Seq<Part>> = Seq::empty();
        let ghost step = builder_step(exploder);
        let mut i: usize = 0;
        while i < self.scopes.len()
            invariant
                i <= self.scopes.len(),
                step == builder_step(exploder),
                pieces.len() == i,
                forall|j: int| 0 <= j < i ==> piece_of(self@[j], #[trigger] pieces[j], step),
                ro_parts(new@) == pieces.flatten(),
                forall|s: &'a str|
                    self@.contains(Part::In(s@)) && s@.len() > 0 ==> #[trigger] call_requires(
                        exploder,
                        (s,),
                    ),
            decreases self.scopes.len() - i,
        {
            let ghost before = ro_parts(new@);
            let ghost part = self@[i as int];
            assert(part == self.scopes@[i as int].part());
            if !self.scopes[i].is_empty() {
                match &self.scopes[i] {
                    Scope::In(s) => {
                        let s: &'a str = *s;
                        assert(self@.contains(Part::In(s@)));
                        let made = exploder(s);
                        extend_pruned(&mut new, &made.scopes);
                        proof {
                            assert(step(s@, made@));
                            assert(ro_parts(new@).skip(before.len() as int) =~= pruned(made@));
                        }
                    },
                    Scope::Out(s) => {
                        new.push(Scope::Out(*s));
                        assert(ro_parts(new@) =~= before + seq![part]);
                        assert(ro_parts(new@).skip(before.len() as int) =~= seq![part]);
                    },
                }
            } else {
                assert(ro_parts(new@).skip(before.len() as int) =~= Seq::<Part>::empty());
            }
            proof {
                let piece = ro_parts(new@).skip(before.len() as int);
                assert(ro_parts(new@) =~= before + piece);
                assert(piece_of(part, piece, step));
                pieces.lemma_flatten_push(piece);
                pieces = pieces.push(piece);
            }
            i += 1;
        }
        proof {
            assert(pieced(self@, ro_parts(new@), pieces, step));
            lemma_exploded_covers(self@, ro_parts(new@), step);
            if covering(step) {
                law_covering_refines(self@, ro_parts(new@), step);
            }
            if identical(step) {
                use_type_invariant(&self);
                law_identity_scoper(self@, ro_parts(new@), step);
            }
        }
        ScopedViewBuilder { scopes: new }
    }
}

/// Appends to `target` every scope of `source` that is not empty.
fn extend_pruned<'a>(target: &mut ROScopes<'a>, source: &ROScopes<'a>)
    ensures
        ro_parts(final(target)@) == ro_parts(old(target)@) + pruned(ro_parts(source@)),
{
    let mut k: usize = 0;
    proof {
        reveal(Seq::filter);
        assert(ro_parts(source@).take(0) =~= Seq::<Part>::empty());
        assert(ro_parts(target@) =~= ro_parts(old(target)@) + pruned(ro_parts(source@).take(0)));
    }
    while k < source.len()
        invariant
            k <= source.len(),
            ro_parts(target@) == ro_parts(old(target)@) + pruned(ro_parts(source@).take(k as int)),
        decreases source.len() - k,
    {
        let ghost parts = ro_parts(source@);
        let ghost seen = parts.take(k as int);
        let ghost now = ro_parts(target@);
        proof {
            assert(parts.take(k + 1) =~= seen.push(parts[k as int]));
            seen.lemma_filter_push(parts[k as int], |p: Part| p.text().len() > 0);
        }
        if !source[k].is_empty() {
            let scope = match &source[k] {
                Scope::In(s) => Scope::In(*s),
                Scope::Out(s) => Scope::Out(*s),
            };
            target.push(scope);
            assert(ro_parts(target@) =~= now.push(parts[k as int]));
        }
        k += 1;
    }
    assert(ro_parts(source@).take(source.len() as int) =~= ro_parts(source@));
}

} // verus!
