//! The built view: scopes whose in-scope parts actions may rewrite.

use super::builder::ScopedViewBuilder;
use super::laws::lemma_mapped_keeps_out;
use super::model::{all_filled, joined, joined_out, map_with, mapped_by, pruned, Part};
use super::{rw_parts, ROScope, RWScope, RWScopes, Scope};
use std::borrow::Cow;
use vstd::prelude::*;
use vstd::string::*;

verus! {

/// An ordered sequence of read-write scopes. Rendered, it is the scopes' text
/// one after the other.
#[derive(Debug, Clone, PartialEq, Eq)]
pub struct ScopedView<'a> {
    scopes: RWScopes<'a>,
}

impl<'a> View for ScopedView<'a> {
    type V = Seq<Part>;

    open spec fn view(&self) -> Seq<Part> {
        rw_parts(self.scopes())
    }
}

/// The read-write form of read-only scopes: an in-scope slice becomes a
/// borrowed payload, an out-of-scope slice stays as it is.
pub open spec fn promoted<'a>(scopes: Seq<ROScope<'a>>) -> Seq<RWScope<'a>> {
    scopes.map_values(
        |s: ROScope<'a>|
            match s {
                Scope::In(s) => Scope::In(Cow::Borrowed(s)),
                Scope::Out(s) => Scope::Out(s),
            },
    )
}

/// Whether a scope borrows its text from the input: every out-of-scope part
/// does, and an in-scope part whose payload no action has made.
pub open spec fn borrowed<'a>(scope: RWScope<'a>) -> bool {
    match scope {
        Scope::In(Cow::Borrowed(_)) => true,
        Scope::In(Cow::Owned(_)) => false,
        Scope::Out(_) => true,
    }
}

/// Whether every scope of `scopes` borrows its text from the input.
pub open spec fn all_borrowed<'a>(scopes: Seq<RWScope<'a>>) -> bool {
    forall|i: int| 0 <= i < scopes.len() ==> borrowed(#[trigger] scopes[i])
}

/// Whether `after` holds the scopes of `before` after an action was mapped
/// over them: an out-of-scope scope is the one it was, and an in-scope scope
/// owns its payload.
pub open spec fn remade<'a>(before: Seq<RWScope<'a>>, after: Seq<RWScope<'a>>) -> bool {
    &&& after.len() == before.len()
    &&& forall|i: int|
        #![trigger before[i]]
        #![trigger after[i]]
        0 <= i < before.len() ==> match before[i] {
            Scope::In(_) => after[i] is In && !borrowed(after[i]),
            Scope::Out(_) => after[i] == before[i],
        }
}

/// What a closure that answers a string may answer when asked for a text.
pub open spec fn action_step<F: Fn(&str) -> String>(f: &F) -> spec_fn(Seq<char>, Seq<char>) -> bool {
    |text: Seq<char>, made: Seq<char>|
        exists|s: &str, r: String| s@ == text && #[trigger] call_ensures(*f, (s,), r) && r@ == made
}

impl<'a> ScopedView<'a> {
    /// The scopes that the view holds, in order.
    pub closed spec fn scopes(&self) -> Seq<RWScope<'a>> {
        self.scopes@
    }

    /// A view of the given scopes.
    #[must_use]
    pub fn new(scopes: RWScopes<'a>) -> (view: Self)
        ensures
            view.scopes() == scopes@,
    {
        Self { scopes }
    }

    /// For API discoverability.
    #[must_use]
    pub fn builder(input: &'a str) -> (builder: ScopedViewBuilder<'a>)
        ensures
            builder@ == pruned(seq![Part::In(input@)]),
            joined(builder@) == input@,
            all_filled(builder@),
    {
        ScopedViewBuilder::new(input)
    }

    /// Applies `f` to every in-scope part, in order, and puts what it answers
    /// in the part's place, as a payload that the view owns. Out-of-scope parts
    /// are left untouched.
    pub fn map<F>(&mut self, f: &F) -> (mapped: &mut Self) where F: Fn(&str) -> String
        requires
            forall|s: &str| old(self)@.contains(Part::In(s@)) ==> #[trigger] call_requires(*f, (s,)),
        ensures
            mapped_by(old(self)@, (*mapped)@, action_step(f)),
            remade(old(self).scopes(), (*mapped).scopes()),
            joined_out((*mapped)@) == joined_out(old(self)@),
            *final(self) == *final(mapped),
    {
        let ghost given = old(self).scopes@;
        let mut i: usize = 0;
        while i < self.scopes.len()
            invariant
                i <= self.scopes.len(),
                given == old(self).scopes@,
                self.scopes.len() == given.len(),
                mapped_by(
                    rw_parts(given).take(i as int),
                    rw_parts(self.scopes@).take(i as int),
                    action_step(f),
                ),
                remade(given.take(i as int), self.scopes@.take(i as int)),
                self.scopes@.skip(i as int) == given.skip(i as int),
                forall|s: &str|
                    rw_parts(given).contains(Part::In(s@)) ==> #[trigger] call_requires(*f, (s,)),
            decreases self.scopes.len() - i,
        {
            let ghost was = self.scopes@;
            assert(was[i as int] == given.skip(i as int)[0]);
            assert(rw_parts(given)[i as int] == was[i as int].part());
            let made = match &self.scopes[i] {
                Scope::In(s) => {
                    let s = super::cow_str(s);
                    assert(rw_parts(given).contains(Part::In(s@)));
                    let res = f(s);
                    assert(action_step(f)(s@, res@));
                    Some(res)
                },
                Scope::Out(_) => None,
            };
            if let Some(res) = made {
                self.scopes[i] = Scope::In(Cow::Owned(res));
            }
            proof {
                let now = self.scopes@;
                assert(now.skip(i + 1) =~= was.skip(i + 1));
                assert(was.skip(i + 1) =~= given.skip(i as int).skip(1));
                assert(now.take(i as int) =~= was.take(i as int));
                let after = now.take(i + 1);
                let before = given.take(i + 1);
                assert forall|j: int| 0 <= j < i + 1 implies match #[trigger] before[j] {
                    Scope::In(_) => after[j] is In && !borrowed(after[j]),
                    Scope::Out(_) => after[j] == before[j],
                } by {
                    if j < i {
                        assert(before[j] == given.take(i as int)[j]);
                        assert(after[j] == now.take(i as int)[j]);
                    }
                }
                let parts_now = rw_parts(now).take(i + 1);
                let parts_was = rw_parts(given).take(i + 1);
                assert forall|j: int| 0 <= j < i + 1 implies match #[trigger] parts_was[j] {
                    Part::In(t) => parts_now[j] is In && action_step(f)(t, parts_now[j].text()),
                    Part::Out(_) => parts_now[j] == parts_was[j],
                } by {
                    if j < i {
                        assert(parts_was[j] == rw_parts(given).take(i as int)[j]);
                        assert(parts_now[j] == rw_parts(was).take(i as int)[j]);
                    }
                }
            }
            i += 1;
        }
        proof {
            assert(self.scopes@.take(self.scopes.len() as int) =~= self.scopes@);
            assert(given.take(self.scopes.len() as int) =~= given);
            assert(rw_parts(self.scopes@).take(self.scopes.len() as int) =~= rw_parts(
                self.scopes@,
            ));
            assert(rw_parts(given).take(self.scopes.len() as int) =~= rw_parts(given));
            lemma_mapped_keeps_out(rw_parts(given), rw_parts(self.scopes@), action_step(f));
        }
        self
    }

    /// Puts the empty string in the place of every in-scope part.
    pub fn delete(&mut self) -> (mapped: &mut Self)
        ensures
            (*mapped)@ == map_with(old(self)@, |t: Seq<char>| Seq::<char>::empty()),
            remade(old(self).scopes(), (*mapped).scopes()),
            joined_out((*mapped)@) == joined_out(old(self)@),
            *final(self) == *final(mapped),
    {
        let ghost before = self@;
        let emptied = |s: &str| -> (r: String)
            ensures
                r@ == Seq::<char>::empty(),
            { String::new() };
        let mapped = self.map(&emptied);
        proof {
            let after = (*mapped)@;
            let exact = map_with(before, |t: Seq<char>| Seq::<char>::empty());
            assert forall|j: int| 0 <= j < before.len() implies after[j] == exact[j] by {
                let part = before[j];
                if part is In {
                    assert(action_step(&emptied)(part.text(), after[j].text()));
                }
            }
            assert(after =~= exact);
        }
        mapped
    }

    /// The scopes themselves, to read and to change.
    pub fn into_inner_mut(&mut self) -> (scopes: &mut RWScopes<'a>)
        ensures
            (*scopes)@ == old(self).scopes(),
            final(self).scopes() == (*final(scopes))@,
    {
        &mut self.scopes
    }

    /// The text of every scope, in order.
    #[must_use]
    pub fn to_string(&self) -> (rendered: String)
        ensures
            rendered@ == joined(self@),
    {
        let mut rendered = String::new();
        let mut i: usize = 0;
        while i < self.scopes.len()
            invariant
                i <= self.scopes.len(),
                rendered@ == joined(self@.take(i as int)),
            decreases self.scopes.len() - i,
        {
            let ghost seen = self@.take(i as int);
            rendered.append(self.scopes[i].as_str());
            proof {
                assert(self@.take(i + 1).drop_last() =~= seen);
                assert(self@.take(i + 1).last() == self.scopes@[i as int].part());
            }
            i += 1;
        }
        assert(self@.take(self.scopes.len() as int) =~= self@);
        rendered
    }
}

} // verus!
