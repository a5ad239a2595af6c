//! Actions: what is done to the parts of a view that are in scope.

use crate::scoping::model::{joined_out, mapped_by, Part};
use crate::scoping::view::{action_step, remade};
use crate::scoping::ScopedView;
use std::fmt::Debug;
use vstd::prelude::*;

verus! {

/// An action in the processing pipeline.
///
/// Actions can be applied in any order, any number of times each.
pub trait Action: Send + Sync + Debug {
    /// Applies the action to one text.
    ///
    /// This is infallible: it cannot fail in the sense of [`Result`].
    fn act(&self, input: &str) -> (output: String);

    /// Applies the action to every in-scope part of `view`, which owns what the
    /// action made afterwards, and forwards the out-of-scope parts unchanged.
    fn map<'viewee, 'a>(&self, view: &'a mut ScopedView<'viewee>) -> (mapped: &'a mut ScopedView<
        'viewee,
    >)
        ensures
            mapped_by(
                old(view)@,
                (*mapped)@,
                |text: Seq<char>, made: Seq<char>|
                    exists|s: &str, r: String|
                        s@ == text && #[trigger] call_ensures(Self::act, (self, s), r) && r@
                            == made,
            ),
            remade(old(view).scopes(), (*mapped).scopes()),
            joined_out((*mapped)@) == joined_out(old(view)@),
            *final(view) == *final(mapped),
    {
        let ghost before = view@;
        let ghost step = |text: Seq<char>, made: Seq<char>|
            exists|s: &str, r: String|
                s@ == text && #[trigger] call_ensures(Self::act, (self, s), r) && r@ == made;
        let run = |s: &str| -> (r: String)
            ensures
                call_ensures(Self::act, (self, s), r),
            { self.act(s) };
        let mapped = view.map(&run);
        proof {
            let after = (*mapped)@;
            assert forall|j: int| 0 <= j < before.len() implies match #[trigger] before[j] {
                Part::In(t) => after[j] is In && step(t, after[j].text()),
                Part::Out(_) => after[j] == before[j],
            } by {
                let part = before[j];
                if part is In {
                    assert(action_step(&run)(part.text(), after[j].text()));
                }
            }
        }
        mapped
    }
}

} // verus!
