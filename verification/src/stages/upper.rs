//! Rendering in uppercase.

use crate::actions::Action;
use crate::text::{
    byte_len, bytes_of, is_boundary, lemma_slice_empty, lemma_slices_join, lemma_whole_slice,
    next_cut, slice, slice_of,
};
use vstd::prelude::*;
use vstd::string::*;

verus! {

/// `text` with `to` in the place of every `from`.
pub open spec fn replaced(text: Seq<char>, from: char, to: Seq<char>) -> Seq<char>
    decreases text.len(),
{
    if text.len() == 0 {
        Seq::empty()
    } else if text.last() == from {
        replaced(text.drop_last(), from, to) + to
    } else {
        replaced(text.drop_last(), from, to).push(text.last())
    }
}

/// The uppercase equivalent of a text, as `str::to_uppercase` of std gives it.
pub uninterp spec fn uppercased(text: Seq<char>) -> Seq<char>;

/// What [`UpperStage`] makes of a text: the small sharp s gives way to the
/// capital one, then all is put in uppercase.
pub open spec fn upper_of(text: Seq<char>) -> Seq<char> {
    uppercased(replaced(text, 'ß', seq!['ẞ']))
}

/// `input` with `to` in the place of every `from`, all else as it was.
pub fn replace_char(input: &str, from: char, to: &str) -> (output: String)
    ensures
        output@ == replaced(input@, from, to@),
{
    let len = byte_len(input);
    let mut output = String::new();
    let mut at: usize = 0;
    proof {
        lemma_whole_slice(input@);
        lemma_slice_empty(input@, 0, 0);
        assert(slice_of(input@, 0, 0) =~= Seq::<char>::empty());
    }
    while at < len
        invariant
            at <= len,
            len == bytes_of(input@).len(),
            is_boundary(input@, 0),
            is_boundary(input@, at as int),
            output@ == replaced(slice_of(input@, 0, at as int), from, to@),
        decreases len - at,
    {
        let next = next_cut(input, at);
        let piece = slice(input, at, next);
        let ghost seen = slice_of(input@, 0, at as int);
        proof {
            lemma_slices_join(input@, 0, at as int, next as int);
            assert(piece@ =~= seq![piece@[0]]);
            assert((seen + piece@).drop_last() =~= seen);
        }
        if piece.get_char(0) == from {
            output.append(to);
        } else {
            output.append(piece);
        }
        at = next;
    }
    output
}

/// Calls `str::to_uppercase` of std. Its result is a function of the text
/// alone, which [`uppercased`] names.
#[verifier::external_body]
fn to_uppercase(input: &str) -> (output: String)
    ensures
        output@ == uppercased(input@),
{
    input.to_uppercase()
}

/// Renders in uppercase.
#[derive(Debug, Clone, Copy, PartialEq, Eq, Default)]
pub struct UpperStage {}

impl UpperStage {
    /// `input` in uppercase. The small sharp s, which Unicode sends to two
    /// letters, becomes the capital sharp s.
    pub fn substitute(&self, input: &str) -> (output: String)
        ensures
            output@ == upper_of(input@),
    {
        proof {
            reveal_strlit("ẞ");
            assert("ẞ"@ =~= seq!['ẞ']);
        }
        let sharp = replace_char(input, 'ß', "ẞ");
        to_uppercase(sharp.as_str())
    }
}

impl Action for UpperStage {
    fn act(&self, input: &str) -> (output: String)
        ensures
            output@ == upper_of(input@),
    {
        self.substitute(input)
    }
}

} // verus!
