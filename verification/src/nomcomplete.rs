//! Tokenizing a byte slice that is wholly in memory.

use vstd::prelude::*;
use vstd::slice::slice_subrange;
use vstd::slice::slice_to_vec;
use crate::rule::DELIMITER;
use crate::rule::resolves;
use crate::rule::first_token;
use crate::rule::behind_first;
use crate::rule::tokens;
use crate::rule::lemma_prefix_len;
use crate::rule::lemma_prefix_len_is;

verus! {

/// One tokenization step on input that is complete: the bytes before the
/// first delimiter, or all of them where there is none, and what is left
/// behind that delimiter. Empty input holds no token.
pub fn parse_until_null_byte(unparsed_data: &[u8]) -> (found: Option<(&[u8], Vec<u8>)>)
    ensures
        unparsed_data@.len() == 0 ==> found is None,
        unparsed_data@.len() > 0 ==> (found matches Some(pair) && pair.1@ == first_token(
            unparsed_data@,
        ) && pair.0@ == if resolves(unparsed_data@) {
            behind_first(unparsed_data@)
        } else {
            Seq::<u8>::empty()
        }),
{
    if unparsed_data.len() == 0 {
        return None;
    }
    let mut i: usize = 0;
    while i < unparsed_data.len() && unparsed_data[i] != DELIMITER
        invariant
            i <= unparsed_data@.len(),
            forall|j: int| 0 <= j < i ==> unparsed_data@[j] != DELIMITER,
        decreases unparsed_data@.len() - i,
    {
        i = i + 1;
    }
    proof {
        lemma_prefix_len_is(unparsed_data@, i as int);
    }
    let token = slice_to_vec(slice_subrange(unparsed_data, 0, i));
    let behind: usize = if i < unparsed_data.len() {
        i + 1
    } else {
        i
    };
    let rest = slice_subrange(unparsed_data, behind, unparsed_data.len());
    assert(!resolves(unparsed_data@) ==> rest@ =~= Seq::<u8>::empty());
    Some((rest, token))
}

/// A tokenizer over a byte slice: what it holds is the part of the slice that
/// no token has been taken from yet.
pub struct NullDelimitedVectorParser<'a> {
    data: &'a [u8],
}

impl<'a> View for NullDelimitedVectorParser<'a> {
    type V = Seq<u8>;

    closed spec fn view(&self) -> Seq<u8> {
        self.data@
    }
}

impl<'a> NullDelimitedVectorParser<'a> {
    /// A tokenizer at the start of `data`.
    pub fn new(data: &'a [u8]) -> (parser: Self)
        ensures
            parser@ == data@,
    {
        Self { data }
    }

    /// The bytes that no token has been taken from yet.
    pub fn remaining(&self) -> (rest: &'a [u8])
        ensures
            rest@ == self@,
    {
        self.data
    }

    /// The next token, and `None` once nothing is left. The token is the
    /// first token of what was left, and what is left after the call gives
    /// the tokens that follow it.
    pub fn next(&mut self) -> (item: Option<Vec<u8>>)
        ensures
            old(self)@.len() == 0 ==> item is None && final(self)@ == old(self)@,
            old(self)@.len() > 0 ==> (item matches Some(token) && token@ == first_token(old(self)@)
                && tokens(old(self)@) == seq![token@] + tokens(final(self)@)),
            old(self)@.len() > 0 && resolves(old(self)@) ==> final(self)@ == behind_first(
                old(self)@,
            ),
            old(self)@.len() > 0 && !resolves(old(self)@) ==> final(self)@ == Seq::<u8>::empty(),
            item matches Some(token) ==> (!token@.contains(DELIMITER) && final(self)@.len()
                < old(self)@.len()),
    {
        proof {
            lemma_prefix_len(self@);
        }
        match parse_until_null_byte(self.data) {
            None => None,
            Some((rest, token)) => {
                proof {
                    if !resolves(self@) {
                        assert(rest@ =~= Seq::<u8>::empty());
                        assert(token@ =~= self@);
                        assert(seq![token@] + tokens(rest@) =~= seq![token@]);
                    }
                }
                self.data = rest;
                Some(token)
            },
        }
    }
}

} // verus!
