//! The incremental tokenizer: a buffer of bytes that have arrived and are not
//! yet emitted, the step that resolves one token from it, and the decisions
//! between two fetches from a chunk source.

use vstd::prelude::*;
use vstd::slice::slice_subrange;
use vstd::slice::slice_to_vec;
use crate::rule::DELIMITER;
use crate::rule::prefix_len;
use crate::rule::resolves;
use crate::rule::first_token;
use crate::rule::behind_first;
use crate::rule::tokens;
use crate::rule::emitted_from;
use crate::rule::lemma_prefix_len;
use crate::rule::lemma_prefix_len_is;
use crate::rule::lemma_tokens_resolved;

verus! {

/// What one tokenization step finds in a region.
#[derive(Debug, PartialEq, Eq)]
pub enum Scan {
    /// A delimiter was found: the bytes before it, and how far the cursor
    /// moves to stand behind it.
    Resolved(Vec<u8>, usize),
    /// No delimiter in the region: more bytes are needed.
    Incomplete,
}

/// The answer of a chunk source to one fetch.
#[derive(Debug, PartialEq, Eq)]
pub enum Fetch {
    /// The next bytes of the stream.
    Chunk(Vec<u8>),
    /// The stream has ended.
    EndOfData,
    /// The fetch itself failed.
    Failed,
}

/// What the tokenizer does next.
#[derive(Debug, PartialEq, Eq)]
pub enum Step {
    /// The next token of the stream.
    Token(Vec<u8>),
    /// The buffer resolves no token and the source has not ended: fetch once
    /// and hand the answer to `accept`.
    NeedChunk,
    /// The stream has ended and every token was emitted.
    End,
}

/// The failure of a fetch, handed on to the tokenizer's caller.
#[derive(Debug, Clone, Copy, PartialEq, Eq)]
pub enum TokenizerError {
    SourceUnavailable,
}

/// The size of the chunks in which a file is read.
pub const CHUNK_SIZE: usize = 8;

/// The answer of a source that reads into `buffer`, made from what the read
/// reported: `None` for a read that failed, else the number of bytes that it
/// put at the start of `buffer`. A read of no bytes is the end of the data;
/// any other gives those bytes as a chunk.
pub fn fetched(buffer: Vec<u8>, read: Option<usize>) -> (answer: Fetch)
    ensures
        read is None ==> answer is Failed,
        read == Some(0usize) ==> answer is EndOfData,
        read matches Some(n) ==> (n > 0 ==> (answer matches Fetch::Chunk(chunk) && chunk@
            == buffer@.take(vstd::math::min(n as int, buffer@.len() as int)))),
{
    match read {
        None => Fetch::Failed,
        Some(n) => {
            if n == 0 {
                Fetch::EndOfData
            } else {
                let mut chunk = buffer;
                chunk.truncate(n);
                assert(chunk@ =~= buffer@.take(vstd::math::min(n as int, buffer@.len() as int)));
                Fetch::Chunk(chunk)
            }
        },
    }
}

/// One tokenization step on the region `unparsed_data`: the bytes before its
/// first delimiter and the distance to the byte behind that delimiter, or
/// `Incomplete` where the region holds no delimiter.
pub fn parse_until_null_byte(unparsed_data: &[u8]) -> (found: Scan)
    ensures
        resolves(unparsed_data@) ==> (found matches Scan::Resolved(token, advance) && token@
            == first_token(unparsed_data@) && advance == prefix_len(unparsed_data@) + 1),
        !resolves(unparsed_data@) ==> found is Incomplete,
        found matches Scan::Resolved(token, advance) ==> !token@.contains(DELIMITER),
{
    let mut i: usize = 0;
    while i < unparsed_data.len()
        invariant
            i <= unparsed_data@.len(),
            forall|j: int| 0 <= j < i ==> unparsed_data@[j] != DELIMITER,
        decreases unparsed_data@.len() - i,
    {
        if unparsed_data[i] == DELIMITER {
            proof {
                lemma_prefix_len_is(unparsed_data@, i as int);
            }
            let token = slice_to_vec(slice_subrange(unparsed_data, 0, i));
            return Scan::Resolved(token, i + 1);
        }
        i = i + 1;
    }
    proof {
        lemma_prefix_len_is(unparsed_data@, i as int);
    }
    Scan::Incomplete
}

/// The state of an incremental tokenizer between two steps.
pub struct NullDelimitedVectorParser {
    parsing_data: Vec<u8>,
    unparsed_data_offset: usize,
    exhausted: bool,
}

impl NullDelimitedVectorParser {
    #[verifier::type_invariant]
    spec fn cursor_in_buffer(&self) -> bool {
        self.unparsed_data_offset <= self.parsing_data@.len()
    }

    /// The whole buffer, with the bytes before the cursor that it still holds.
    pub closed spec fn buffer(&self) -> Seq<u8> {
        self.parsing_data@
    }

    /// Where in the buffer the unscanned region begins.
    pub closed spec fn cursor(&self) -> nat {
        self.unparsed_data_offset as nat
    }

    /// The unscanned region: the bytes that have arrived and belong to no
    /// token emitted so far.
    pub open spec fn pending(&self) -> Seq<u8> {
        self.buffer().skip(self.cursor() as int)
    }

    /// Whether the source has reported the end of the stream.
    pub closed spec fn exhausted(&self) -> bool {
        self.exhausted
    }

    /// A tokenizer that has received nothing yet.
    pub fn new() -> (parser: Self)
        ensures
            parser.buffer() == Seq::<u8>::empty(),
            parser.cursor() == 0,
            !parser.exhausted(),
    {
        Self { parsing_data: Vec::new(), unparsed_data_offset: 0, exhausted: false }
    }

    /// The unscanned region.
    pub fn get_slice(&self) -> (slice: &[u8])
        ensures
            slice@ == self.pending(),
            self.cursor() <= self.buffer().len(),
            slice@.len() == self.buffer().len() - self.cursor(),
    {
        proof {
            use_type_invariant(self);
        }
        slice_subrange(
            self.parsing_data.as_slice(),
            self.unparsed_data_offset,
            self.parsing_data.len(),
        )
    }

    /// Where in the buffer its tail `slice` begins.
    pub fn get_slice_offset(&self, slice: &[u8]) -> (offset: usize)
        requires
            slice@.len() <= self.buffer().len(),
            slice@ == self.buffer().skip(self.buffer().len() - slice@.len()),
        ensures
            offset == self.buffer().len() - slice@.len(),
            self.buffer().skip(offset as int) == slice@,
    {
        self.parsing_data.len() - slice.len()
    }

    /// Whether the source has reported the end of the stream.
    pub fn is_exhausted(&self) -> (flag: bool)
        ensures
            flag == self.exhausted(),
    {
        self.exhausted
    }

    /// How many bytes the buffer holds.
    pub fn buffer_len(&self) -> (n: usize)
        ensures
            n == self.buffer().len(),
    {
        self.parsing_data.len()
    }

    /// Decides what comes next from the buffer alone. A delimiter in the
    /// unscanned region resolves a token and moves the cursor behind that
    /// delimiter. Without one, a source that has not ended is to be asked
    /// again; after its end the bytes that are left are the last token, and
    /// nothing left is the end of the sequence. The buffer itself stays as it
    /// is.
    pub fn poll(&mut self) -> (step: Step)
        ensures
            final(self).exhausted() == old(self).exhausted(),
            final(self).buffer() == old(self).buffer(),
            final(self).cursor() <= final(self).buffer().len(),
            resolves(old(self).pending()) ==> (step matches Step::Token(t) && t@ == first_token(
                old(self).pending(),
            ) && final(self).pending() == behind_first(old(self).pending()) && final(self).cursor()
                == old(self).cursor() + prefix_len(old(self).pending()) + 1),
            !resolves(old(self).pending()) && !old(self).exhausted() ==> (step is NeedChunk
                && final(self).cursor() == old(self).cursor()),
            !resolves(old(self).pending()) && old(self).exhausted() && old(self).pending().len()
                > 0 ==> (step matches Step::Token(t) && t@ == old(self).pending() && final(self).cursor() == old(self).buffer().len()),
            old(self).exhausted() && old(self).pending().len() == 0 ==> (step is End && final(self).cursor() == old(self).cursor()),
            step matches Step::Token(t) ==> (!t@.contains(DELIMITER) && final(self).pending().len()
                < old(self).pending().len()),
    {
        proof {
            use_type_invariant(&*self);
            lemma_prefix_len(self.pending());
        }
        match parse_until_null_byte(self.get_slice()) {
            Scan::Resolved(token, advance) => {
                assert(self.buffer().skip(self.cursor() + advance) =~= self.pending().skip(
                    advance as int,
                ));
                let unparsed = self.get_slice();
                let rest = slice_subrange(unparsed, advance, unparsed.len());
                assert(rest@ == self.buffer().skip(self.buffer().len() - rest@.len()));
                let offset = self.get_slice_offset(rest);
                self.unparsed_data_offset = offset;
                Step::Token(token)
            },
            Scan::Incomplete => {
                if !self.exhausted {
                    Step::NeedChunk
                } else if self.unparsed_data_offset < self.parsing_data.len() {
                    let token = slice_to_vec(self.get_slice());
                    self.unparsed_data_offset = self.parsing_data.len();
                    Step::Token(token)
                } else {
                    Step::End
                }
            },
        }
    }

    /// Takes in the answer of the source to one fetch. A chunk goes behind
    /// the unscanned region, and the bytes before the cursor are dropped, so
    /// that the buffer holds the unscanned region and the chunk and no more.
    /// The end of the data is recorded. A failed fetch changes nothing and is
    /// handed on as an error.
    pub fn accept(&mut self, event: Fetch) -> (taken: Result<(), TokenizerError>)
        ensures
            final(self).cursor() <= final(self).buffer().len(),
            event matches Fetch::Chunk(chunk) ==> (taken is Ok && final(self).buffer() == old(self).pending() + chunk@ && final(self).cursor() == 0 && final(self).exhausted() == old(self).exhausted()),
            event is EndOfData ==> (taken is Ok && final(self).buffer() == old(self).buffer()
                && final(self).cursor() == old(self).cursor() && final(self).exhausted()),
            event is Failed ==> (taken == Err::<(), TokenizerError>(
                TokenizerError::SourceUnavailable,
            ) && final(self).buffer() == old(self).buffer() && final(self).cursor() == old(self).cursor() && final(self).exhausted() == old(self).exhausted()),
    {
        proof {
            use_type_invariant(&*self);
        }
        match event {
            Fetch::Chunk(chunk) => {
                let mut chunk = chunk;
                let mut joined = slice_to_vec(self.get_slice());
                joined.append(&mut chunk);
                self.unparsed_data_offset = 0;
                self.parsing_data = joined;
                assert(self.parsing_data@.skip(0) =~= self.parsing_data@);
                Ok(())
            },
            Fetch::EndOfData => {
                self.exhausted = true;
                Ok(())
            },
            Fetch::Failed => Err(TokenizerError::SourceUnavailable),
        }
    }
}

/// The views of the byte vectors in `vs`, in their order.
pub open spec fn views(vs: Seq<Vec<u8>>) -> Seq<Seq<u8>> {
    vs.map_values(|v: Vec<u8>| v@)
}

/// Runs a tokenizer over a source that delivers `chunks` one by one and then
/// ends, and collects what it emits. The result is the tokens of the bytes of
/// all chunks taken together: where one chunk ends and the next begins does
/// not show in it.
pub fn tokenize_chunks(chunks: &Vec<Vec<u8>>) -> (emitted: Vec<Vec<u8>>)
    ensures
        views(emitted@) == emitted_from(views(chunks@)),
{
    let mut parser = NullDelimitedVectorParser::new();
    let mut emitted: Vec<Vec<u8>> = Vec::new();
    let mut delivered: usize = 0;
    proof {
        assert(views(chunks@).skip(0) =~= views(chunks@));
        assert(parser.pending() + views(chunks@).flatten() =~= views(chunks@).flatten());
        assert(views(emitted@) =~= Seq::<Seq<u8>>::empty());
    }
    loop
        invariant
            delivered <= chunks@.len(),
            parser.exhausted() ==> delivered == chunks@.len(),
            tokens(views(chunks@).flatten()) == views(emitted@) + tokens(
                parser.pending() + views(chunks@).skip(delivered as int).flatten(),
            ),
        ensures
            views(emitted@) == tokens(views(chunks@).flatten()),
        decreases
            chunks@.len() - delivered,
            if parser.exhausted() { 0int } else { 1int },
            parser.pending().len(),
    {
        let ghost pending = parser.pending();
        let ghost ahead = views(chunks@).skip(delivered as int);
        let ghost before = views(emitted@);
        proof {
            lemma_prefix_len(pending);
        }
        match parser.poll() {
            Step::Token(token) => {
                proof {
                    if prefix_len(pending) < pending.len() {
                        lemma_tokens_resolved(pending, ahead.flatten());
                    } else {
                        assert(ahead.flatten() =~= Seq::<u8>::empty());
                        assert(pending + ahead.flatten() =~= pending);
                        assert(parser.pending() + ahead.flatten() =~= Seq::<u8>::empty());
                    }
                }
                emitted.push(token);
                assert(views(emitted@) =~= before.push(token@));
            },
            Step::NeedChunk => {
                if delivered < chunks.len() {
                    let chunk = slice_to_vec(chunks[delivered].as_slice());
                    let _ = parser.accept(Fetch::Chunk(chunk));
                    proof {
                        assert(ahead.drop_first() =~= views(chunks@).skip(delivered + 1));
                        assert(ahead.first() == chunk@);
                        assert(parser.pending() + ahead.drop_first().flatten() =~= pending
                            + ahead.flatten());
                    }
                    delivered = delivered + 1;
                } else {
                    let _ = parser.accept(Fetch::EndOfData);
                }
            },
            Step::End => {
                proof {
                    assert(ahead.flatten() =~= Seq::<u8>::empty());
                    assert(pending + ahead.flatten() =~= Seq::<u8>::empty());
                }
                break ;
            },
        }
    }
    emitted
}

} // verus!
