//! The tokenization rule as mathematics: where the first delimiter of a
//! region lies, which tokens a whole stream consists of, and the facts that
//! follow from the two definitions.

use vstd::prelude::*;

verus! {

/// The sentinel byte that separates tokens.
pub const DELIMITER: u8 = 0;

/// Length of the longest prefix of `r` that holds no delimiter: the position
/// of the first delimiter, or `r.len()` where there is none.
pub open spec fn prefix_len(r: Seq<u8>) -> nat
    decreases r.len(),
{
    if r.len() == 0 || r[0] == DELIMITER {
        0
    } else {
        1 + prefix_len(r.skip(1))
    }
}

/// Whether the region `r` resolves a token: whether it holds a delimiter.
pub open spec fn resolves(r: Seq<u8>) -> bool {
    prefix_len(r) < r.len()
}

/// The bytes of `r` before its first delimiter; all of `r` where it holds
/// none.
pub open spec fn first_token(r: Seq<u8>) -> Seq<u8> {
    r.take(prefix_len(r) as int)
}

/// The bytes of `r` behind its first delimiter.
pub open spec fn behind_first(r: Seq<u8>) -> Seq<u8>
    recommends
        resolves(r),
{
    r.skip(prefix_len(r) + 1 as int)
}

/// How often the delimiter occurs in `s`.
pub open spec fn delimiter_count(s: Seq<u8>) -> nat
    decreases s.len(),
{
    if s.len() == 0 {
        0
    } else if s[0] == DELIMITER {
        1 + delimiter_count(s.skip(1))
    } else {
        delimiter_count(s.skip(1))
    }
}

/// Whether `s` ends in bytes that no delimiter closes.
pub open spec fn ends_open(s: Seq<u8>) -> bool {
    s.len() > 0 && s.last() != DELIMITER
}

/// The tokens of the whole stream `s`: the runs between delimiters, and the
/// bytes after the last delimiter where there are any.
pub open spec fn tokens(s: Seq<u8>) -> Seq<Seq<u8>>
    decreases s.len(),
{
    if s.len() == 0 {
        Seq::empty()
    } else if resolves(s) {
        seq![first_token(s)] + tokens(behind_first(s))
    } else {
        seq![s]
    }
}

/// The tokens `ts` written out again, a delimiter after each but the last,
/// and after the last one too where `closed` holds.
pub open spec fn join(ts: Seq<Seq<u8>>, closed: bool) -> Seq<u8>
    decreases ts.len(),
{
    if ts.len() == 0 {
        Seq::empty()
    } else if ts.len() == 1 {
        if closed {
            ts[0].push(DELIMITER)
        } else {
            ts[0]
        }
    } else {
        ts[0].push(DELIMITER) + join(ts.skip(1), closed)
    }
}

/// `prefix_len(r)` lies within `r`, no byte before it is a delimiter, and the
/// byte at it, where there is one, is a delimiter.
pub proof fn lemma_prefix_len(r: Seq<u8>)
    ensures
        prefix_len(r) <= r.len(),
        forall|j: int| 0 <= j < prefix_len(r) ==> r[j] != DELIMITER,
        prefix_len(r) < r.len() ==> r[prefix_len(r) as int] == DELIMITER,
    decreases r.len(),
{
    if r.len() == 0 || r[0] == DELIMITER {
    } else {
        let t = r.skip(1);
        lemma_prefix_len(t);
        assert forall|j: int| 0 <= j < prefix_len(r) implies r[j] != DELIMITER by {
            if j > 0 {
                assert(r[j] == t[j - 1]);
            }
        }
        if prefix_len(r) < r.len() {
            assert(r[prefix_len(r) as int] == t[prefix_len(t) as int]);
        }
    }
}

/// A position with no delimiter before it, which holds a delimiter or ends
/// the region, is `prefix_len(r)`.
pub proof fn lemma_prefix_len_is(r: Seq<u8>, p: int)
    requires
        0 <= p <= r.len(),
        forall|j: int| 0 <= j < p ==> r[j] != DELIMITER,
        p < r.len() ==> r[p] == DELIMITER,
    ensures
        prefix_len(r) == p,
{
    lemma_prefix_len(r);
    let q = prefix_len(r) as int;
    if q < p {
        assert(r[q] == DELIMITER);
    } else if p < q {
        assert(r[p] == DELIMITER);
    }
}

/// Bytes that arrive behind a region move its first delimiter only if it had
/// none.
pub proof fn lemma_prefix_len_append(a: Seq<u8>, b: Seq<u8>)
    ensures
        prefix_len(a) < a.len() ==> prefix_len(a + b) == prefix_len(a),
        prefix_len(a) == a.len() ==> prefix_len(a + b) == a.len() + prefix_len(b),
{
    lemma_prefix_len(a);
    lemma_prefix_len(b);
    let s = a + b;
    if prefix_len(a) < a.len() {
        let p = prefix_len(a) as int;
        assert forall|j: int| 0 <= j < p implies s[j] != DELIMITER by {
            assert(s[j] == a[j]);
        }
        assert(s[p] == a[p]);
        lemma_prefix_len_is(s, p);
    } else {
        let p = (a.len() + prefix_len(b)) as int;
        assert forall|j: int| 0 <= j < p implies s[j] != DELIMITER by {
            if j < a.len() {
                assert(s[j] == a[j]);
            } else {
                assert(s[j] == b[j - a.len()]);
            }
        }
        if p < s.len() {
            assert(s[p] == b[p - a.len()]);
        }
        lemma_prefix_len_is(s, p);
    }
}

/// A token that a region resolves is the first token of every stream that
/// the region begins, and the rest of that stream gives the tokens after it.
pub proof fn lemma_tokens_resolved(a: Seq<u8>, b: Seq<u8>)
    requires
        resolves(a),
    ensures
        tokens(a + b) == seq![first_token(a)] + tokens(behind_first(a) + b),
{
    let p = prefix_len(a) as int;
    let s = a + b;
    lemma_prefix_len_append(a, b);
    assert(s.take(p) =~= a.take(p));
    assert(s.skip(p + 1) =~= a.skip(p + 1) + b);
}

/// The delimiters of a stream are its first one and those behind it; a
/// stream whose delimiter-free prefix is all of it holds none.
pub proof fn lemma_count_behind_first(s: Seq<u8>)
    ensures
        resolves(s) ==> delimiter_count(s) == 1 + delimiter_count(behind_first(s)),
        !resolves(s) ==> delimiter_count(s) == 0,
    decreases s.len(),
{
    lemma_prefix_len(s);
    if s.len() == 0 {
    } else if s[0] == DELIMITER {
    } else {
        let t = s.skip(1);
        lemma_count_behind_first(t);
        if prefix_len(s) < s.len() {
            assert(t.skip(prefix_len(t) + 1 as int) =~= s.skip(prefix_len(s) + 1 as int));
        }
    }
}

/// Progress: a stream in which the delimiter occurs `k` times has `k`
/// tokens, and one more exactly where bytes follow its last delimiter (or it
/// holds bytes and no delimiter at all).
pub proof fn lemma_token_count(s: Seq<u8>)
    ensures
        tokens(s).len() == delimiter_count(s) + (if ends_open(s) {
            1nat
        } else {
            0nat
        }),
    decreases s.len(),
{
    lemma_prefix_len(s);
    lemma_count_behind_first(s);
    let p = prefix_len(s) as int;
    if s.len() > 0 && p < s.len() {
        let rest = s.skip(p + 1);
        lemma_token_count(rest);
        if rest.len() > 0 {
            assert(rest.last() == s.last());
        }
    }
}

/// Delimiter consumption: no token of a stream holds the delimiter.
pub proof fn lemma_tokens_hold_no_delimiter(s: Seq<u8>)
    ensures
        forall|i: int, j: int|
            0 <= i < tokens(s).len() && 0 <= j < tokens(s)[i].len() ==> #[trigger] tokens(
                s,
            )[i][j] != DELIMITER,
    decreases s.len(),
{
    lemma_prefix_len(s);
    let p = prefix_len(s) as int;
    if s.len() > 0 && p < s.len() {
        let rest = s.skip(p + 1);
        lemma_tokens_hold_no_delimiter(rest);
        assert forall|i: int, j: int|
            0 <= i < tokens(s).len() && 0 <= j < tokens(s)[i].len() implies #[trigger] tokens(
            s,
        )[i][j] != DELIMITER by {
            if i == 0 {
                assert(tokens(s)[0] == s.take(p));
            } else {
                assert(tokens(s)[i] == tokens(rest)[i - 1]);
            }
        }
    }
}

/// Order preservation: the tokens of a stream, written out with a delimiter
/// between them, and one after the last where the stream ends in a
/// delimiter, are the stream.
pub proof fn lemma_join_tokens(s: Seq<u8>)
    ensures
        join(tokens(s), s.len() > 0 && s.last() == DELIMITER) == s,
    decreases s.len(),
{
    lemma_prefix_len(s);
    let p = prefix_len(s) as int;
    let closed = s.len() > 0 && s.last() == DELIMITER;
    if s.len() == 0 {
    } else if p < s.len() {
        let rest = s.skip(p + 1);
        lemma_join_tokens(rest);
        if rest.len() == 0 {
            assert(tokens(s) =~= seq![s.take(p)]);
            assert(s.take(p).push(DELIMITER) =~= s);
        } else {
            assert(rest.last() == s.last());
            assert(tokens(rest).len() >= 1);
            assert(tokens(s).skip(1) =~= tokens(rest));
            assert(s.take(p).push(DELIMITER) + rest =~= s);
        }
    } else {
        assert(s[s.len() - 1] != DELIMITER);
    }
}

/// What a tokenizer emits when a source delivers `chunks` one by one and
/// then ends: the tokens of their bytes taken together.
pub open spec fn emitted_from(chunks: Seq<Seq<u8>>) -> Seq<Seq<u8>> {
    tokens(chunks.flatten())
}

/// Chunk-size independence: two ways of cutting one stream into chunks give
/// the same tokens.
pub proof fn lemma_chunking_does_not_show(a: Seq<Seq<u8>>, b: Seq<Seq<u8>>)
    requires
        a.flatten() == b.flatten(),
    ensures
        emitted_from(a) == emitted_from(b),
{
}

/// A stream delivered as one chunk gives the tokens that it gives when
/// delivered byte by byte.
pub proof fn lemma_one_chunk_or_single_bytes(s: Seq<u8>)
    ensures
        emitted_from(seq![s]) == emitted_from(Seq::new(s.len(), |i: int| seq![s[i]])),
{
    lemma_single_bytes_flatten(s);
    seq![s].lemma_flatten_one_element();
    assert(seq![s].first() == s);
}

/// The bytes of a stream, each a chunk of its own, flatten to the stream.
pub proof fn lemma_single_bytes_flatten(s: Seq<u8>)
    ensures
        Seq::new(s.len(), |i: int| seq![s[i]]).flatten() == s,
    decreases s.len(),
{
    let bytes = Seq::new(s.len(), |i: int| seq![s[i]]);
    if s.len() > 0 {
        let t = s.skip(1);
        lemma_single_bytes_flatten(t);
        assert(bytes.drop_first() =~= Seq::new(t.len(), |i: int| seq![t[i]]));
        assert(bytes.first() + t =~= s);
    } else {
        assert(bytes.flatten() =~= s);
    }
}

/// Memory bound: a region that resolves no token, with one chunk behind it,
/// is no longer than the chunk and the token that the region begins,
/// whatever the stream brings after the chunk.
pub proof fn lemma_buffer_bound(pending: Seq<u8>, chunk: Seq<u8>, later: Seq<u8>)
    requires
        !resolves(pending),
        pending.len() + chunk.len() + later.len() > 0,
    ensures
        tokens(pending + chunk + later).len() > 0,
        (pending + chunk).len() <= tokens(pending + chunk + later)[0].len() + chunk.len(),
{
    let s = pending + chunk + later;
    assert(s =~= pending + (chunk + later));
    lemma_prefix_len(pending);
    lemma_prefix_len_append(pending, chunk + later);
    lemma_prefix_len(s);
}

} // verus!
