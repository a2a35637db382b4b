//! The tee's guarantees over whole sequences of read calls, proved against
//! the one-step model in [`crate::tee`].

use vstd::prelude::*;

use crate::tee::{cutoff, lemma_cutoff_first, lemma_cutoff_none, lemma_cutoff_props, step_output,
    step_state, TeeModel, HOLDBACK_CAPACITY, NEWLINE};

verus! {

/// The abstract state after `k` read calls.
pub open spec fn run_state(m: TeeModel, k: nat) -> TeeModel
    decreases k,
{
    if k == 0 {
        m
    } else {
        step_state(run_state(m, (k - 1) as nat))
    }
}

/// Everything the first `k` read calls hand to the caller, concatenated in
/// call order.
pub open spec fn run_output(m: TeeModel, k: nat) -> Seq<u8>
    decreases k,
{
    if k == 0 {
        Seq::empty()
    } else {
        run_output(m, (k - 1) as nat) + step_output(run_state(m, (k - 1) as nat))
    }
}

/// The concatenation of a sequence of chunks.
pub open spec fn concat_chunks(cs: Seq<Seq<u8>>) -> Seq<u8>
    decreases cs.len(),
{
    if cs.len() == 0 {
        Seq::empty()
    } else {
        cs[0] + concat_chunks(cs.skip(1))
    }
}

/// A chunk with no line terminator in it.
pub open spec fn newline_free(c: Seq<u8>) -> bool {
    forall|j: int| 0 <= j < c.len() ==> c[j] != NEWLINE
}

/// An upstream with no line terminator anywhere.
pub open spec fn all_newline_free(cs: Seq<Seq<u8>>) -> bool {
    forall|i: int| 0 <= i < cs.len() ==> newline_free(#[trigger] cs[i])
}

/// A run unrolls from the front: `k` calls are one call followed by
/// `k - 1` calls from the state it leaves behind.
pub proof fn lemma_run_unroll(m: TeeModel, k: nat)
    requires
        k > 0,
    ensures
        run_state(m, k) == run_state(step_state(m), (k - 1) as nat),
        run_output(m, k) == step_output(m) + run_output(step_state(m), (k - 1) as nat),
    decreases k,
{
    if k == 1 {
        assert(run_output(m, 0) =~= Seq::<u8>::empty());
        assert(run_output(step_state(m), 0) =~= Seq::<u8>::empty());
        assert(run_output(m, 1) =~= step_output(m) + run_output(step_state(m), 0));
    } else {
        lemma_run_unroll(m, (k - 1) as nat);
        assert(run_output(m, k) =~= step_output(m) + run_output(step_state(m), (k - 1) as nat));
    }
}

/// Sink writes are never observed out of order relative to caller-visible
/// reads: after any number of calls, the sink holds exactly what it began
/// with followed by the concatenation, in call order, of every byte handed
/// to the caller. Since this holds of every `k`, it holds at every point
/// in time.
pub proof fn lemma_sink_accumulates_outputs(m: TeeModel, k: nat)
    ensures
        run_state(m, k).sink == m.sink + run_output(m, k),
    decreases k,
{
    if k == 0 {
        assert(m.sink =~= m.sink + Seq::<u8>::empty());
    } else {
        let prev = run_state(m, (k - 1) as nat);
        lemma_sink_accumulates_outputs(m, (k - 1) as nat);
        assert(step_state(prev).sink =~= prev.sink + step_output(prev));
        assert((m.sink + run_output(m, (k - 1) as nat)) + step_output(prev) =~= m.sink
            + run_output(m, k));
    }
}

/// At end of stream a read is a no-op: once the source is exhausted and
/// nothing is held back, a call hands out nothing and leaves the state
/// untouched, however often it is repeated.
pub proof fn lemma_end_of_stream_idempotent(m: TeeModel, k: nat)
    requires
        m.chunks.len() == 0,
        m.holdback.len() == 0,
    ensures
        step_output(m) == Seq::<u8>::empty(),
        run_state(m, k) == m,
    decreases k,
{
    if k > 0 {
        lemma_end_of_stream_idempotent(m, (k - 1) as nat);
    }
}

/// A read served from upstream never hands out bytes past a line
/// terminator: if its output holds one at all, it is the output's last
/// byte, so no byte of the next line reaches caller or sink on this call.
pub proof fn lemma_output_stops_at_terminator(m: TeeModel)
    requires
        m.holdback.len() == 0,
    ensures
        forall|j: int| 0 <= j < step_output(m).len() - 1 ==> step_output(m)[j] != NEWLINE,
{
    if m.chunks.len() > 0 {
        let c = m.chunks[0];
        lemma_cutoff_props(c);
        assert forall|j: int| 0 <= j < step_output(m).len() - 1 implies step_output(m)[j]
            != NEWLINE by {
            assert(step_output(m)[j] == c[j]);
        }
    }
}

/// A chunk that ends exactly on its first line terminator is delivered
/// whole by a single read, with nothing held back, and the sink gains
/// exactly that chunk.
pub proof fn lemma_chunk_ends_on_terminator(m: TeeModel)
    requires
        m.holdback.len() == 0,
        m.chunks.len() > 0,
        m.chunks[0].len() > 0,
        m.chunks[0].last() == NEWLINE,
        forall|j: int| 0 <= j < m.chunks[0].len() - 1 ==> m.chunks[0][j] != NEWLINE,
    ensures
        step_output(m) == m.chunks[0],
        step_state(m).holdback.len() == 0,
        step_state(m).sink == m.sink + m.chunks[0],
{
    let c = m.chunks[0];
    lemma_cutoff_first(c, c.len() - 1);
    assert(c.take(cutoff(c)) =~= c);
}

/// A terminator followed by more data in the same chunk splits it over
/// two reads: the first call delivers and sinks only the line through its
/// terminator, the second delivers the rest, and only then has the whole
/// chunk reached the sink.
pub proof fn lemma_terminator_splits_chunk(m: TeeModel)
    requires
        m.holdback.len() == 0,
        m.chunks.len() > 0,
        cutoff(m.chunks[0]) < m.chunks[0].len(),
        m.chunks[0].len() - cutoff(m.chunks[0]) <= HOLDBACK_CAPACITY,
    ensures
        step_output(m) == m.chunks[0].take(cutoff(m.chunks[0])),
        run_state(m, 1).sink == m.sink + m.chunks[0].take(cutoff(m.chunks[0])),
        step_output(run_state(m, 1)) == m.chunks[0].skip(cutoff(m.chunks[0])),
        run_state(m, 2).sink == m.sink + m.chunks[0],
        run_state(m, 2).chunks == m.chunks.skip(1),
        run_state(m, 2).holdback.len() == 0,
{
    let c = m.chunks[0];
    let cut = cutoff(c);
    lemma_cutoff_props(c);
    let m1 = step_state(m);
    assert(run_state(m, 0) == m);
    assert(run_state(m, 1) == m1);
    assert(m1.holdback =~= c.skip(cut));
    assert(m1.holdback.len() > 0);
    let m2 = step_state(m1);
    assert(run_state(m, 2) == m2);
    assert(m2.sink =~= m.sink + c);
}

/// With no line terminator anywhere upstream, the tee is a transparent
/// pipe: each of the first `k` calls hands back exactly the next upstream
/// chunk, nothing is ever held back, and the sink accumulates exactly the
/// concatenation of the chunks delivered so far.
pub proof fn lemma_no_terminator_passthrough(m: TeeModel, k: nat)
    requires
        m.holdback.len() == 0,
        all_newline_free(m.chunks),
        k <= m.chunks.len(),
    ensures
        forall|i: int| 0 <= i < k ==> step_output(run_state(m, i as nat)) == m.chunks[i],
        run_state(m, k).chunks == m.chunks.skip(k as int),
        run_state(m, k).holdback.len() == 0,
        run_output(m, k) == concat_chunks(m.chunks.take(k as int)),
        run_state(m, k).sink == m.sink + concat_chunks(m.chunks.take(k as int)),
    decreases k,
{
    lemma_sink_accumulates_outputs(m, k);
    if k == 0 {
        assert(run_state(m, 0).chunks =~~= m.chunks.skip(0));
        assert(run_output(m, 0) =~= concat_chunks(m.chunks.take(0)));
    } else {
        let c = m.chunks[0];
        lemma_cutoff_none(c);
        assert(step_output(m) =~= c);
        let m1 = step_state(m);
        assert(m1.holdback =~= Seq::<u8>::empty());
        assert(all_newline_free(m1.chunks));
        lemma_no_terminator_passthrough(m1, (k - 1) as nat);
        lemma_run_unroll(m, k);
        assert(run_state(m, k).chunks =~~= m.chunks.skip(k as int));
        assert(m1.chunks.take(k - 1) =~~= m.chunks.take(k as int).skip(1));
        assert(concat_chunks(m.chunks.take(k as int)) == m.chunks.take(k as int)[0]
            + concat_chunks(m.chunks.take(k as int).skip(1)));
        assert(run_output(m, k) =~= concat_chunks(m.chunks.take(k as int)));
        assert forall|i: int| 0 <= i < k implies step_output(run_state(m, i as nat))
            == m.chunks[i] by {
            if i > 0 {
                lemma_run_unroll(m, i as nat);
                assert(step_output(run_state(m1, (i - 1) as nat)) == m1.chunks[i - 1]);
            }
        }
    }
}

} // verus!
