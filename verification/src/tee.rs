//! The line-synchronized tee and its mathematical model.

use vstd::prelude::*;

verus! {

/// The line terminator the tee synchronizes on.
pub const NEWLINE: u8 = 0x0A;

/// Upper bound on how many bytes past a line terminator one read call
/// keeps back for the next call; bytes beyond it are dropped.
pub const HOLDBACK_CAPACITY: usize = 8192;

/// How many bytes of a freshly read chunk one call delivers: everything up
/// to and including the first line terminator, or the whole chunk when it
/// holds no terminator.
pub open spec fn cutoff(s: Seq<u8>) -> int
    decreases s.len(),
{
    if s.len() == 0 {
        0
    } else if s[0] == NEWLINE {
        1
    } else {
        1 + cutoff(s.skip(1))
    }
}

/// The delivered prefix of a chunk lies within the chunk, holds no
/// terminator before its last byte, and ends on the terminator whenever
/// one is left behind.
pub proof fn lemma_cutoff_props(s: Seq<u8>)
    ensures
        0 <= cutoff(s) <= s.len(),
        cutoff(s) == 0 <==> s.len() == 0,
        forall|j: int| 0 <= j < cutoff(s) - 1 ==> s[j] != NEWLINE,
        cutoff(s) < s.len() ==> s[cutoff(s) - 1] == NEWLINE,
    decreases s.len(),
{
    if s.len() == 0 {
    } else if s[0] == NEWLINE {
    } else {
        assert(forall|j: int| 0 <= j < s.skip(1).len() ==> s.skip(1)[j] == s[j + 1]);
        lemma_cutoff_props(s.skip(1));
        assert forall|j: int| 0 <= j < cutoff(s) - 1 implies s[j] != NEWLINE by {
            if j > 0 {
                assert(s.skip(1)[j - 1] != NEWLINE);
            }
        }
        if cutoff(s) < s.len() {
            let c1 = cutoff(s.skip(1));
            assert(c1 >= 1);
            assert(s.skip(1)[c1 - 1] == NEWLINE);
            assert(s[cutoff(s) - 1] == NEWLINE);
        }
    }
}

/// A chunk without a terminator is delivered whole.
pub proof fn lemma_cutoff_none(s: Seq<u8>)
    requires
        forall|j: int| 0 <= j < s.len() ==> s[j] != NEWLINE,
    ensures
        cutoff(s) == s.len(),
    decreases s.len(),
{
    if s.len() == 0 {
    } else {
        assert(forall|j: int| 0 <= j < s.skip(1).len() ==> s.skip(1)[j] == s[j + 1]);
        lemma_cutoff_none(s.skip(1));
    }
}

/// The first terminator fixes the cut: everything through it is delivered.
pub proof fn lemma_cutoff_first(s: Seq<u8>, i: int)
    requires
        0 <= i < s.len(),
        s[i] == NEWLINE,
        forall|j: int| 0 <= j < i ==> s[j] != NEWLINE,
    ensures
        cutoff(s) == i + 1,
    decreases i,
{
    if i == 0 {
    } else {
        assert(forall|j: int| 0 <= j < s.skip(1).len() ==> s.skip(1)[j] == s[j + 1]);
        lemma_cutoff_first(s.skip(1), i - 1);
    }
}

/// Scans a chunk for the first line terminator and returns how many bytes
/// of it one read call delivers.
pub fn line_cutoff(chunk: &[u8]) -> (c: usize)
    ensures
        c == cutoff(chunk@),
{
    let n = chunk.len();
    let mut i: usize = 0;
    while i < n
        invariant
            0 <= i <= n,
            n == chunk@.len(),
            forall|j: int| 0 <= j < i ==> chunk@[j] != NEWLINE,
        decreases n - i,
    {
        if *vstd::slice::slice_index_get(chunk, i) == NEWLINE {
            proof {
                lemma_cutoff_first(chunk@, i as int);
            }
            return i + 1;
        }
        i += 1;
    }
    proof {
        lemma_cutoff_none(chunk@);
    }
    n
}

/// The abstract state of a tee: the chunks the upstream source has yet to
/// produce, the bytes held back from the caller since the last read, and
/// the bytes the sink has accumulated.
#[verifier::ext_equal]
pub ghost struct TeeModel {
    pub chunks: Seq<Seq<u8>>,
    pub holdback: Seq<u8>,
    pub sink: Seq<u8>,
}

/// How many of a chunk's bytes past the cut one read call keeps back:
/// all of them, up to the holdback capacity.
pub open spec fn saved_len(c: Seq<u8>) -> int {
    if c.len() - cutoff(c) < HOLDBACK_CAPACITY {
        c.len() - cutoff(c)
    } else {
        HOLDBACK_CAPACITY as int
    }
}

/// The bytes one read call hands to the caller (and appends to the sink):
/// the whole holdback when there is one, otherwise the next chunk up to
/// and including its first line terminator, or nothing at end of stream.
pub open spec fn step_output(m: TeeModel) -> Seq<u8> {
    if m.holdback.len() > 0 {
        m.holdback
    } else if m.chunks.len() == 0 {
        Seq::empty()
    } else {
        m.chunks[0].take(cutoff(m.chunks[0]))
    }
}

/// The state after one read call: a replayed holdback is cleared, a fresh
/// chunk is consumed with its post-terminator tail held back, and the
/// output is appended to the sink; at end of stream nothing changes.
pub open spec fn step_state(m: TeeModel) -> TeeModel {
    if m.holdback.len() > 0 {
        TeeModel { chunks: m.chunks, holdback: Seq::empty(), sink: m.sink + m.holdback }
    } else if m.chunks.len() == 0 {
        m
    } else {
        let c = m.chunks[0];
        TeeModel {
            chunks: m.chunks.skip(1),
            holdback: c.skip(cutoff(c)).take(saved_len(c)),
            sink: m.sink + c.take(cutoff(c)),
        }
    }
}

/// The smallest caller buffer one read call can work with: the holdback
/// being replayed, or the whole next chunk, which is staged in the
/// caller's buffer before the cut is taken.
pub open spec fn needed(m: TeeModel) -> int {
    if m.holdback.len() > 0 {
        m.holdback.len() as int
    } else if m.chunks.len() == 0 {
        0
    } else {
        m.chunks[0].len() as int
    }
}

/// A line-synchronized duplicating stream reader over an in-memory source
/// and sink.
///
/// The source is a queue of byte chunks, each one the result of a single
/// upstream read; the sink is a byte vector that stands for the
/// downstream consumer, every write to which is taken as durably flushed.
pub struct Tee {
    reader: Vec<Vec<u8>>,
    next: usize,
    writer: Vec<u8>,
    holdback: Vec<u8>,
    delivered: Ghost<Seq<u8>>,
    sink_start: Ghost<Seq<u8>>,
}

impl View for Tee {
    type V = TeeModel;

    closed spec fn view(&self) -> TeeModel {
        TeeModel {
            chunks: self.reader.deep_view().skip(self.next as int),
            holdback: self.holdback@,
            sink: self.writer@,
        }
    }
}

impl Tee {
    /// Every byte the caller has ever been handed, in call order.
    pub closed spec fn delivered(self) -> Seq<u8> {
        self.delivered@
    }

    /// What the sink already held when the tee was built.
    pub closed spec fn sink_start(self) -> Seq<u8> {
        self.sink_start@
    }

    /// The tee's invariant. Beyond bookkeeping bounds it carries the
    /// synchronization guarantee itself: the sink holds exactly its
    /// initial content followed by every byte ever handed to the caller,
    /// so sink and caller agree at every point in time.
    pub closed spec fn wf(self) -> bool {
        &&& self.next <= self.reader@.len()
        &&& self.holdback@.len() <= HOLDBACK_CAPACITY
        &&& self.writer@ == self.sink_start@ + self.delivered@
    }

    /// The synchronization guarantee, read off the invariant: the sink's
    /// content is always the concatenation of everything handed to the
    /// caller so far, after whatever it started with.
    pub proof fn lemma_sink_synchronized(self)
        requires
            self.wf(),
        ensures
            self@.sink == self.sink_start() + self.delivered(),
    {
    }

    /// Builds a tee that will serve the given chunks and duplicate
    /// everything it serves onto the given sink.
    pub fn new(reader: Vec<Vec<u8>>, writer: Vec<u8>) -> (t: Tee)
        ensures
            t.wf(),
            t@.chunks == reader.deep_view(),
            t@.holdback == Seq::<u8>::empty(),
            t@.sink == writer@,
            t.delivered() == Seq::<u8>::empty(),
            t.sink_start() == writer@,
    {
        let ghost sink0 = writer@;
        let t = Tee {
            reader,
            next: 0,
            writer,
            holdback: Vec::new(),
            delivered: Ghost(Seq::empty()),
            sink_start: Ghost(sink0),
        };
        proof {
            assert(t@.chunks =~= t.reader.deep_view());
            assert(t.writer@ =~= t.sink_start@ + t.delivered@);
        }
        t
    }

    /// Appends bytes to the sink. The in-memory sink counts every byte
    /// appended as durably flushed, so this is the model of "write and
    /// flush" in one step.
    pub fn write(&mut self, bytes: &[u8])
        ensures
            final(self)@.sink == old(self)@.sink + bytes@,
            final(self)@.chunks == old(self)@.chunks,
            final(self)@.holdback == old(self)@.holdback,
            final(self).delivered() == old(self).delivered(),
            final(self).sink_start() == old(self).sink_start(),
    {
        self.append_sink(bytes);
    }

    /// The write primitive itself, with its effect stated field by field
    /// so `read` can keep track of the rest of its own state around it.
    fn append_sink(&mut self, bytes: &[u8])
        ensures
            final(self).writer@ == old(self).writer@ + bytes@,
            final(self).reader == old(self).reader,
            final(self).next == old(self).next,
            final(self).holdback == old(self).holdback,
            final(self).delivered == old(self).delivered,
            final(self).sink_start == old(self).sink_start,
    {
        let n = bytes.len();
        let mut i: usize = 0;
        while i < n
            invariant
                0 <= i <= n,
                n == bytes@.len(),
                self.writer@ == old(self).writer@ + bytes@.take(i as int),
                self.reader == old(self).reader,
                self.next == old(self).next,
                self.holdback == old(self).holdback,
                self.delivered == old(self).delivered,
                self.sink_start == old(self).sink_start,
            decreases n - i,
        {
            let b = *vstd::slice::slice_index_get(bytes, i);
            self.writer.push(b);
            proof {
                assert(self.writer@ =~= old(self).writer@ + bytes@.take(i + 1));
            }
            i += 1;
        }
        proof {
            assert(bytes@.take(n as int) =~= bytes@);
        }
    }

    /// Serves one read call, as `step_output` / `step_state` describe it.
    ///
    /// A pending holdback is replayed first and in full; otherwise the
    /// next upstream chunk is staged in the caller's buffer, cut after
    /// its first line terminator, and the tail past the cut is held back
    /// for the next call. Everything handed to the caller is appended to
    /// the sink before the call returns, so the caller never observes a
    /// byte the sink does not already hold. A return of `0` means end of
    /// stream exactly when the holdback was empty and the source is
    /// exhausted.
    ///
    /// The caller's buffer must be large enough for the holdback being
    /// replayed, or for the whole chunk the source produces next, since
    /// the chunk is staged there before the cut is taken. Bytes of the
    /// buffer past the returned count are left unspecified, as for any
    /// pull-style reader.
    pub fn read(&mut self, buf: &mut Vec<u8>) -> (n: usize)
        requires
            old(self).wf(),
            old(buf)@.len() >= needed(old(self)@),
        ensures
            final(self).wf(),
            final(buf)@.len() == old(buf)@.len(),
            n == step_output(old(self)@).len(),
            final(buf)@.take(n as int) == step_output(old(self)@),
            final(self)@ == step_state(old(self)@),
            final(self).delivered() == old(self).delivered() + step_output(old(self)@),
            final(self).sink_start() == old(self).sink_start(),
    {
        let ghost m0 = self@;
        if self.holdback.len() > 0 {
            // Replay: hand back what the previous call held past its line
            // terminator, and only now let the sink see it.
            let len = self.holdback.len();
            let mut i: usize = 0;
            while i < len
                invariant
                    0 <= i <= len,
                    len == self.holdback@.len(),
                    buf@.len() == old(buf)@.len(),
                    buf@.len() >= len,
                    forall|j: int| 0 <= j < i ==> buf@[j] == self.holdback@[j],
                    *self == *old(self),
                decreases len - i,
            {
                let b = self.holdback[i];
                buf[i] = b;
                i += 1;
            }
            self.append_sink(vstd::slice::slice_subrange(buf.as_slice(), 0, len));
            self.holdback.clear();
            self.delivered = Ghost(self.delivered@ + m0.holdback);
            proof {
                assert(buf@.take(len as int) =~= m0.holdback);
                assert(self@ =~~= step_state(m0));
                assert(self.writer@ =~= self.sink_start@ + self.delivered@);
            }
            return len;
        }
        if self.next >= self.reader.len() {
            // End of stream: nothing held back, nothing upstream.
            proof {
                assert(m0.chunks.len() == 0);
                assert(self@ =~~= step_state(m0));
                assert(buf@.take(0) =~= Seq::<u8>::empty());
                assert(self.delivered@ =~= self.delivered@ + step_output(m0));
            }
            return 0;
        }
        // Fresh read: stage the next chunk in the caller's buffer, exactly
        // as a source would fill it.
        let idx = self.next;
        let chunk_len = self.reader[idx].len();
        let ghost c: Seq<u8> = self.reader@[idx as int]@;
        proof {
            assert(self.reader@[idx as int].deep_view() =~= c);
            assert(m0.chunks[0] == c);
            lemma_cutoff_props(c);
        }
        let mut i: usize = 0;
        while i < chunk_len
            invariant
                0 <= i <= chunk_len,
                idx < self.reader@.len(),
                chunk_len == self.reader@[idx as int]@.len(),
                c == self.reader@[idx as int]@,
                buf@.len() == old(buf)@.len(),
                buf@.len() >= chunk_len,
                forall|j: int| 0 <= j < i ==> buf@[j] == c[j],
                *self == *old(self),
            decreases chunk_len - i,
        {
            let b = self.reader[idx][i];
            buf[i] = b;
            i += 1;
        }
        self.next = idx + 1;
        // Cut after the first line terminator; without one, the cut is the
        // whole chunk and nothing is held back.
        let cut = line_cutoff(vstd::slice::slice_subrange(buf.as_slice(), 0, chunk_len));
        proof {
            assert(buf@.subrange(0, chunk_len as int) =~= c);
            assert(cut == cutoff(c));
        }
        self.append_sink(vstd::slice::slice_subrange(buf.as_slice(), 0, cut));
        let len_remaining = chunk_len - cut;
        let len_to_save = if len_remaining < HOLDBACK_CAPACITY {
            len_remaining
        } else {
            HOLDBACK_CAPACITY
        };
        let ghost w1 = self.writer@;
        let mut k: usize = 0;
        while k < len_to_save
            invariant
                0 <= k <= len_to_save,
                idx < self.reader@.len(),
                c == self.reader@[idx as int]@,
                cut == cutoff(c),
                chunk_len == c.len(),
                cut <= chunk_len,
                cut + len_to_save <= chunk_len,
                self.holdback@ == c.subrange(cut as int, cut as int + k as int),
                self.next == idx + 1,
                self.reader == old(self).reader,
                self.writer@ == w1,
                self.delivered == old(self).delivered,
                self.sink_start == old(self).sink_start,
            decreases len_to_save - k,
        {
            let b = self.reader[idx][cut + k];
            self.holdback.push(b);
            k += 1;
        }
        self.delivered = Ghost(self.delivered@ + c.take(cut as int));
        proof {
            assert(buf@.take(cut as int) =~= c.take(cut as int));
            assert(self.holdback@ =~= c.skip(cut as int).take(saved_len(c)));
            assert(self.reader.deep_view().skip(idx + 1) =~= m0.chunks.skip(1));
            assert(self@ =~~= step_state(m0));
            assert(self.writer@ =~= self.sink_start@ + self.delivered@);
        }
        cut
    }

    /// A view of the sink, so a caller can inspect what has been
    /// duplicated so far.
    pub fn get_writer_ref(&self) -> (w: &Vec<u8>)
        ensures
            w@ == self@.sink,
    {
        &self.writer
    }
}

} // verus!
