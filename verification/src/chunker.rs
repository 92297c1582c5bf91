//! Cutting a plaintext stream into archive chunks. However the input
//! arrives (one read or many, of any sizes), the chunks handed to the sealer
//! are the same: full chunks of `CHUNK_SIZE` bytes, then the shorter rest.

use vstd::prelude::*;
use crate::hybrid::CHUNK_SIZE;

verus! {

/// `s` cut into chunks of `CHUNK_SIZE` bytes, the last one possibly
/// shorter; no chunk is empty.
pub open spec fn chunks_of(s: Seq<u8>) -> Seq<Seq<u8>>
    decreases s.len(),
{
    if s.len() == 0 {
        Seq::empty()
    } else if s.len() <= CHUNK_SIZE {
        seq![s]
    } else {
        seq![s.take(CHUNK_SIZE as int)] + chunks_of(s.skip(CHUNK_SIZE as int))
    }
}

/// The byte contents of a list of buffers.
pub open spec fn buffers_view(v: Seq<Vec<u8>>) -> Seq<Seq<u8>> {
    v.map_values(|b: Vec<u8>| b@)
}

/// Every chunk is full.
pub open spec fn all_full(cs: Seq<Seq<u8>>) -> bool {
    forall|i: int| 0 <= i < cs.len() ==> (#[trigger] cs[i]).len() == CHUNK_SIZE
}

/// Collects input bytes and hands out each chunk as soon as it is full.
pub struct ChunkSplitter {
    buf: Vec<u8>,
}

impl ChunkSplitter {
    /// Bytes received but not yet handed out.
    pub closed spec fn pending(&self) -> Seq<u8> {
        self.buf@
    }

    /// Fewer than a chunk's worth of bytes wait.
    pub open spec fn wf(&self) -> bool {
        self.pending().len() < CHUNK_SIZE
    }

    /// A splitter that has received nothing.
    pub fn new() -> (r: ChunkSplitter)
        ensures
            r.pending() == Seq::<u8>::empty(),
            r.wf(),
    {
        ChunkSplitter { buf: Vec::new() }
    }

    /// Receives `bytes` and returns the chunks that became full, in order.
    pub fn push(&mut self, bytes: &[u8]) -> (out: Vec<Vec<u8>>)
        requires
            old(self).wf(),
        ensures
            final(self).wf(),
            all_full(buffers_view(out@)),
            buffers_view(out@).flatten() + final(self).pending() == old(self).pending() + bytes@,
    {
        let ghost start = self.buf@;
        let mut out: Vec<Vec<u8>> = Vec::new();
        let mut i: usize = 0;
        while i < bytes.len()
            invariant
                i <= bytes@.len(),
                self.buf@.len() < CHUNK_SIZE,
                all_full(buffers_view(out@)),
                buffers_view(out@).flatten() + self.buf@ == start + bytes@.take(i as int),
            decreases bytes@.len() - i,
        {
            let ghost before = buffers_view(out@);
            let ghost pending = self.buf@;
            self.buf.push(bytes[i]);
            assert(bytes@.take(i + 1) =~= bytes@.take(i as int).push(bytes@[i as int]));
            assert(self.buf@ == pending.push(bytes@[i as int]));
            assert(before.flatten() + pending.push(bytes@[i as int]) =~= (before.flatten() + pending).push(bytes@[i as int]));
            assert((start + bytes@.take(i as int)).push(bytes@[i as int]) =~= start + bytes@.take(i + 1));
            assert(before.flatten() + self.buf@ =~= start + bytes@.take(i + 1));
            if self.buf.len() == CHUNK_SIZE {
                let mut full: Vec<u8> = Vec::new();
                std::mem::swap(&mut full, &mut self.buf);
                out.push(full);
                proof {
                    assert(buffers_view(out@) =~= before.push(full@));
                    before.lemma_flatten_push(full@);
                    assert(buffers_view(out@).flatten() + self.buf@ =~= before.flatten() + full@);
                }
            } else {
                assert(buffers_view(out@) =~= before);
            }
            i = i + 1;
        }
        assert(bytes@.take(bytes@.len() as int) =~= bytes@);
        out
    }

    /// Ends the input: the last, shorter chunk, empty when the input was a
    /// whole number of chunks.
    pub fn finish(self) -> (r: Vec<u8>)
        requires
            self.wf(),
        ensures
            r@ == self.pending(),
            r@.len() < CHUNK_SIZE,
    {
        self.buf
    }
}

/// The chunks of `s` are nonempty, hold at most `CHUNK_SIZE` bytes each,
/// are no more than its bytes, and concatenate back to `s`.
pub proof fn lemma_chunks_of_cover(s: Seq<u8>)
    ensures
        chunks_of(s).flatten() == s,
        chunks_of(s).len() <= s.len(),
        forall|i: int|
            0 <= i < chunks_of(s).len() ==> 0 < (#[trigger] chunks_of(s)[i]).len() <= CHUNK_SIZE,
    decreases s.len(),
{
    let cs = chunks_of(s);
    if s.len() == 0 {
        assert(cs.flatten() =~= s);
    } else if s.len() <= CHUNK_SIZE {
        assert(cs =~= seq![s]);
        cs.lemma_flatten_singleton();
    } else {
        let head = s.take(CHUNK_SIZE as int);
        let tail = s.skip(CHUNK_SIZE as int);
        lemma_chunks_of_cover(tail);
        assert(cs == seq![head] + chunks_of(tail));
        assert(cs.first() == head);
        assert(cs.drop_first() =~= chunks_of(tail));
        assert(head + tail =~= s);
        assert forall|i: int| 0 <= i < cs.len() implies 0 < (#[trigger] cs[i]).len() <= CHUNK_SIZE by {
            if i > 0 {
                assert(cs[i] == chunks_of(tail)[i - 1]);
            }
        }
    }
}

/// The chunks are fixed by the bytes alone: full chunks followed by a
/// shorter rest are exactly the chunks of their concatenation, so every way
/// of feeding the same bytes to a splitter gives the sealer the same chunks.
pub proof fn lemma_chunks_determined(full: Seq<Seq<u8>>, rest: Seq<u8>)
    requires
        all_full(full),
        rest.len() < CHUNK_SIZE,
    ensures
        chunks_of(full.flatten() + rest) == (if rest.len() == 0 { full } else { full.push(rest) }),
    decreases full.len(),
{
    if full.len() == 0 {
        assert(full.flatten() + rest =~= rest);
        if rest.len() == 0 {
            assert(chunks_of(rest) =~= full);
        } else {
            assert(full.push(rest) =~= seq![rest]);
        }
    } else {
        let head = full[0];
        let tail = full.drop_first();
        assert(all_full(tail)) by {
            assert forall|i: int| 0 <= i < tail.len() implies (#[trigger] tail[i]).len() == CHUNK_SIZE by {
                assert(tail[i] == full[i + 1]);
            }
        }
        lemma_chunks_determined(tail, rest);
        assert(head.len() == CHUNK_SIZE);
        let s = full.flatten() + rest;
        assert(full.flatten() == head + tail.flatten());
        assert(s =~= head + (tail.flatten() + rest));
        assert(s.take(CHUNK_SIZE as int) =~= head);
        assert(s.skip(CHUNK_SIZE as int) =~= tail.flatten() + rest);
        if s.len() <= CHUNK_SIZE {
            assert(tail.flatten() + rest =~= Seq::<u8>::empty());
            assert(chunks_of(tail.flatten() + rest) =~= Seq::<Seq<u8>>::empty());
            assert(rest.len() == 0);
            assert(tail.len() == 0);
            assert(full =~= seq![head]);
            assert(s =~= head);
        } else {
            if rest.len() == 0 {
                assert(full =~= seq![head] + tail);
            } else {
                assert(full.push(rest) =~= seq![head] + tail.push(rest));
            }
        }
    }
}

} // verus!
