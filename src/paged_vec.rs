//! The bounded staging buffer between the muxer and whoever persists its output.
//!
//! The element writer owns the buffer. Readers see the bytes it has flushed (`ready`) and tell it
//! how many of them they have persisted (`consume`), which frees them. A ghost record of every
//! byte dropped so far lets contracts speak of the whole output.
use vstd::prelude::*;
use crate::ebml::{
    element, frameable, new_sink, open_segment, open_segment_bytes, sink_bytes, sink_contents,
    sink_drop_front, sink_pending, sink_streams, write_raw, ElementSink,
};

verus! {

pub struct PagedVec {
    sink: ElementSink,
    dropped: Ghost<Seq<u8>>,
}

impl PagedVec {
    /// The buffer is usable: the writer flushes every element it completes.
    pub closed spec fn wf(&self) -> bool {
        sink_streams(self.sink)
    }

    /// Bytes written and not yet consumed.
    pub closed spec fn ready_view(&self) -> Seq<u8> {
        sink_bytes(self.sink)
    }

    /// Bytes written that the writer has not yet flushed into the buffer.
    pub closed spec fn pending(&self) -> Seq<u8> {
        sink_pending(self.sink)
    }

    /// Bytes consumed so far, in order.
    pub closed spec fn dropped(&self) -> Seq<u8> {
        self.dropped@
    }

    /// Everything written so far.
    pub open spec fn stream(&self) -> Seq<u8> {
        self.dropped() + self.ready_view() + self.pending()
    }

    /// The capacity that a session preallocates unless told otherwise.
    pub fn default_memory() -> (r: usize)
        ensures
            r == 1_000_000,
    {
        1_000_000
    }

    /// An empty buffer that preallocates `mem` bytes. The capacity is a hint: the buffer grows
    /// past it while nothing is consumed.
    pub fn new(mem: usize) -> (r: Self)
        ensures
            r.wf(),
            r.ready_view() == Seq::<u8>::empty(),
            r.pending() == Seq::<u8>::empty(),
            r.dropped() == Seq::<u8>::empty(),
    {
        let vec: Vec<u8> = Vec::with_capacity(mem);
        PagedVec { sink: new_sink(vec), dropped: Ghost(Seq::empty()) }
    }

    /// The bytes that are written and not yet consumed.
    pub fn ready(&self) -> (r: &[u8])
        ensures
            r@ == self.ready_view(),
    {
        sink_contents(&self.sink).as_slice()
    }

    /// Drops the first `len` ready bytes, which the caller has persisted.
    pub fn consume(&mut self, len: usize)
        requires
            len <= old(self).ready_view().len(),
        ensures
            final(self).wf() == old(self).wf(),
            final(self).ready_view() == old(self).ready_view().skip(len as int),
            final(self).ready_view().len() == old(self).ready_view().len() - len,
            final(self).dropped() == old(self).dropped() + old(self).ready_view().take(len as int),
            final(self).pending() == old(self).pending(),
            final(self).stream() == old(self).stream(),
    {
        let ghost before = self.ready_view();
        sink_drop_front(&mut self.sink, len);
        self.dropped = Ghost(self.dropped@ + before.take(len as int));
        proof {
            assert(before =~= before.take(len as int) + before.skip(len as int));
            assert(self.stream() =~= old(self).stream());
        }
    }

    /// Writes one complete element, which flushes it and everything pending.
    pub fn append(&mut self, id: u64, data: &[u8])
        requires
            old(self).wf(),
            frameable(data@.len()),
        ensures
            final(self).wf(),
            final(self).stream() == old(self).stream() + element(id, data@),
            final(self).ready_view() == old(self).ready_view() + old(self).pending() + element(
                id,
                data@,
            ),
            final(self).pending() == Seq::<u8>::empty(),
            final(self).dropped() == old(self).dropped(),
    {
        write_raw(&mut self.sink, id, data);
        proof {
            assert(self.stream() =~= old(self).stream() + element(id, data@));
        }
    }

    /// Opens the Segment that holds the rest of the file, with its size left unknown so that no
    /// byte has to be revisited once written.
    pub fn open_segment(&mut self)
        requires
            old(self).wf(),
        ensures
            final(self).wf(),
            final(self).stream() == old(self).stream() + open_segment_bytes(),
            final(self).ready_view() == old(self).ready_view(),
            final(self).pending() == old(self).pending() + open_segment_bytes(),
            final(self).dropped() == old(self).dropped(),
    {
        open_segment(&mut self.sink);
        proof {
            assert(self.stream() =~= old(self).stream() + open_segment_bytes());
        }
    }
}

/// Consuming never loses or repeats a byte: what was dropped, followed by what is ready and what
/// is pending, is all that was written, whatever prefix of the ready bytes is consumed.
pub proof fn lemma_consume_keeps_stream(p: PagedVec, k: nat)
    requires
        k <= p.ready_view().len(),
    ensures
        (p.dropped() + p.ready_view().take(k as int)) + p.ready_view().skip(k as int)
            + p.pending() == p.stream(),
{
    assert(p.ready_view() =~= p.ready_view().take(k as int) + p.ready_view().skip(k as int));
    assert((p.dropped() + p.ready_view().take(k as int)) + p.ready_view().skip(k as int)
        =~= p.dropped() + p.ready_view());
}

/// With nothing pending before or after, bytes written after what was ready are ready after it:
/// the ready bytes only grow by what is written.
pub proof fn lemma_ready_appended(a: PagedVec, b: PagedVec, x: Seq<u8>)
    requires
        a.pending() == Seq::<u8>::empty(),
        b.pending() == Seq::<u8>::empty(),
        a.dropped() == b.dropped(),
        b.stream() == a.stream() + x,
    ensures
        b.ready_view() == a.ready_view() + x,
        a.ready_view().is_prefix_of(b.ready_view()),
{
    let d = a.dropped();
    assert(a.stream() =~= d + a.ready_view());
    assert(b.stream() =~= d + b.ready_view());
    assert(b.ready_view() =~= b.stream().skip(d.len() as int));
    assert(a.ready_view() + x =~= (a.stream() + x).skip(d.len() as int));
    assert(a.ready_view() =~= b.ready_view().subrange(0, a.ready_view().len() as int));
}

/// Consuming nothing leaves the ready bytes as they were.
pub proof fn lemma_consume_nothing(p: PagedVec)
    ensures
        p.ready_view().skip(0) == p.ready_view(),
        p.dropped() + p.ready_view().take(0) == p.dropped(),
{
    assert(p.ready_view().skip(0) =~= p.ready_view());
    assert(p.dropped() + p.ready_view().take(0) =~= p.dropped());
}

} // verus!
