//! An in-memory byte stream: reads hand out successive slices of a fixed
//! byte string, writes accumulate into a buffer. It stands in for a
//! network connection wherever the library itself drives a read loop.
use vstd::prelude::*;

verus! {

/// A two-way in-memory stream.
pub struct MockStream {
    data: Vec<u8>,
    pos: usize,
    received_data: Vec<u8>,
}

impl MockStream {
    /// The bytes the stream serves.
    pub closed spec fn data_view(&self) -> Seq<u8> {
        self.data@
    }

    /// How many bytes have been read so far.
    pub closed spec fn pos_view(&self) -> int {
        self.pos as int
    }

    /// The bytes written into the stream.
    pub closed spec fn received_view(&self) -> Seq<u8> {
        self.received_data@
    }

    pub open spec fn wf(&self) -> bool {
        0 <= self.pos_view() <= self.data_view().len()
    }

    pub fn new(data: Vec<u8>) -> (r: MockStream)
        ensures
            r.wf(),
            r.data_view() == data@,
            r.pos_view() == 0,
            r.received_view() == Seq::<u8>::empty(),
    {
        MockStream { data, pos: 0, received_data: Vec::new() }
    }

    /// Reads up to `max` of the remaining bytes; an empty result means the
    /// stream is exhausted.
    pub fn read_chunk(&mut self, max: usize) -> (r: Vec<u8>)
        requires
            old(self).wf(),
            max >= 1,
        ensures
            final(self).wf(),
            final(self).data_view() == old(self).data_view(),
            final(self).received_view() == old(self).received_view(),
            final(self).pos_view() == old(self).pos_view() + r@.len(),
            r@ == old(self).data_view().subrange(old(self).pos_view(), final(self).pos_view()),
            r@.len() <= max,
            r@.len() == 0 <==> old(self).pos_view() == old(self).data_view().len(),
    {
        let n = self.data.len();
        let remaining = n - self.pos;
        let take = if remaining < max {
            remaining
        } else {
            max
        };
        let r = vstd::slice::slice_to_vec(
            vstd::slice::slice_subrange(self.data.as_slice(), self.pos, self.pos + take),
        );
        self.pos = self.pos + take;
        r
    }

    /// The bytes written into the stream, by move.
    pub fn into_received(self) -> (r: Vec<u8>)
        ensures
            r@ == self.received_view(),
    {
        self.received_data
    }

    /// Appends `buf` to what the stream has received.
    pub fn write_bytes(&mut self, buf: &[u8])
        ensures
            final(self).wf() == old(self).wf(),
            final(self).data_view() == old(self).data_view(),
            final(self).pos_view() == old(self).pos_view(),
            final(self).received_view() == old(self).received_view() + buf@,
    {
        crate::bytes::append_bytes(&mut self.received_data, buf);
    }
}

} // verus!
