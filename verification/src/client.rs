use vstd::prelude::*;

use crate::transfer::{
    absorb_read, absorb_write, buffer_after_read, continue_after_write, progress_after_read,
    read_outcome_view, written_after_write, IoFailure, ReadProgress,
};

verus! {

/// Buffers and progress flags of one client connection.
pub struct ReadWrite {
    pub read_buf: Vec<u8>,
    pub write_buf: Vec<u8>,
    pub done_read: bool,
    pub done_write: bool,
    pub written_bytes: usize,
}

impl ReadWrite {
    /// A fresh connection state: nothing read, nothing to write.
    pub fn new() -> (rw: ReadWrite)
        ensures
            rw.read_buf@ == Seq::<u8>::empty(),
            rw.write_buf@ == Seq::<u8>::empty(),
            !rw.done_read,
            !rw.done_write,
            rw.written_bytes == 0,
    {
        ReadWrite {
            read_buf: Vec::with_capacity(2048),
            write_buf: Vec::with_capacity(2048),
            done_read: false,
            done_write: false,
            written_bytes: 0,
        }
    }

    /// The count of sent bytes stays within the outgoing buffer.
    pub open spec fn wf(&self) -> bool {
        self.written_bytes <= self.write_buf@.len()
    }

    /// The outgoing bytes not sent yet.
    pub open spec fn pending(&self) -> Seq<u8> {
        self.write_buf@.subrange(self.written_bytes as int, self.write_buf@.len() as int)
    }

    /// Records the outcome of one `read` call on the connection's stream
    /// (see `absorb_read`): delivered bytes are appended to `read_buf`.
    pub fn read_step(&mut self, outcome: Result<&[u8], IoFailure>) -> (progress: ReadProgress)
        ensures
            final(self).read_buf@ == buffer_after_read(old(self).read_buf@, read_outcome_view(outcome)),
            progress == progress_after_read(read_outcome_view(outcome)),
            final(self).write_buf@ == old(self).write_buf@,
            final(self).written_bytes == old(self).written_bytes,
            final(self).done_read == old(self).done_read,
            final(self).done_write == old(self).done_write,
    {
        absorb_read(&mut self.read_buf, outcome)
    }

    /// The part of `write_buf` that still has to be sent.
    pub fn unwritten(&self) -> (rest: &[u8])
        requires
            self.wf(),
        ensures
            rest@ == self.pending(),
    {
        let len = self.write_buf.len();
        &self.write_buf.as_slice()[self.written_bytes..len]
    }

    /// Records the outcome of one `write` call that was offered `unwritten()`
    /// (see `absorb_write`). Returns whether to write again.
    pub fn write_step(&mut self, outcome: Result<usize, IoFailure>) -> (again: bool)
        requires
            old(self).wf(),
            outcome matches Ok(n) ==> n <= old(self).pending().len(),
        ensures
            final(self).wf(),
            final(self).written_bytes == written_after_write(old(self).written_bytes as nat, outcome),
            again == continue_after_write(outcome),
            final(self).read_buf@ == old(self).read_buf@,
            final(self).write_buf@ == old(self).write_buf@,
            final(self).done_read == old(self).done_read,
            final(self).done_write == old(self).done_write,
    {
        let total = self.write_buf.len();
        absorb_write(&mut self.written_bytes, total, outcome)
    }
}

} // verus!
