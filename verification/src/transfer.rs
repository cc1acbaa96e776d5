use vstd::prelude::*;

verus! {

/// Why a non-blocking read or write on a socket did not complete:
/// the socket had nothing more to offer right now, or another error occurred.
#[derive(Clone, Copy, Debug, PartialEq, Eq, Structural)]
pub enum IoFailure {
    WouldBlock,
    Other,
}

/// What a read loop does after one call of `read`.
#[derive(Clone, Copy, Debug, PartialEq, Eq, Structural)]
pub enum ReadProgress {
    /// Bytes arrived and were buffered: read again.
    KeepReading,
    /// Stop reading; the flag tells whether the peer closed the stream.
    Finished(bool),
}

/// The state of a buffer after one read call whose outcome is `outcome`.
pub open spec fn buffer_after_read(buf: Seq<u8>, outcome: Result<Seq<u8>, IoFailure>) -> Seq<u8> {
    match outcome {
        Ok(chunk) => buf + chunk,
        Err(_) => buf,
    }
}

/// The decision taken after one read call whose outcome is `outcome`.
pub open spec fn progress_after_read(outcome: Result<Seq<u8>, IoFailure>) -> ReadProgress {
    match outcome {
        Ok(chunk) => if chunk.len() == 0 {
            ReadProgress::Finished(true)
        } else {
            ReadProgress::KeepReading
        },
        Err(_) => ReadProgress::Finished(false),
    }
}

/// The state of a buffer after a series of read calls with these outcomes,
/// recorded one after another.
pub open spec fn buffer_after_reads(buf: Seq<u8>, outcomes: Seq<Result<Seq<u8>, IoFailure>>) -> Seq<u8>
    decreases outcomes.len(),
{
    if outcomes.len() == 0 {
        buf
    } else {
        buffer_after_reads(buffer_after_read(buf, outcomes[0]), outcomes.drop_first())
    }
}

/// All bytes that a series of read calls delivered, in order.
pub open spec fn delivered(outcomes: Seq<Result<Seq<u8>, IoFailure>>) -> Seq<u8>
    decreases outcomes.len(),
{
    if outcomes.len() == 0 {
        Seq::empty()
    } else {
        let first = match outcomes[0] {
            Ok(chunk) => chunk,
            Err(_) => Seq::empty(),
        };
        first + delivered(outcomes.drop_first())
    }
}

/// Recording a series of reads leaves the buffer as it was followed by every
/// delivered byte, in the order of delivery: nothing is lost, duplicated or
/// reordered.
pub proof fn lemma_reads_append_in_order(buf: Seq<u8>, outcomes: Seq<Result<Seq<u8>, IoFailure>>)
    ensures
        buffer_after_reads(buf, outcomes) == buf + delivered(outcomes),
    decreases outcomes.len(),
{
    if outcomes.len() == 0 {
        assert(buf + Seq::<u8>::empty() =~= buf);
    } else {
        let next = buffer_after_read(buf, outcomes[0]);
        lemma_reads_append_in_order(next, outcomes.drop_first());
        let first = match outcomes[0] {
            Ok(chunk) => chunk,
            Err(_) => Seq::<u8>::empty(),
        };
        assert(next =~= buf + first);
        assert(buf + first + delivered(outcomes.drop_first()) =~= buf + (first + delivered(
            outcomes.drop_first(),
        )));
    }
}

/// The view of a read outcome: the chunk's bytes, or the failure.
pub open spec fn read_outcome_view(outcome: Result<&[u8], IoFailure>) -> Result<Seq<u8>, IoFailure> {
    match outcome {
        Ok(chunk) => Ok(chunk@),
        Err(e) => Err(e),
    }
}

/// What one read step decides, by the outcome of the `read` call: a chunk
/// of any positive length is appended and reading goes on; only an empty
/// chunk means the peer closed the stream; a failure stops reading without
/// a close and keeps the buffer.
pub proof fn lemma_read_step_decision(buf: Seq<u8>, outcome: Result<Seq<u8>, IoFailure>)
    ensures
        forall|c: Seq<u8>| outcome == Ok::<Seq<u8>, IoFailure>(c) && c.len() > 0 ==> progress_after_read(outcome)
            == ReadProgress::KeepReading && buffer_after_read(buf, outcome) == buf + c,
        forall|c: Seq<u8>| outcome == Ok::<Seq<u8>, IoFailure>(c) && c.len() == 0 ==> progress_after_read(outcome)
            == ReadProgress::Finished(true) && buffer_after_read(buf, outcome) == buf,
        outcome is Err ==> progress_after_read(outcome) == ReadProgress::Finished(false)
            && buffer_after_read(buf, outcome) == buf,
{
    if let Ok(c) = outcome {
        if c.len() == 0 {
            assert(buf + c =~= buf);
        }
    }
}

/// Reading goes on exactly when the step made the buffer grow, and it
/// grows by exactly the delivered bytes; a close is reported only when
/// `read` delivered nothing and did not fail.
pub proof fn lemma_read_goes_on_iff_bytes_arrived(buf: Seq<u8>, outcome: Result<Seq<u8>, IoFailure>)
    ensures
        (progress_after_read(outcome) == ReadProgress::KeepReading) <==> buffer_after_read(buf, outcome).len()
            > buf.len(),
        buffer_after_read(buf, outcome).len() == buf.len() + match outcome {
            Ok(c) => c.len(),
            Err(_) => 0nat,
        },
        buffer_after_read(buf, outcome).take(buf.len() as int) == buf,
        (progress_after_read(outcome) == ReadProgress::Finished(true)) <==> (outcome is Ok
            && buffer_after_read(buf, outcome).len() == buf.len()),
{
    lemma_read_step_decision(buf, outcome);
    assert(buffer_after_read(buf, outcome).take(buf.len() as int) =~= buf);
}

/// One step of a non-blocking read loop. `outcome` is what `read` gave back:
/// the bytes it delivered (an empty chunk means the peer closed the stream),
/// or the failure. Delivered bytes are appended to `buf`.
pub fn absorb_read(buf: &mut Vec<u8>, outcome: Result<&[u8], IoFailure>) -> (progress: ReadProgress)
    ensures
        final(buf)@ == buffer_after_read(old(buf)@, read_outcome_view(outcome)),
        progress == progress_after_read(read_outcome_view(outcome)),
        outcome matches Ok(c) ==> (c@.len() == 0 ==> progress == ReadProgress::Finished(true)
            && final(buf)@ == old(buf)@),
        outcome matches Ok(c) ==> (c@.len() > 0 ==> progress == ReadProgress::KeepReading
            && final(buf)@ == old(buf)@ + c@),
        outcome is Err ==> progress == ReadProgress::Finished(false) && final(buf)@ == old(buf)@,
{
    match outcome {
        Ok(chunk) => {
            if chunk.len() == 0 {
                proof {
                    assert(old(buf)@ + chunk@ =~= old(buf)@);
                }
                ReadProgress::Finished(true)
            } else {
                let ghost before = buf@;
                buf.extend_from_slice(chunk);
                proof {
                    assert forall|i: int| 0 <= i < buf@.len() implies buf@[i] == (before + chunk@)[i] by {
                        if i >= before.len() {
                            assert(cloned::<u8>(chunk@[i - before.len()], buf@[i]));
                        }
                    }
                    assert(buf@ =~= before + chunk@);
                }
                ReadProgress::KeepReading
            }
        },
        Err(_) => ReadProgress::Finished(false),
    }
}

/// The count of written bytes after one write call whose outcome is `outcome`.
pub open spec fn written_after_write(written: nat, outcome: Result<usize, IoFailure>) -> nat {
    match outcome {
        Ok(n) => written + (n as nat),
        Err(_) => written,
    }
}

/// Whether a write loop goes on after one write call whose outcome is `outcome`:
/// only when the call accepted at least one byte.
pub open spec fn continue_after_write(outcome: Result<usize, IoFailure>) -> bool {
    match outcome {
        Ok(n) => n > 0,
        Err(_) => false,
    }
}

/// What one write step decides, by the outcome of the `write` call: a write
/// that accepted any positive number of bytes adds exactly that number and
/// writing goes on; only a write of no bytes, or a failure, stops the loop,
/// and then the count stays as it was.
pub proof fn lemma_write_step_decision(written: nat, outcome: Result<usize, IoFailure>)
    ensures
        forall|n: usize| outcome == Ok::<usize, IoFailure>(n) && n > 0 ==> continue_after_write(outcome)
            && written_after_write(written, outcome) == written + n,
        outcome == Ok::<usize, IoFailure>(0) ==> !continue_after_write(outcome) && written_after_write(
            written,
            outcome,
        ) == written,
        outcome is Err ==> !continue_after_write(outcome) && written_after_write(written, outcome)
            == written,
{
}

/// Writing goes on exactly when the step made the count of sent bytes grow.
pub proof fn lemma_write_goes_on_iff_bytes_accepted(written: nat, outcome: Result<usize, IoFailure>)
    ensures
        continue_after_write(outcome) <==> written_after_write(written, outcome) > written,
        written_after_write(written, outcome) >= written,
{
}

/// One step of a non-blocking write loop over a buffer of `total` bytes of
/// which `*written` have been sent. `outcome` is what `write` gave back for
/// the unsent rest: the number of bytes it accepted (never more than it was
/// offered), or the failure. Returns whether to write again.
pub fn absorb_write(written: &mut usize, total: usize, outcome: Result<usize, IoFailure>) -> (again: bool)
    requires
        *old(written) <= total,
        outcome matches Ok(n) ==> *old(written) + n <= total,
    ensures
        *final(written) == written_after_write(*old(written) as nat, outcome),
        *final(written) <= total,
        again == continue_after_write(outcome),
        outcome matches Ok(n) ==> (n > 0 ==> again && *final(written) == *old(written) + n),
        outcome == Ok::<usize, IoFailure>(0) ==> !again && *final(written) == *old(written),
        outcome is Err ==> !again && *final(written) == *old(written),
{
    match outcome {
        Ok(n) => {
            *written = *written + n;
            n > 0
        },
        Err(_) => false,
    }
}

} // verus!
