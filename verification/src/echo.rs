use vstd::prelude::*;

use crate::transfer::{
    absorb_read, absorb_write, buffer_after_read, continue_after_write, progress_after_read,
    read_outcome_view, written_after_write, IoFailure, ReadProgress,
};

verus! {

/// The poll token of the echo server's listening socket.
pub const ECHO_LISTENER_TOKEN: usize = 100000;

/// The bytes of `HTTP/1.1 200 OK\r\nServer: HttpMio\r\n\r\n`, the head of
/// every echo response.
pub open spec fn response_head() -> Seq<u8> {
    seq![
        72u8, 84, 84, 80, 47, 49, 46, 49, 32, 50, 48, 48, 32, 79, 75,
        13, 10,
        83, 101, 114, 118, 101, 114, 58, 32, 72, 116, 116, 112, 77, 105, 111,
        13, 10, 13, 10,
    ]
}

/// The blank line that ends the head of an HTTP request: `\r\n\r\n`.
pub open spec fn blank_line() -> Seq<u8> {
    seq![13u8, 10, 13, 10]
}

/// A buffered request is complete when it ends with a blank line (requests
/// with a body are not recognised).
pub open spec fn ends_request(buf: Seq<u8>) -> bool {
    buf.len() >= 4 && buf.subrange(buf.len() - 4, buf.len() as int) == blank_line()
}

/// Whether the bytes read so far form a complete request.
pub fn request_complete(buf: &[u8]) -> (complete: bool)
    ensures
        complete == ends_request(buf@),
{
    let n = buf.len();
    if n > 3 {
        let c = buf[n - 4] == 13 && buf[n - 3] == 10 && buf[n - 2] == 13 && buf[n - 1]
            == 10;
        proof {
            let tail = buf@.subrange(n - 4, n as int);
            if c {
                assert(tail =~= blank_line());
            } else {
                assert(tail[0] != 13 || tail[1] != 10 || tail[2] != 13 || tail[3] != 10);
            }
        }
        c
    } else {
        false
    }
}

/// The echo response to `request`: the response head followed by the
/// request itself.
pub fn echo_response(request: &[u8]) -> (response: Vec<u8>)
    ensures
        response@ == response_head() + request@,
{
    let mut response: Vec<u8> = vec![
        72u8, 84, 84, 80, 47, 49, 46, 49, 32, 50, 48, 48, 32, 79, 75,
        13, 10,
        83, 101, 114, 118, 101, 114, 58, 32, 72, 116, 116, 112, 77, 105, 111,
        13, 10, 13, 10,
    ];
    assert(response@ =~= response_head());
    let ghost before = response@;
    response.extend_from_slice(request);
    proof {
        assert forall|i: int| 0 <= i < response@.len() implies response@[i] == (before
            + request@)[i] by {
            if i >= before.len() {
                assert(cloned::<u8>(request@[i - before.len()], response@[i]));
            }
        }
        assert(response@ =~= before + request@);
    }
    response
}

/// The abstract state of an echo connection: the bytes received, whether
/// the request is complete, the response, and how many of its bytes were sent.
pub struct ConnView {
    pub read: Seq<u8>,
    pub done_read: bool,
    pub response: Seq<u8>,
    pub sent: nat,
}

/// One step the server takes on a connection.
pub enum ConnStep {
    /// One `read` call with this outcome.
    Read(Result<Seq<u8>, IoFailure>),
    /// The end of a read loop: check for a complete request.
    Finish,
    /// Prepare the response before writing.
    Respond,
    /// One `write` call with this outcome.
    Write(Result<usize, IoFailure>),
}

/// The state of a freshly accepted connection.
pub open spec fn fresh_conn() -> ConnView {
    ConnView { read: Seq::empty(), done_read: false, response: Seq::empty(), sent: 0 }
}

/// Whether a step may be taken: a response is prepared and written only for
/// a complete request, and a write never accepts more than is pending.
pub open spec fn step_allowed(v: ConnView, step: ConnStep) -> bool {
    match step {
        ConnStep::Respond => v.done_read && v.sent <= v.response.len(),
        ConnStep::Write(outcome) => {
            &&& v.done_read
            &&& v.sent <= v.response.len()
            &&& outcome matches Ok(n) ==> v.sent + n <= v.response.len()
        },
        _ => true,
    }
}

/// The state after one step.
pub open spec fn apply_step(v: ConnView, step: ConnStep) -> ConnView {
    match step {
        ConnStep::Read(outcome) => ConnView { read: buffer_after_read(v.read, outcome), ..v },
        ConnStep::Finish => ConnView { done_read: v.done_read || ends_request(v.read), ..v },
        ConnStep::Respond => if v.response.len() == 0 {
            ConnView { response: response_head() + v.read, ..v }
        } else {
            v
        },
        ConnStep::Write(outcome) => ConnView { sent: written_after_write(v.sent, outcome), ..v },
    }
}

/// Whether every step of a series may be taken, each in the state the steps
/// before it left.
pub open spec fn run_allowed(v: ConnView, steps: Seq<ConnStep>) -> bool
    decreases steps.len(),
{
    steps.len() == 0 || (step_allowed(v, steps[0]) && run_allowed(
        apply_step(v, steps[0]),
        steps.drop_first(),
    ))
}

/// The state after a series of steps.
pub open spec fn apply_steps(v: ConnView, steps: Seq<ConnStep>) -> ConnView
    decreases steps.len(),
{
    if steps.len() == 0 {
        v
    } else {
        apply_steps(apply_step(v, steps[0]), steps.drop_first())
    }
}

/// Some prefix of the received bytes ends with a blank line: a complete
/// request has arrived.
pub open spec fn request_seen(read: Seq<u8>) -> bool {
    exists|k: int| 0 <= k <= read.len() && ends_request(#[trigger] read.take(k))
}

/// What holds of every connection the server handles: the request is
/// complete only once the received bytes had a prefix ending with a blank
/// line; the count of sent bytes stays within the response; and a response
/// exists only for a complete request and is the head followed by a prefix
/// of the received bytes.
pub open spec fn conn_inv(v: ConnView) -> bool {
    &&& v.done_read ==> request_seen(v.read)
    &&& v.sent <= v.response.len()
    &&& v.response.len() > 0 ==> v.done_read && exists|k: int|
        0 <= k <= v.read.len() && v.response == response_head() + #[trigger] v.read.take(k)
}

/// How a connection's state may change: received bytes are only added to,
/// a complete request stays complete, a response once prepared never
/// changes, and the count of sent bytes never falls.
pub open spec fn evolves(v: ConnView, w: ConnView) -> bool {
    &&& v.read.len() <= w.read.len()
    &&& w.read.take(v.read.len() as int) == v.read
    &&& v.done_read ==> w.done_read
    &&& v.response.len() > 0 ==> w.response == v.response
    &&& v.sent <= w.sent
}

proof fn lemma_take_of_extended(read: Seq<u8>, more: Seq<u8>, k: int)
    requires
        0 <= k <= read.len(),
    ensures
        (read + more).take(k) == read.take(k),
{
    assert((read + more).take(k) =~= read.take(k));
}

/// One allowed step keeps `conn_inv` and changes the state only as
/// `evolves` permits.
pub proof fn lemma_step_keeps_invariant(v: ConnView, step: ConnStep)
    requires
        conn_inv(v),
        step_allowed(v, step),
    ensures
        conn_inv(apply_step(v, step)),
        evolves(v, apply_step(v, step)),
{
    let w = apply_step(v, step);
    match step {
        ConnStep::Read(outcome) => {
            let more = match outcome {
                Ok(chunk) => chunk,
                Err(_) => Seq::<u8>::empty(),
            };
            assert(w.read =~= v.read + more);
            assert(w.read.take(v.read.len() as int) =~= v.read);
            if v.done_read {
                let k = choose|k: int| 0 <= k <= v.read.len() && ends_request(#[trigger] v.read.take(k));
                lemma_take_of_extended(v.read, more, k);
                assert(ends_request(w.read.take(k)));
            }
            if v.response.len() > 0 {
                let k = choose|k: int|
                    0 <= k <= v.read.len() && v.response == response_head() + #[trigger] v.read.take(k);
                lemma_take_of_extended(v.read, more, k);
                assert(w.response == response_head() + w.read.take(k));
            }
        },
        ConnStep::Finish => {
            assert(w.read.take(v.read.len() as int) =~= v.read);
            if !v.done_read && ends_request(v.read) {
                assert(v.read.take(v.read.len() as int) =~= v.read);
                assert(ends_request(w.read.take(w.read.len() as int)));
            }
        },
        ConnStep::Respond => {
            assert(w.read.take(v.read.len() as int) =~= v.read);
            if v.response.len() == 0 {
                assert(v.read.take(v.read.len() as int) =~= v.read);
                assert(w.response == response_head() + w.read.take(w.read.len() as int));
                assert(w.response.len() > 0);
            }
        },
        ConnStep::Write(_) => {
            assert(w.read.take(v.read.len() as int) =~= v.read);
        },
    }
}

proof fn lemma_evolves_trans(u: ConnView, v: ConnView, w: ConnView)
    requires
        evolves(u, v),
        evolves(v, w),
    ensures
        evolves(u, w),
{
    assert(w.read.take(u.read.len() as int) =~= w.read.take(v.read.len() as int).take(
        u.read.len() as int,
    ));
}

/// Over any allowed series of steps, `conn_inv` holds throughout and the
/// state changes only as `evolves` permits: the response is prepared at
/// most once and never changes afterwards, and the count of sent bytes
/// never falls.
pub proof fn lemma_run_keeps_invariant(v: ConnView, steps: Seq<ConnStep>)
    requires
        conn_inv(v),
        run_allowed(v, steps),
    ensures
        conn_inv(apply_steps(v, steps)),
        evolves(v, apply_steps(v, steps)),
    decreases steps.len(),
{
    if steps.len() == 0 {
        assert(v.read.take(v.read.len() as int) =~= v.read);
    } else {
        let next = apply_step(v, steps[0]);
        lemma_step_keeps_invariant(v, steps[0]);
        lemma_run_keeps_invariant(next, steps.drop_first());
        lemma_evolves_trans(v, next, apply_steps(next, steps.drop_first()));
    }
}

proof fn lemma_prefix_of_run(v: ConnView, steps: Seq<ConnStep>, i: int)
    requires
        run_allowed(v, steps),
        0 <= i < steps.len(),
    ensures
        run_allowed(v, steps.take(i)),
        step_allowed(apply_steps(v, steps.take(i)), steps[i]),
        run_allowed(apply_steps(v, steps.take(i)), steps.skip(i)),
        apply_steps(apply_steps(v, steps.take(i)), steps.skip(i)) == apply_steps(v, steps),
    decreases steps.len(),
{
    if i == 0 {
        assert(steps.take(0) =~= Seq::<ConnStep>::empty());
        assert(steps.skip(0) =~= steps);
    } else {
        let rest = steps.drop_first();
        lemma_prefix_of_run(apply_step(v, steps[0]), rest, i - 1);
        assert(steps.take(i).drop_first() =~= rest.take(i - 1));
        assert(steps.take(i)[0] == steps[0]);
        assert(rest.skip(i - 1) =~= steps.skip(i));
        assert(rest[i - 1] == steps[i]);
    }
}

/// A connection is answered only after a complete request arrived: in any
/// allowed series of steps from a fresh connection, every step that
/// prepares or writes the response is taken when some prefix of the bytes
/// received so far ends with a blank line, and so do the bytes received in
/// the end. A connection whose bytes never end a request is never written to.
pub proof fn lemma_answered_only_after_request(steps: Seq<ConnStep>, i: int)
    requires
        run_allowed(fresh_conn(), steps),
        0 <= i < steps.len(),
        steps[i] is Respond || steps[i] is Write,
    ensures
        request_seen(apply_steps(fresh_conn(), steps.take(i)).read),
        request_seen(apply_steps(fresh_conn(), steps).read),
{
    let before = apply_steps(fresh_conn(), steps.take(i));
    lemma_prefix_of_run(fresh_conn(), steps, i);
    lemma_run_keeps_invariant(fresh_conn(), steps.take(i));
    lemma_run_keeps_invariant(fresh_conn(), steps);
    let fin = apply_steps(fresh_conn(), steps);
    lemma_run_keeps_invariant(before, steps.skip(i));
    assert(before.done_read);
    assert(fin.done_read);
}

/// The state of one connection of the HTTP echo server: what was read, whether
/// the request is complete, and the response with the count of its bytes sent.
pub struct WebSocket {
    pub read_buf: Vec<u8>,
    pub done_read: bool,
    pub write_buf: Vec<u8>,
    pub bytes_written: usize,
}

impl View for WebSocket {
    type V = ConnView;

    open spec fn view(&self) -> ConnView {
        ConnView {
            read: self.read_buf@,
            done_read: self.done_read,
            response: self.write_buf@,
            sent: self.bytes_written as nat,
        }
    }
}

impl WebSocket {
    /// The count of sent bytes stays within the response.
    pub open spec fn wf(&self) -> bool {
        self.bytes_written <= self.write_buf@.len()
    }

    /// The response bytes not sent yet.
    pub open spec fn pending(&self) -> Seq<u8> {
        self.write_buf@.subrange(self.bytes_written as int, self.write_buf@.len() as int)
    }

    /// The state of a freshly accepted connection.
    pub fn new_client() -> (s: WebSocket)
        ensures
            s.read_buf@ == Seq::<u8>::empty(),
            !s.done_read,
            s.write_buf@ == Seq::<u8>::empty(),
            s.bytes_written == 0,
            s@ == fresh_conn(),
    {
        WebSocket {
            read_buf: Vec::with_capacity(1024),
            done_read: false,
            write_buf: Vec::with_capacity(1024),
            bytes_written: 0,
        }
    }

    /// Puts a connection's state back together from its parts.
    pub fn continued_stream(
        read_buf: Vec<u8>,
        done_read: bool,
        write_buf: Vec<u8>,
        bytes_written: usize,
    ) -> (s: WebSocket)
        ensures
            s.read_buf == read_buf,
            s.done_read == done_read,
            s.write_buf == write_buf,
            s.bytes_written == bytes_written,
    {
        WebSocket { read_buf, done_read, write_buf, bytes_written }
    }

    /// Records the outcome of one `read` call (see `absorb_read`).
    pub fn read_step(&mut self, outcome: Result<&[u8], IoFailure>) -> (progress: ReadProgress)
        ensures
            final(self)@ == apply_step(old(self)@, ConnStep::Read(read_outcome_view(outcome))),
            final(self).read_buf@ == buffer_after_read(old(self).read_buf@, read_outcome_view(outcome)),
            progress == progress_after_read(read_outcome_view(outcome)),
            final(self).done_read == old(self).done_read,
            final(self).write_buf@ == old(self).write_buf@,
            final(self).bytes_written == old(self).bytes_written,
    {
        absorb_read(&mut self.read_buf, outcome)
    }

    /// After a read loop: the request is complete once the buffer ends with
    /// a blank line, and stays complete. Returns whether the buffer ends with
    /// a blank line now.
    pub fn finish_read(&mut self) -> (ends: bool)
        ensures
            final(self)@ == apply_step(old(self)@, ConnStep::Finish),
            ends == ends_request(old(self).read_buf@),
            final(self).done_read == (old(self).done_read || ends),
            final(self).read_buf@ == old(self).read_buf@,
            final(self).write_buf@ == old(self).write_buf@,
            final(self).bytes_written == old(self).bytes_written,
    {
        let ends = request_complete(self.read_buf.as_slice());
        if ends {
            self.done_read = true;
        }
        ends
    }

    /// Whether to send on this event: only once the request is complete and
    /// the stream is writable.
    pub fn may_write(&self, writable: bool) -> (send: bool)
        ensures
            send == (writable && self.done_read),
    {
        writable && self.done_read
    }

    /// Before the first write, the response is prepared: the response head
    /// followed by the request. A response already prepared is kept. Only a
    /// complete request is answered.
    pub fn begin_response(&mut self)
        requires
            old(self).wf(),
            old(self).done_read,
        ensures
            final(self)@ == apply_step(old(self)@, ConnStep::Respond),
            final(self).wf(),
            old(self).write_buf@.len() == 0 ==> final(self).write_buf@ == response_head()
                + old(self).read_buf@,
            old(self).write_buf@.len() == 0 ==> final(self).pending() == response_head()
                + old(self).read_buf@,
            old(self).write_buf@.len() != 0 ==> final(self).write_buf@ == old(self).write_buf@,
            final(self).bytes_written == old(self).bytes_written,
            final(self).read_buf@ == old(self).read_buf@,
            final(self).done_read == old(self).done_read,
    {
        if self.write_buf.len() == 0 {
            self.write_buf = echo_response(self.read_buf.as_slice());
            assert(self.pending() =~= self.write_buf@);
        }
    }

    /// The part of the response that still has to be sent; there is a
    /// response to send only once the request is complete.
    pub fn unwritten(&self) -> (rest: &[u8])
        requires
            self.wf(),
            self.done_read,
        ensures
            rest@ == self.pending(),
    {
        let len = self.write_buf.len();
        &self.write_buf.as_slice()[self.bytes_written..len]
    }

    /// Records the outcome of one `write` call that was offered `unwritten()`
    /// (see `absorb_write`). Returns whether to write again. Only the
    /// response to a complete request is written.
    pub fn write_step(&mut self, outcome: Result<usize, IoFailure>) -> (again: bool)
        requires
            old(self).wf(),
            old(self).done_read,
            outcome matches Ok(n) ==> n <= old(self).pending().len(),
        ensures
            final(self)@ == apply_step(old(self)@, ConnStep::Write(outcome)),
            final(self).wf(),
            final(self).bytes_written == written_after_write(old(self).bytes_written as nat, outcome),
            again == continue_after_write(outcome),
            final(self).read_buf@ == old(self).read_buf@,
            final(self).write_buf@ == old(self).write_buf@,
            final(self).done_read == old(self).done_read,
    {
        let total = self.write_buf.len();
        absorb_write(&mut self.bytes_written, total, outcome)
    }

    /// Whether the whole response has been sent.
    pub fn write_complete(&self) -> (done: bool)
        ensures
            done == (self.bytes_written == self.write_buf@.len()),
    {
        self.bytes_written == self.write_buf.len()
    }

    /// Whether the connection stays registered after an event: it is
    /// dropped when its read loop found the stream closed (`closed`), and
    /// when the event's writes (`wrote`) have sent the whole response.
    pub fn stays_open(&self, closed: bool, wrote: bool) -> (keep: bool)
        ensures
            keep == (!closed && !(wrote && self.bytes_written == self.write_buf@.len())),
    {
        !closed && !(wrote && self.write_complete())
    }
}

/// With the count of sent bytes within the response, the response is fully
/// sent exactly when nothing is pending.
pub proof fn lemma_complete_iff_nothing_pending(s: WebSocket)
    requires
        s.wf(),
    ensures
        (s.bytes_written == s.write_buf@.len()) <==> s.pending().len() == 0,
{
}

/// Writes account for every byte: after a write step that accepted `n`
/// bytes, what is pending is what was pending with its first `n` bytes
/// removed.
pub proof fn lemma_write_consumes_pending(before: WebSocket, after: WebSocket, n: usize)
    requires
        before.wf(),
        n <= before.pending().len(),
        after.write_buf@ == before.write_buf@,
        after.bytes_written == before.bytes_written + n,
    ensures
        after.wf(),
        after.pending() == before.pending().subrange(n as int, before.pending().len() as int),
{
    assert(after.pending() =~= before.pending().subrange(n as int, before.pending().len() as int));
}

} // verus!
