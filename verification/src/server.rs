use vstd::prelude::*;

use crate::client::ReadWrite;
use crate::transfer::{buffer_after_read, IoFailure};

verus! {

/// The poll token under which the listening socket is registered; every
/// other token is the slab key of a client.
pub const SERVER_TOKEN: usize = usize::MAX - 1;

/// Where a readiness event is delivered.
#[derive(Clone, Copy, Debug, PartialEq, Eq, Structural)]
pub enum Target {
    /// The listening socket: accept a new connection.
    Listener,
    /// The client stored under this key.
    Client(usize),
}

/// Routes the token of a readiness event for a server whose listening
/// socket is registered under `listener`.
pub fn route_token(listener: usize, token: usize) -> (t: Target)
    ensures
        t == (if token == listener { Target::Listener } else { Target::Client(token) }),
{
    if token == listener {
        Target::Listener
    } else {
        Target::Client(token)
    }
}

/// Routes the token of a readiness event of the socket server.
pub fn route(token: usize) -> (t: Target)
    ensures
        t == (if token == SERVER_TOKEN { Target::Listener } else { Target::Client(token) }),
{
    route_token(SERVER_TOKEN, token)
}

/// What the server does with a client whose stream was readable, once the
/// read loop has ended.
#[derive(Debug)]
pub enum ClientOutcome {
    /// The peer closed the stream: report the close, shut the stream down
    /// and forget the client.
    Closed,
    /// Hand these bytes to the message handler and keep the client.
    Message(Vec<u8>),
}

/// Decides on a readable client after its read loop ended; `stream_closed`
/// is what the read loop reported. On a closed stream the buffer stays as it
/// is; otherwise everything buffered so far is taken out as the message and
/// the buffer is left empty.
pub fn handle_readable(rw: &mut ReadWrite, stream_closed: bool) -> (outcome: ClientOutcome)
    ensures
        stream_closed ==> outcome is Closed && final(rw).read_buf@ == old(rw).read_buf@,
        !stream_closed ==> (outcome matches ClientOutcome::Message(m) && m@ == old(rw).read_buf@),
        !stream_closed ==> final(rw).read_buf@ == Seq::<u8>::empty(),
        final(rw).write_buf@ == old(rw).write_buf@,
        final(rw).written_bytes == old(rw).written_bytes,
        final(rw).done_read == old(rw).done_read,
        final(rw).done_write == old(rw).done_write,
{
    if stream_closed {
        ClientOutcome::Closed
    } else {
        let mut message: Vec<u8> = Vec::new();
        std::mem::swap(&mut message, &mut rw.read_buf);
        ClientOutcome::Message(message)
    }
}

/// One step of the server on a connected client's read buffer.
pub enum ClientStep {
    /// One `read` call with this outcome.
    Read(Result<Seq<u8>, IoFailure>),
    /// A read loop ended with the stream open: the buffer is handed to the
    /// message handler (`handle_readable` with `stream_closed` false).
    Deliver,
}

/// The messages handed to the message handler over a series of steps that
/// start with `buf` in the read buffer, in order.
pub open spec fn messages_of(buf: Seq<u8>, steps: Seq<ClientStep>) -> Seq<Seq<u8>>
    decreases steps.len(),
{
    if steps.len() == 0 {
        Seq::empty()
    } else {
        match steps[0] {
            ClientStep::Read(outcome) => messages_of(buffer_after_read(buf, outcome), steps.drop_first()),
            ClientStep::Deliver => seq![buf] + messages_of(Seq::empty(), steps.drop_first()),
        }
    }
}

/// The read buffer after a series of steps that start with `buf` in it.
pub open spec fn buffer_of(buf: Seq<u8>, steps: Seq<ClientStep>) -> Seq<u8>
    decreases steps.len(),
{
    if steps.len() == 0 {
        buf
    } else {
        match steps[0] {
            ClientStep::Read(outcome) => buffer_of(buffer_after_read(buf, outcome), steps.drop_first()),
            ClientStep::Deliver => buffer_of(Seq::empty(), steps.drop_first()),
        }
    }
}

/// Every byte the reads of a series of steps delivered, in order.
pub open spec fn bytes_read(steps: Seq<ClientStep>) -> Seq<u8>
    decreases steps.len(),
{
    if steps.len() == 0 {
        Seq::empty()
    } else {
        let first = match steps[0] {
            ClientStep::Read(Ok(chunk)) => chunk,
            _ => Seq::empty(),
        };
        first + bytes_read(steps.drop_first())
    }
}

/// No byte a client sends is lost, duplicated or reordered on its way to
/// the message handler: the messages handed over, one after another,
/// followed by what is still buffered, are what was buffered at the start
/// followed by every byte read.
pub proof fn lemma_messages_carry_every_byte(buf: Seq<u8>, steps: Seq<ClientStep>)
    ensures
        messages_of(buf, steps).flatten() + buffer_of(buf, steps) == buf + bytes_read(steps),
    decreases steps.len(),
{
    if steps.len() == 0 {
        assert(Seq::<Seq<u8>>::empty().flatten() =~= Seq::<u8>::empty());
        assert(Seq::<u8>::empty() + buf =~= buf);
        assert(buf + Seq::<u8>::empty() =~= buf);
    } else {
        let rest = steps.drop_first();
        match steps[0] {
            ClientStep::Read(outcome) => {
                let next = buffer_after_read(buf, outcome);
                lemma_messages_carry_every_byte(next, rest);
                let first = match outcome {
                    Ok(chunk) => chunk,
                    Err(_) => Seq::<u8>::empty(),
                };
                assert(next =~= buf + first);
                assert(bytes_read(steps) == first + bytes_read(rest));
                assert(buf + first + bytes_read(rest) =~= buf + (first + bytes_read(rest)));
            },
            ClientStep::Deliver => {
                lemma_messages_carry_every_byte(Seq::empty(), rest);
                let ms = seq![buf] + messages_of(Seq::empty(), rest);
                assert(ms.first() == buf);
                assert(ms.drop_first() =~= messages_of(Seq::empty(), rest));
                assert(bytes_read(steps) =~= bytes_read(rest));
                assert(Seq::<u8>::empty() + bytes_read(rest) =~= bytes_read(rest));
                assert(ms.flatten() == buf + messages_of(Seq::empty(), rest).flatten());
                assert(buf + messages_of(Seq::empty(), rest).flatten() + buffer_of(Seq::empty(), rest)
                    =~= buf + (messages_of(Seq::empty(), rest).flatten() + buffer_of(Seq::empty(), rest)));
            },
        }
    }
}

} // verus!
