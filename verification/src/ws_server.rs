use vstd::prelude::*;

use crate::server::{route_token, Target};

verus! {

/// The poll token of the listening socket.
pub const LISTENER_TOKEN: usize = 0;

/// A client that has hung more often than this is disconnected.
pub const MAX_HANGS: usize = 3;

/// The bookkeeping of the counter-based server: client tokens are handed
/// out by counting accepted connections, and `clients` holds the tokens of
/// the connected clients.
pub struct WebsocketServer {
    pub counter: usize,
    pub clients: Vec<usize>,
}

/// What the counter-based server does with a client on a readiness event.
#[derive(Clone, Copy, Debug, PartialEq, Eq, Structural)]
pub enum ClientAction {
    /// Shut the connection down and stop watching it.
    Disconnect,
    /// Send what the client has pending.
    Write,
    /// Read what the client sent.
    Read,
    /// Nothing to do on this event.
    Wait,
}

impl WebsocketServer {
    /// Every connected client's token was handed out (it lies in
    /// `1..=counter`), and no token is held twice.
    pub open spec fn wf(&self) -> bool {
        &&& forall|i: int| 0 <= i < self.clients@.len() ==> 1 <= #[trigger] self.clients@[i] <= self.counter
        &&& self.clients@.no_duplicates()
    }

    /// No connection accepted yet, and no client connected.
    pub fn new() -> (s: WebsocketServer)
        ensures
            s.counter == 0,
            s.clients@ == Seq::<usize>::empty(),
            s.wf(),
    {
        WebsocketServer { counter: 0, clients: Vec::new() }
    }

    /// Counts one more accepted connection and records it as connected
    /// under the token it returns.
    pub fn next_token(&mut self) -> (token: usize)
        requires
            old(self).wf(),
            old(self).counter < usize::MAX,
        ensures
            final(self).wf(),
            final(self).counter == old(self).counter + 1,
            token == final(self).counter,
            token != LISTENER_TOKEN,
            !old(self).clients@.contains(token),
            final(self).clients@ == old(self).clients@.push(token),
    {
        self.counter = self.counter + 1;
        let token = self.counter;
        self.clients.push(token);
        proof {
            let c = self.clients@;
            assert forall|i: int, j: int| 0 <= i < c.len() && 0 <= j < c.len() && i != j implies c[i] != c[j] by {
                if i < c.len() - 1 && j < c.len() - 1 {
                    assert(old(self).clients@[i] == c[i] && old(self).clients@[j] == c[j]);
                } else if i < c.len() - 1 {
                    assert(old(self).clients@[i] == c[i]);
                } else if j < c.len() - 1 {
                    assert(old(self).clients@[j] == c[j]);
                }
            }
            if old(self).clients@.contains(token) {
                let k = choose|k: int| 0 <= k < old(self).clients@.len() && old(self).clients@[k] == token;
                assert(1 <= old(self).clients@[k] <= old(self).counter);
            }
        }
        token
    }

    /// Forgets the connected client with this token (a hung client, shut
    /// down by the caller).
    pub fn disconnect(&mut self, token: usize)
        requires
            old(self).wf(),
            old(self).clients@.contains(token),
        ensures
            final(self).wf(),
            final(self).counter == old(self).counter,
            final(self).clients@.to_set() == old(self).clients@.to_set().remove(token),
            final(self).clients@.len() == old(self).clients@.len() - 1,
    {
        let ghost before = self.clients@;
        let mut i: usize = 0;
        loop
            invariant_except_break
                self.clients@ == before,
                0 <= i <= before.len(),
                forall|k: int| 0 <= k < i ==> before[k] != token,
                before.contains(token),
            ensures
                self.clients@ == before,
                i < before.len(),
                before[i as int] == token,
            decreases before.len() - i,
        {
            if i == self.clients.len() {
                proof {
                    let k = choose|k: int| 0 <= k < before.len() && before[k] == token;
                    assert(before[k] != token);
                }
            }
            if self.clients[i] == token {
                break;
            }
            i = i + 1;
        }
        self.clients.remove(i);
        proof {
            let after = self.clients@;
            assert(after =~= before.remove(i as int));
            assert forall|a: int, b: int| 0 <= a < after.len() && 0 <= b < after.len() && a != b implies after[a] != after[b] by {
                let a2 = if a < i { a } else { a + 1 };
                let b2 = if b < i { b } else { b + 1 };
                assert(after[a] == before[a2] && after[b] == before[b2]);
            }
            assert forall|x: usize| #[trigger] after.to_set().contains(x) <==> before.to_set().remove(token).contains(x) by {
                if after.contains(x) {
                    let a = choose|a: int| 0 <= a < after.len() && after[a] == x;
                    let a2 = if a < i { a } else { a + 1 };
                    assert(before[a2] == x);
                    assert(a2 != i as int);
                }
                if before.contains(x) && x != token {
                    let b = choose|b: int| 0 <= b < before.len() && before[b] == x;
                    assert(b != i as int);
                    let a = if b < i { b } else { b - 1 };
                    assert(after[a] == x);
                }
            }
            assert(after.to_set() =~= before.to_set().remove(token));
            assert forall|k: int| 0 <= k < after.len() implies 1 <= #[trigger] after[k] <= self.counter by {
                let k2 = if k < i { k } else { k + 1 };
                assert(after[k] == before[k2]);
            }
        }
    }

    /// Routes the token of a readiness event.
    pub fn route(&self, token: usize) -> (t: Target)
        ensures
            t == (if token == LISTENER_TOKEN { Target::Listener } else { Target::Client(token) }),
    {
        route_token(LISTENER_TOKEN, token)
    }
}

/// The action on a client event: a client that hung more than `MAX_HANGS`
/// times is disconnected; otherwise a writable stream is written, else a
/// readable one is read.
pub fn client_action(hangs: usize, readable: bool, writable: bool) -> (a: ClientAction)
    ensures
        a == (if hangs > MAX_HANGS {
            ClientAction::Disconnect
        } else if writable {
            ClientAction::Write
        } else if readable {
            ClientAction::Read
        } else {
            ClientAction::Wait
        }),
{
    if hangs > MAX_HANGS {
        ClientAction::Disconnect
    } else if writable {
        ClientAction::Write
    } else if readable {
        ClientAction::Read
    } else {
        ClientAction::Wait
    }
}

/// One step of the counter-based server's bookkeeping.
pub enum ServerStep {
    /// A connection is accepted (`next_token`).
    Accept,
    /// The client with this token is disconnected (`disconnect`).
    Disconnect(usize),
}

/// The counter after a series of steps that start with it at `c`.
pub open spec fn counter_after(c: nat, steps: Seq<ServerStep>) -> nat
    decreases steps.len(),
{
    if steps.len() == 0 {
        c
    } else {
        counter_after(if steps[0] is Accept { c + 1 } else { c }, steps.drop_first())
    }
}

/// The token that step `i` of a series hands out when it is an accept: one
/// more than the counter the steps before it left.
pub open spec fn token_of_step(c: nat, steps: Seq<ServerStep>, i: int) -> nat {
    counter_after(c, steps.take(i)) + 1
}

proof fn lemma_counter_after_push(c: nat, steps: Seq<ServerStep>, x: ServerStep)
    ensures
        counter_after(c, steps.push(x)) == counter_after(c, steps) + (if x is Accept { 1nat } else { 0nat }),
    decreases steps.len(),
{
    if steps.len() == 0 {
        assert(steps.push(x)[0] == x);
        assert(steps.push(x).drop_first() =~= Seq::<ServerStep>::empty());
        let c2 = if x is Accept { c + 1 } else { c };
        assert(counter_after(c2, Seq::<ServerStep>::empty()) == c2);
    } else {
        let c2 = if steps[0] is Accept { c + 1 } else { c };
        lemma_counter_after_push(c2, steps.drop_first(), x);
        assert(steps.push(x)[0] == steps[0]);
        assert(steps.push(x).drop_first() =~= steps.drop_first().push(x));
    }
}

proof fn lemma_counter_grows(c: nat, steps: Seq<ServerStep>, i: int, j: int)
    requires
        0 <= i < j <= steps.len(),
    ensures
        counter_after(c, steps.take(j)) >= counter_after(c, steps.take(i)) + (if steps[i] is Accept { 1nat } else { 0nat }),
    decreases j - i,
{
    assert(steps.take(j) =~= steps.take(j - 1).push(steps[j - 1]));
    lemma_counter_after_push(c, steps.take(j - 1), steps[j - 1]);
    if j - 1 > i {
        lemma_counter_grows(c, steps, i, j - 1);
    }
}

/// Tokens are never reused: in any series of accepts and disconnects that
/// starts from counter `c`, every accept hands out a token above `c` (so
/// never the listener's token), and two different accepts hand out
/// different tokens, even when the first client has disconnected since.
pub proof fn lemma_tokens_never_reused(c: nat, steps: Seq<ServerStep>, i: int, j: int)
    requires
        0 <= i < j < steps.len(),
        steps[i] is Accept,
        steps[j] is Accept,
    ensures
        token_of_step(c, steps, i) > c,
        token_of_step(c, steps, i) != LISTENER_TOKEN,
        token_of_step(c, steps, i) < token_of_step(c, steps, j),
{
    lemma_counter_grows(c, steps, i, j);
    if i > 0 {
        lemma_counter_grows(c, steps, 0, i);
        assert(steps.take(0) =~= Seq::<ServerStep>::empty());
    } else {
        assert(steps.take(0) =~= Seq::<ServerStep>::empty());
    }
}

} // verus!
