//! The connection gateway and the channel bridge to the simulation tick.
//!
//! Each transport connection runs a two-phase handshake: the first frame it
//! sends must be a well-formed auth payload whose token validates, or the
//! connection is closed before anything from it can reach the simulation.
//! Once authenticated, its commands are forwarded into a shared inbound
//! queue that the simulation drains without blocking once per tick, and it is
//! owed every message published to the broadcast stream from the moment of
//! authentication on — never anything published before.
//!
//! The gateway itself never waits: callers feed it decoded frames and carry
//! out the action it decides on, so all suspension lives with the transport.

use vstd::prelude::*;
use vstd::pervasive::VecAdditionalExecFns;

use crate::UserHandle;
use crate::auth::{Auth, spec_validate};
use crate::packets::{ClientToServerPacket, ServerToClientPacket};

verus! {

/// Lifecycle of one connection.
///
/// A connection moves only forward: `Unauthenticated` to `Authenticated` to
/// `Closed` (possibly skipping `Authenticated`), and `Closed` is terminal.
#[derive(Debug, Clone, Copy, PartialEq, Eq, Structural)]
pub enum ConnState {
    /// Accepted; exactly one auth message is awaited, nothing else is read.
    Unauthenticated,
    /// Handshake succeeded; the duplex pump may run for this user.
    Authenticated { user: UserHandle },
    /// Terminal: nothing further is observed from or delivered to it.
    Closed,
}

/// One frame from a connection, after transport decoding.
///
/// The transport layer turns each websocket frame into one of these: a text
/// frame is parsed against the shape the connection's phase expects, and a
/// read error or peer close becomes `Disconnected`.
pub enum ClientFrame {
    /// A well-formed auth payload `{ token }`.
    Auth { token: String },
    /// A well-formed application command.
    Packet(ClientToServerPacket),
    /// A text frame that did not decode as any recognized message.
    Malformed,
    /// A non-text frame.
    Binary,
    /// The peer disconnected, or reading from the transport failed.
    Disconnected,
}

/// What the transport must do with the connection after a frame is handled.
#[derive(Debug, Clone, Copy, PartialEq, Eq, Structural)]
pub enum Action {
    /// Keep the connection's pump running.
    Continue,
    /// Send a policy close carrying `token_invalid`, then release the
    /// connection.
    ClosePolicy,
    /// Release the connection without a close notification.
    Stop,
}

/// Per-connection bookkeeping held by the gateway.
#[derive(Debug, Clone, Copy, PartialEq, Eq, Structural)]
pub struct Connection {
    pub state: ConnState,
    /// Position in the publish history of the next message owed to this
    /// connection; meaningful once authenticated.
    pub cursor: usize,
    /// Length the publish history had at the moment of authentication. The
    /// cursor never drops below it, so nothing published earlier is ever
    /// delivered here.
    pub subscribed_at: usize,
}

/// One inbound command together with the connection it came from.
#[derive(Debug, PartialEq, Eq)]
pub struct InboundEntry {
    pub conn: usize,
    pub packet: ClientToServerPacket,
}

/// The per-connection state machine.
///
/// Given a connection, the frame it sent, what token validation returned (in
/// the single case where the handshake consults the auth provider, `None`
/// otherwise), and the subscription point a successful handshake would get,
/// this yields the connection afterwards, the action owed to the transport,
/// and the command to forward to the simulation, if any.
pub open spec fn spec_step(
    c: Connection,
    frame: ClientFrame,
    validated: Option<UserHandle>,
    sub: usize,
) -> (Connection, Action, Option<ClientToServerPacket>) {
    match c.state {
        ConnState::Unauthenticated => match frame {
            ClientFrame::Auth { token: _ } => match validated {
                Some(user) => (
                    Connection {
                        state: ConnState::Authenticated { user },
                        cursor: sub,
                        subscribed_at: sub,
                    },
                    Action::Continue,
                    None,
                ),
                None => (
                    Connection {
                        state: ConnState::Closed,
                        cursor: c.cursor,
                        subscribed_at: c.subscribed_at,
                    },
                    Action::ClosePolicy,
                    None,
                ),
            },
            ClientFrame::Disconnected => (
                Connection {
                    state: ConnState::Closed,
                    cursor: c.cursor,
                    subscribed_at: c.subscribed_at,
                },
                Action::Stop,
                None,
            ),
            _ => (
                Connection {
                    state: ConnState::Closed,
                    cursor: c.cursor,
                    subscribed_at: c.subscribed_at,
                },
                Action::ClosePolicy,
                None,
            ),
        },
        ConnState::Authenticated { user: _ } => match frame {
            ClientFrame::Packet(p) => (c, Action::Continue, Some(p)),
            ClientFrame::Disconnected => (
                Connection {
                    state: ConnState::Closed,
                    cursor: c.cursor,
                    subscribed_at: c.subscribed_at,
                },
                Action::Stop,
                None,
            ),
            _ => (c, Action::Continue, None),
        },
        ConnState::Closed => (c, Action::Stop, None),
    }
}

/// What token validation sees for a given connection and frame: the auth
/// provider is consulted exactly when an unauthenticated connection sends an
/// auth payload.
pub open spec fn spec_consulted(
    c: Connection,
    frame: ClientFrame,
) -> Option<Seq<char>> {
    match (c.state, frame) {
        (ConnState::Unauthenticated, ClientFrame::Auth { token }) => Some(token@),
        _ => None,
    }
}

/// The connection gateway with the channel bridge to the simulation.
///
/// Abstractly it holds: the connections and their states; the queue of
/// commands pending for the simulation (`inbound_now`); the full history of
/// published broadcast messages (`published`); and, as ghost bookkeeping,
/// everything already handed to the simulation (`taken`).
pub struct Gateway {
    connections: Vec<Connection>,
    inbound: Vec<InboundEntry>,
    outbound: Vec<ServerToClientPacket>,
    drained: Ghost<Seq<InboundEntry>>,
}

impl Gateway {
    /// The connections, by identifier.
    pub closed spec fn conns(&self) -> Seq<Connection> {
        self.connections@
    }

    /// Commands forwarded but not yet drained by the simulation.
    pub closed spec fn inbound_now(&self) -> Seq<InboundEntry> {
        self.inbound@
    }

    /// The full history of published broadcast messages, oldest first.
    pub closed spec fn published(&self) -> Seq<ServerToClientPacket> {
        self.outbound@
    }

    /// Everything the simulation has already drained, in drain order.
    pub closed spec fn taken(&self) -> Seq<InboundEntry> {
        self.drained@
    }

    /// Everything ever forwarded toward the simulation, in forwarding order:
    /// what was already drained followed by what is still pending. Each
    /// operation either leaves this stream unchanged or appends one entry,
    /// so an entry's position in it never changes.
    pub open spec fn observed(&self) -> Seq<InboundEntry> {
        self.taken() + self.inbound_now()
    }

    /// The slice of the publish history still owed to connection `i`.
    pub open spec fn pending(&self, i: int) -> Seq<ServerToClientPacket> {
        self.published().subrange(self.conns()[i].cursor as int, self.published().len() as int)
    }

    /// The gateway's invariant: every cursor lies between its connection's
    /// subscription point and the end of the publish history.
    pub open spec fn wf(&self) -> bool {
        forall|i: int| 0 <= i < self.conns().len() ==> {
            let c = #[trigger] self.conns()[i];
            c.subscribed_at <= c.cursor && c.cursor <= self.published().len()
        }
    }

    /// Creates a gateway with no connections and empty queues.
    pub fn new() -> (g: Gateway)
        ensures
            g.wf(),
            g.conns() == Seq::<Connection>::empty(),
            g.inbound_now() == Seq::<InboundEntry>::empty(),
            g.published() == Seq::<ServerToClientPacket>::empty(),
            g.taken() == Seq::<InboundEntry>::empty(),
    {
        Gateway {
            connections: Vec::new(),
            inbound: Vec::new(),
            outbound: Vec::new(),
            drained: Ghost(Seq::empty()),
        }
    }

    /// How many connections have been accepted over the gateway's lifetime.
    pub fn conn_count(&self) -> (n: usize)
        ensures
            n == self.conns().len(),
    {
        self.connections.len()
    }

    /// The current lifecycle state of connection `id`.
    pub fn state_of(&self, id: usize) -> (s: ConnState)
        requires
            id < self.conns().len(),
        ensures
            s == self.conns()[id as int].state,
    {
        self.connections[id].state
    }

    /// Registers a newly accepted connection and returns its identifier.
    /// The connection starts unauthenticated: until its handshake succeeds,
    /// nothing it sends is forwarded and nothing is delivered to it.
    pub fn accept(&mut self) -> (id: usize)
        requires
            old(self).wf(),
        ensures
            final(self).wf(),
            id == old(self).conns().len(),
            final(self).conns() == old(self).conns().push(
                (Connection { state: ConnState::Unauthenticated, cursor: 0, subscribed_at: 0 }),
            ),
            final(self).inbound_now() == old(self).inbound_now(),
            final(self).published() == old(self).published(),
            final(self).taken() == old(self).taken(),
    {
        let id = self.connections.len();
        self.connections.push(
            Connection { state: ConnState::Unauthenticated, cursor: 0, subscribed_at: 0 },
        );
        id
    }

    /// Handles one decoded frame from connection `id`.
    ///
    /// An unauthenticated connection must present a valid token and is closed
    /// with a policy indication otherwise; its handshake is its single
    /// lifetime validation attempt, and it subscribes to the broadcast stream
    /// at the moment it succeeds, with nothing pending. An authenticated
    /// connection has well-formed commands forwarded, unrecognized frames
    /// silently dropped, and a disconnect closes it. A closed connection is
    /// inert. Nothing a connection sends before authenticating — nor after
    /// closing — ever reaches the simulation.
    pub fn handle_frame(
        &mut self,
        id: usize,
        frame: ClientFrame,
        auth: &mut Auth,
        now: u64,
    ) -> (act: Action)
        requires
            old(self).wf(),
            old(auth).wf(),
            id < old(self).conns().len(),
        ensures
            final(self).wf(),
            final(auth).wf(),
            final(self).published() == old(self).published(),
            final(self).taken() == old(self).taken(),
            final(self).conns().len() == old(self).conns().len(),
            forall|j: int| 0 <= j < old(self).conns().len() && j != id
                ==> final(self).conns()[j] == old(self).conns()[j],
            // the auth store is consumed only by the one handshake validation
            (match spec_consulted(old(self).conns()[id as int], frame) {
                Some(token) => final(auth)@ == spec_validate(old(auth)@, token, now).1,
                None => final(auth)@ == old(auth)@,
            }),
            // the connection, the action and the forwarded command follow the
            // state machine, fed with what validation actually returned
            ({
                let validated = (match spec_consulted(old(self).conns()[id as int], frame) {
                    Some(token) => spec_validate(old(auth)@, token, now).0,
                    None => None,
                });
                let step = spec_step(
                    old(self).conns()[id as int],
                    frame,
                    validated,
                    old(self).published().len() as usize,
                );
                final(self).conns()[id as int] == step.0 && act == step.1 && (match step.2 {
                    Some(p) => final(self).observed() == old(self).observed().push(
                        (InboundEntry { conn: id, packet: p }),
                    ) && final(self).inbound_now() == old(self).inbound_now().push(
                        (InboundEntry { conn: id, packet: p }),
                    ),
                    None => final(self).observed() == old(self).observed()
                        && final(self).inbound_now() == old(self).inbound_now(),
                })
            }),
            // handshake gating: only an authenticated connection can add to
            // what the simulation observes
            !(old(self).conns()[id as int].state matches ConnState::Authenticated { user })
                ==> final(self).observed() == old(self).observed(),
            // no replay: authenticating subscribes at the end of the publish
            // history, so the fresh subscriber has nothing pending
            (old(self).conns()[id as int].state is Unauthenticated && final(self).conns()[
                id as int
            ].state matches ConnState::Authenticated { user }) ==> final(self).pending(id as int)
                == Seq::<ServerToClientPacket>::empty(),
    {
        let state = self.connections[id].state;
        match state {
            ConnState::Unauthenticated => {
                match frame {
                    ClientFrame::Auth { token } => {
                        let validated = auth.validate_token(token.as_str(), now);
                        match validated {
                            Some(user) => {
                                let sub = self.outbound.len();
                                self.connections.set(
                                    id,
                                    Connection {
                                        state: ConnState::Authenticated { user },
                                        cursor: sub,
                                        subscribed_at: sub,
                                    },
                                );
                                proof {
                                    assert(self.pending(id as int)
                                        =~= Seq::<ServerToClientPacket>::empty());
                                }
                                Action::Continue
                            }
                            None => {
                                self.close_at(id);
                                Action::ClosePolicy
                            }
                        }
                    }
                    ClientFrame::Disconnected => {
                        self.close_at(id);
                        Action::Stop
                    }
                    _ => {
                        self.close_at(id);
                        Action::ClosePolicy
                    }
                }
            }
            ConnState::Authenticated { user: _ } => {
                match frame {
                    ClientFrame::Packet(packet) => {
                        let ghost pre = self.observed();
                        self.inbound.push(InboundEntry { conn: id, packet });
                        proof {
                            assert(self.observed() =~= pre.push(
                                InboundEntry { conn: id, packet },
                            ));
                        }
                        Action::Continue
                    }
                    ClientFrame::Disconnected => {
                        self.close_at(id);
                        Action::Stop
                    }
                    _ => Action::Continue,
                }
            }
            ConnState::Closed => Action::Stop,
        }
    }

    /// Moves connection `id` to its terminal state, keeping its bookkeeping.
    fn close_at(&mut self, id: usize)
        requires
            old(self).wf(),
            id < old(self).conns().len(),
        ensures
            final(self).wf(),
            final(self).conns() == old(self).conns().update(
                id as int,
                (Connection {
                    state: ConnState::Closed,
                    cursor: old(self).conns()[id as int].cursor,
                    subscribed_at: old(self).conns()[id as int].subscribed_at,
                }),
            ),
            final(self).inbound_now() == old(self).inbound_now(),
            final(self).published() == old(self).published(),
            final(self).taken() == old(self).taken(),
    {
        let c = self.connections[id];
        self.connections.set(
            id,
            Connection {
                state: ConnState::Closed,
                cursor: c.cursor,
                subscribed_at: c.subscribed_at,
            },
        );
    }

    /// Closes connection `id` from the server side, as after a failed
    /// outbound write or when one pump direction of the pair terminates.
    /// Terminal for that connection; everything else is untouched.
    pub fn close(&mut self, id: usize)
        requires
            old(self).wf(),
            id < old(self).conns().len(),
        ensures
            final(self).wf(),
            final(self).conns().len() == old(self).conns().len(),
            final(self).conns()[id as int].state is Closed,
            forall|j: int| 0 <= j < old(self).conns().len() && j != id
                ==> final(self).conns()[j] == old(self).conns()[j],
            final(self).inbound_now() == old(self).inbound_now(),
            final(self).published() == old(self).published(),
            final(self).taken() == old(self).taken(),
    {
        self.close_at(id);
    }

    /// Publishes one broadcast message for delivery to every connection
    /// authenticated now: each of their pending slices grows by exactly this
    /// message, at the end. The call never waits on any consumer, and a
    /// connection that authenticates only later will never be owed it.
    pub fn publish(&mut self, packet: ServerToClientPacket)
        requires
            old(self).wf(),
        ensures
            final(self).wf(),
            final(self).published() == old(self).published().push(packet),
            final(self).conns() == old(self).conns(),
            final(self).inbound_now() == old(self).inbound_now(),
            final(self).taken() == old(self).taken(),
            forall|i: int| 0 <= i < old(self).conns().len()
                ==> final(self).pending(i) == old(self).pending(i).push(packet),
    {
        self.outbound.push(packet);
        proof {
            let pre = old(self);
            assert forall|i: int| 0 <= i < pre.conns().len()
                implies self.pending(i) == pre.pending(i).push(packet) by {
                assert(self.pending(i) =~= pre.pending(i).push(packet));
            }
        }
    }

    /// Hands connection `id` the next broadcast message it is owed, if any.
    ///
    /// Delivery walks the publish history in order from the connection's
    /// cursor, which never lies before its subscription point: messages
    /// published after its authentication arrive in publish order, and
    /// nothing published before is ever returned. Yields nothing for a
    /// connection that is not authenticated or has caught up.
    pub fn next_outbound(&mut self, id: usize) -> (r: Option<ServerToClientPacket>)
        requires
            old(self).wf(),
            id < old(self).conns().len(),
        ensures
            final(self).wf(),
            final(self).published() == old(self).published(),
            final(self).inbound_now() == old(self).inbound_now(),
            final(self).taken() == old(self).taken(),
            final(self).conns().len() == old(self).conns().len(),
            forall|j: int| 0 <= j < old(self).conns().len() && j != id
                ==> final(self).conns()[j] == old(self).conns()[j],
            (match r {
                Some(p) => {
                    let c = old(self).conns()[id as int];
                    c.state matches ConnState::Authenticated { user }
                        && old(self).pending(id as int).len() > 0
                        && p == old(self).pending(id as int)[0]
                        && p == old(self).published()[c.cursor as int]
                        && c.cursor >= c.subscribed_at
                        && final(self).conns()[id as int] == (Connection {
                            state: c.state,
                            cursor: (c.cursor + 1) as usize,
                            subscribed_at: c.subscribed_at,
                        })
                        && final(self).pending(id as int) == old(self).pending(
                            id as int,
                        ).drop_first()
                },
                None => final(self).conns() == old(self).conns() && (old(self).conns()[
                    id as int
                ].state matches ConnState::Authenticated { user } ==> old(self).pending(
                    id as int,
                ).len() == 0),
            }),
    {
        let c = self.connections[id];
        match c.state {
            ConnState::Authenticated { user: _ } => {
                if c.cursor < self.outbound.len() {
                    let p = self.outbound[c.cursor].clone();
                    self.connections.set(
                        id,
                        Connection {
                            state: c.state,
                            cursor: c.cursor + 1,
                            subscribed_at: c.subscribed_at,
                        },
                    );
                    proof {
                        assert(self.pending(id as int)
                            =~= old(self).pending(id as int).drop_first());
                    }
                    Some(p)
                } else {
                    None
                }
            }
            _ => None,
        }
    }

    /// Drains every command currently pending for the simulation, in
    /// forwarding order, leaving the queue empty. There is nothing to wait
    /// for: when no command is pending the result is empty at once, so a
    /// tick that calls this never blocks on the network.
    pub fn drain_inbound(&mut self) -> (r: Vec<InboundEntry>)
        requires
            old(self).wf(),
        ensures
            final(self).wf(),
            r@ == old(self).inbound_now(),
            final(self).inbound_now() == Seq::<InboundEntry>::empty(),
            final(self).taken() == old(self).taken() + r@,
            final(self).observed() == old(self).observed(),
            final(self).conns() == old(self).conns(),
            final(self).published() == old(self).published(),
    {
        let mut out: Vec<InboundEntry> = Vec::new();
        core::mem::swap(&mut out, &mut self.inbound);
        proof {
            self.drained@ = self.drained@ + out@;
            assert(self.observed() =~= old(self).observed());
        }
        out
    }
}

/// A connection's lifecycle only moves forward. A closed connection is inert
/// whatever arrives; an authenticated connection either stays authenticated
/// as the same user or closes, and never returns to the handshake phase; and
/// only the handshake consults the token store, so each connection gets at
/// most one lifetime validation attempt.
pub proof fn lemma_connection_moves_forward(
    c: Connection,
    frame: ClientFrame,
    validated: Option<UserHandle>,
    sub: usize,
)
    ensures
        c.state is Closed ==> spec_step(c, frame, validated, sub) == (c, Action::Stop, Option::<
            ClientToServerPacket,
        >::None),
        spec_step(c, frame, validated, sub).0.state is Unauthenticated
            ==> c.state is Unauthenticated,
        forall|user: UserHandle|
            c.state == (ConnState::Authenticated { user }) ==> {
                let after = spec_step(c, frame, validated, sub).0.state;
                after == (ConnState::Authenticated { user }) || after is Closed
            },
        spec_consulted(c, frame) is Some ==> c.state is Unauthenticated,
{
}

/// The commands the simulation observes from connection `c`, in order.
pub open spec fn from_conn(s: Seq<InboundEntry>, c: usize) -> Seq<InboundEntry> {
    s.filter(|e: InboundEntry| e.conn == c)
}

/// Per-connection ordering: forwarding one more command appends to the
/// sending connection's observed stream and leaves every other connection's
/// stream unchanged. Since every gateway operation either leaves the
/// observed stream alone or pushes one entry onto it (see `handle_frame` and
/// `drain_inbound`), commands from one connection are observed in exactly
/// the order that connection sent them.
pub proof fn lemma_per_connection_ordering(s: Seq<InboundEntry>, e: InboundEntry, c: usize)
    ensures
        e.conn == c ==> from_conn(s.push(e), c) == from_conn(s, c).push(e),
        e.conn != c ==> from_conn(s.push(e), c) == from_conn(s, c),
{
    reveal(Seq::filter);
    assert(s.push(e).drop_last() =~= s);
    assert(s.push(e).last() == e);
}

/// Per-connection ordering holds across any number of operations: whenever
/// one observed stream extends another, each connection's view of the later
/// stream extends its view of the earlier one, so once command A stands
/// before command B for its sender, it does so in every later state and in
/// every drain.
pub proof fn lemma_per_connection_ordering_preserved(
    s: Seq<InboundEntry>,
    t: Seq<InboundEntry>,
    c: usize,
)
    requires
        s.is_prefix_of(t),
    ensures
        from_conn(s, c).is_prefix_of(from_conn(t, c)),
    decreases t.len(),
{
    if s.len() == t.len() {
        assert(s =~= t);
    } else {
        let shorter = t.drop_last();
        assert(s.is_prefix_of(shorter)) by {
            assert(s =~= shorter.subrange(0, s.len() as int));
        }
        lemma_per_connection_ordering_preserved(s, shorter, c);
        lemma_per_connection_ordering(shorter, t.last(), c);
        assert(shorter.push(t.last()) =~= t);
        if t.last().conn == c {
            assert(from_conn(s, c) =~= from_conn(t, c).subrange(0, from_conn(s, c).len() as int));
        }
    }
}

} // verus!
