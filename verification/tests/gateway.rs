use simgate::UserHandle;
use simgate::auth::Auth;
use simgate::gateway::{Action, ClientFrame, ConnState, Gateway};
use simgate::packets::{ClientToServerPacket, ServerToClientPacket};

fn authed_conn(g: &mut Gateway, auth: &mut Auth, user_id: usize, now: u64) -> usize {
    let token = auth.generate_token(UserHandle { id: user_id }, now);
    let id = g.accept();
    let act = g.handle_frame(id, ClientFrame::Auth { token }, auth, now);
    assert_eq!(act, Action::Continue);
    id
}

#[test]
fn first_frame_must_be_auth() {
    let mut auth = Auth::new();
    let mut g = Gateway::new();
    let id = g.accept();
    let act = g.handle_frame(
        id,
        ClientFrame::Packet(ClientToServerPacket::Hi("hello".to_string())),
        &mut auth,
        0,
    );
    assert_eq!(act, Action::ClosePolicy);
    assert!(matches!(g.state_of(id), ConnState::Closed));
    // nothing from the gated connection ever reached the simulation
    assert!(g.drain_inbound().is_empty());
}

#[test]
fn garbage_first_frame_closes_connection() {
    let mut auth = Auth::new();
    let mut g = Gateway::new();
    let a = g.accept();
    assert_eq!(g.handle_frame(a, ClientFrame::Malformed, &mut auth, 0), Action::ClosePolicy);
    let b = g.accept();
    assert_eq!(g.handle_frame(b, ClientFrame::Binary, &mut auth, 0), Action::ClosePolicy);
    assert!(g.drain_inbound().is_empty());
}

#[test]
fn invalid_token_closes_connection() {
    let mut auth = Auth::new();
    let mut g = Gateway::new();
    let id = g.accept();
    let act = g.handle_frame(
        id,
        ClientFrame::Auth { token: "bogus".to_string() },
        &mut auth,
        0,
    );
    assert_eq!(act, Action::ClosePolicy);
    assert!(matches!(g.state_of(id), ConnState::Closed));
}

#[test]
fn expired_token_closes_connection() {
    let mut auth = Auth::new();
    let mut g = Gateway::new();
    let token = auth.generate_token(UserHandle { id: 4 }, 0);
    let id = g.accept();
    let act = g.handle_frame(id, ClientFrame::Auth { token }, &mut auth, 60_001);
    assert_eq!(act, Action::ClosePolicy);
    assert!(matches!(g.state_of(id), ConnState::Closed));
}

#[test]
fn closed_connection_is_inert() {
    let mut auth = Auth::new();
    let mut g = Gateway::new();
    let id = g.accept();
    g.handle_frame(id, ClientFrame::Malformed, &mut auth, 0);
    let act = g.handle_frame(
        id,
        ClientFrame::Packet(ClientToServerPacket::Hi("late".to_string())),
        &mut auth,
        0,
    );
    assert_eq!(act, Action::Stop);
    assert!(g.drain_inbound().is_empty());
}

#[test]
fn malformed_frames_after_auth_are_dropped_silently() {
    let mut auth = Auth::new();
    let mut g = Gateway::new();
    let id = authed_conn(&mut g, &mut auth, 1, 0);
    assert_eq!(g.handle_frame(id, ClientFrame::Malformed, &mut auth, 0), Action::Continue);
    assert_eq!(g.handle_frame(id, ClientFrame::Binary, &mut auth, 0), Action::Continue);
    assert!(matches!(g.state_of(id), ConnState::Authenticated { .. }));
    assert!(g.drain_inbound().is_empty());
}

#[test]
fn disconnect_closes_authenticated_connection() {
    let mut auth = Auth::new();
    let mut g = Gateway::new();
    let id = authed_conn(&mut g, &mut auth, 1, 0);
    assert_eq!(g.handle_frame(id, ClientFrame::Disconnected, &mut auth, 0), Action::Stop);
    assert!(matches!(g.state_of(id), ConnState::Closed));
}

#[test]
fn per_connection_ordering_is_preserved() {
    let mut auth = Auth::new();
    let mut g = Gateway::new();
    let c0 = authed_conn(&mut g, &mut auth, 1, 0);
    let c1 = authed_conn(&mut g, &mut auth, 2, 0);
    let a = ClientToServerPacket::Hi("A".to_string());
    let x = ClientToServerPacket::Hi("X".to_string());
    let b = ClientToServerPacket::Hi("B".to_string());
    g.handle_frame(c0, ClientFrame::Packet(a), &mut auth, 1);
    g.handle_frame(c1, ClientFrame::Packet(x), &mut auth, 2);
    let first = g.drain_inbound();
    g.handle_frame(c0, ClientFrame::Packet(b), &mut auth, 3);
    let second = g.drain_inbound();
    let from_c0: Vec<&ClientToServerPacket> = first
        .iter()
        .chain(second.iter())
        .filter(|e| e.conn == c0)
        .map(|e| &e.packet)
        .collect();
    assert_eq!(from_c0.len(), 2);
    assert_eq!(*from_c0[0], ClientToServerPacket::Hi("A".to_string()));
    assert_eq!(*from_c0[1], ClientToServerPacket::Hi("B".to_string()));
}

#[test]
fn drain_returns_empty_when_nothing_is_pending() {
    let mut auth = Auth::new();
    let mut g = Gateway::new();
    assert!(g.drain_inbound().is_empty());
    let _ = authed_conn(&mut g, &mut auth, 1, 0);
    g.publish(ServerToClientPacket::CounterChanged { name: "foo".to_string(), value: 1 });
    // outbound traffic never appears on the inbound side
    assert!(g.drain_inbound().is_empty());
}

#[test]
fn broadcast_reaches_every_authenticated_connection() {
    let mut auth = Auth::new();
    let mut g = Gateway::new();
    let c0 = authed_conn(&mut g, &mut auth, 1, 0);
    let c1 = authed_conn(&mut g, &mut auth, 2, 0);
    let msg = ServerToClientPacket::CounterChanged { name: "foo".to_string(), value: 5 };
    g.publish(msg);
    // a connection that authenticates after the publish never sees it
    let late = authed_conn(&mut g, &mut auth, 3, 0);
    assert_eq!(
        g.next_outbound(c0),
        Some(ServerToClientPacket::CounterChanged { name: "foo".to_string(), value: 5 })
    );
    assert_eq!(g.next_outbound(c0), None);
    assert_eq!(
        g.next_outbound(c1),
        Some(ServerToClientPacket::CounterChanged { name: "foo".to_string(), value: 5 })
    );
    assert_eq!(g.next_outbound(late), None);
}

#[test]
fn broadcasts_arrive_in_publish_order() {
    let mut auth = Auth::new();
    let mut g = Gateway::new();
    let id = authed_conn(&mut g, &mut auth, 1, 0);
    g.publish(ServerToClientPacket::CounterChanged { name: "n".to_string(), value: 1 });
    g.publish(ServerToClientPacket::PositionChanged(
        42,
        simgate::character::PrecisePosition {
            position: simgate::character::Position { x: 12, y: 16, z: 2 },
            precise_x: 0,
            precise_y: 0,
            precise_z: 0,
        },
    ));
    assert_eq!(
        g.next_outbound(id),
        Some(ServerToClientPacket::CounterChanged { name: "n".to_string(), value: 1 })
    );
    assert!(matches!(
        g.next_outbound(id),
        Some(ServerToClientPacket::PositionChanged(42, _))
    ));
    assert_eq!(g.next_outbound(id), None);
}

#[test]
fn unauthenticated_connection_receives_no_broadcasts() {
    let mut auth = Auth::new();
    let mut g = Gateway::new();
    let id = g.accept();
    g.publish(ServerToClientPacket::CounterChanged { name: "foo".to_string(), value: 1 });
    assert_eq!(g.next_outbound(id), None);
}

#[test]
fn end_to_end_handshake_scenario() {
    let mut auth = Auth::new();
    let mut g = Gateway::new();
    let user = UserHandle { id: 1 };
    let token = auth.generate_token(user, 0);

    // connect and present the token: authenticated, pump opens
    let first = g.accept();
    let act = g.handle_frame(first, ClientFrame::Auth { token: token.clone() }, &mut auth, 10);
    assert_eq!(act, Action::Continue);
    assert!(matches!(g.state_of(first), ConnState::Authenticated { .. }));
    let act = g.handle_frame(
        first,
        ClientFrame::Packet(ClientToServerPacket::Hi("hello".to_string())),
        &mut auth,
        11,
    );
    assert_eq!(act, Action::Continue);
    let drained = g.drain_inbound();
    assert_eq!(drained.len(), 1);
    assert_eq!(drained[0].conn, first);
    assert_eq!(drained[0].packet, ClientToServerPacket::Hi("hello".to_string()));

    // reconnect and replay the same token: single use, closed with policy
    let second = g.accept();
    let act = g.handle_frame(second, ClientFrame::Auth { token }, &mut auth, 12);
    assert_eq!(act, Action::ClosePolicy);
    assert!(matches!(g.state_of(second), ConnState::Closed));

    // garbage before anything else on a fresh connection: closed at once
    let third = g.accept();
    let act = g.handle_frame(third, ClientFrame::Malformed, &mut auth, 13);
    assert_eq!(act, Action::ClosePolicy);
    assert!(matches!(g.state_of(third), ConnState::Closed));

    // the first connection is untouched by the other two
    assert!(matches!(g.state_of(first), ConnState::Authenticated { .. }));
}

#[test]
fn server_side_close_is_terminal() {
    let mut auth = Auth::new();
    let mut g = Gateway::new();
    let id = authed_conn(&mut g, &mut auth, 1, 0);
    g.close(id);
    assert!(matches!(g.state_of(id), ConnState::Closed));
    g.publish(ServerToClientPacket::CounterChanged { name: "foo".to_string(), value: 1 });
    assert_eq!(g.next_outbound(id), None);
}
