//! The event dispatcher: each transport event becomes one registry update
//! plus one [`DispatchAction`] telling the I/O layer which caller-supplied
//! handler to schedule. The dispatch functions return before any handler
//! runs, so the transport's own loop is never blocked on business logic,
//! and a handler failure stays inside its own scheduled invocation.
//!
//! The ordering contract of the dispatcher is deregister-then-notify: by
//! the time [`handle_disconnect`] returns its action, the session is gone
//! from the registry, so a later message event for the same id is dropped
//! as stale rather than handed to a handler.

use vstd::prelude::*;

use crate::manager::ConnectionManager;
use crate::manager::Session;
use crate::server::ChatServer;
use crate::server::GatewayState;

verus! {

/// A wire message as the dispatcher sees it: a numeric message-type
/// identifier and an opaque byte payload.
#[derive(Debug, Clone)]
pub struct Packet {
    pub message_id: u32,
    pub payload: Vec<u8>,
}

/// Why an event was dropped instead of dispatched.
#[derive(Clone, Copy, PartialEq, Eq, Structural, Debug)]
pub enum DropReason {
    /// The event referenced a session id no longer (or not yet) in the
    /// registry: a benign race between transport events and verification.
    StaleSessionReference,
    /// The gateway is not in its listening phase and accepts no new
    /// connection.
    NotAccepting,
}

/// What the I/O layer must do after a dispatch function returns: schedule
/// the named caller-supplied handler as an isolated task, or drop the
/// event and log the reason.
#[derive(Debug)]
pub enum DispatchAction {
    RunConnectHandler { session_id: usize },
    RunMessageHandler { session: Session, packet: Packet },
    RunDisconnectHandler { session_id: usize },
    Dropped { reason: DropReason },
}

/// A connect event: while the gateway listens, the session is registered
/// and the connect handler is scheduled; outside the listening phase the
/// event is dropped and nothing is registered.
pub fn handle_connect(server: &mut ChatServer, session: Session) -> (r: DispatchAction)
    requires
        old(server).wf(),
    ensures
        final(server).wf(),
        final(server).state == old(server).state,
        final(server).config == old(server).config,
        final(server).container == old(server).container,
        old(server).state == GatewayState::Listening ==> ConnectionManager::add_effect(
            old(server).connection_manager,
            session.id,
            session,
            final(server).connection_manager,
        ) && r == (DispatchAction::RunConnectHandler { session_id: session.id }),
        old(server).state != GatewayState::Listening ==> *final(server) == *old(server) && r == (
        DispatchAction::Dropped { reason: DropReason::NotAccepting }),
{
    if server.state == GatewayState::Listening {
        server.connection_manager.add_connection(session.id, session);
        DispatchAction::RunConnectHandler { session_id: session.id }
    } else {
        DispatchAction::Dropped { reason: DropReason::NotAccepting }
    }
}

/// A message event: the registry is read, never written. A live session
/// yields a message-handler action carrying the session and the packet; a
/// stale id — the session already disconnected, a legitimate race — drops
/// the event.
pub fn handle_message(server: &ChatServer, session_id: usize, packet: Packet) -> (r:
    DispatchAction)
    requires
        server.wf(),
    ensures
        server.connection_manager.spec_has(session_id) ==> r == (
        DispatchAction::RunMessageHandler {
            session: server.connection_manager.spec_session(session_id),
            packet: packet,
        }),
        !server.connection_manager.spec_has(session_id) ==> r == (DispatchAction::Dropped {
            reason: DropReason::StaleSessionReference,
        }),
{
    match server.connection_manager.get_connection(session_id) {
        Some(session) => DispatchAction::RunMessageHandler { session, packet },
        None => DispatchAction::Dropped { reason: DropReason::StaleSessionReference },
    }
}

/// A disconnect event: the session is removed from the registry — from
/// `by_id` and from its user's `by_user` record — before the disconnect
/// handler is scheduled, so once this returns no message event for the id
/// can reach a handler. A disconnect for an id that is not live drops the
/// event instead.
pub fn handle_disconnect(server: &mut ChatServer, session_id: usize) -> (r: DispatchAction)
    requires
        old(server).wf(),
    ensures
        final(server).wf(),
        final(server).state == old(server).state,
        final(server).config == old(server).config,
        final(server).container == old(server).container,
        ConnectionManager::remove_effect(
            old(server).connection_manager,
            session_id,
            final(server).connection_manager,
        ),
        old(server).connection_manager.spec_has(session_id) ==> r == (
        DispatchAction::RunDisconnectHandler { session_id: session_id }),
        !old(server).connection_manager.spec_has(session_id) ==> r == (DispatchAction::Dropped {
            reason: DropReason::StaleSessionReference,
        }),
{
    let was_live = server.connection_manager.get_connection(session_id).is_some();
    server.connection_manager.remove_connection(session_id);
    if was_live {
        DispatchAction::RunDisconnectHandler { session_id }
    } else {
        DispatchAction::Dropped { reason: DropReason::StaleSessionReference }
    }
}

} // verus!
