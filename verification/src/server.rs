//! The gateway shell around the chat deployment: it owns the session
//! registry and the service locator for the process lifetime and walks the
//! lifecycle `Configured -> Listening -> ShuttingDown -> Stopped`.
//!
//! The shell holds no sockets itself: the I/O layer asks it (through
//! [`crate::config::transport_plan`]) which listeners to open, registers
//! the dispatch functions of [`crate::handlers`] with its transports, and
//! drives the state transitions here.

use vstd::prelude::*;

use crate::config::ServerConfig;
use crate::container::ServiceContainer;
use crate::manager::ConnectionManager;
use crate::service::chat::ChatService;

verus! {

/// Where the gateway stands in its lifecycle.
#[derive(Clone, Copy, PartialEq, Eq, Structural, Debug)]
pub enum GatewayState {
    /// Transports are planned from the configuration but not yet open.
    Configured,
    /// All configured transports accept connections.
    Listening,
    /// No new connection is accepted; in-flight work drains.
    ShuttingDown,
    /// Terminal: transports closed, registry drained.
    Stopped,
}

/// Why constructing or starting the gateway failed.
#[derive(Clone, Copy, PartialEq, Eq, Structural, Debug)]
pub enum GatewayError {
    /// The configuration names no transport at all.
    NoTransportConfigured,
    /// `start` was called on a gateway that had already left `Configured`.
    AlreadyStarted,
}

/// The locator key of the chat-delivery service.
pub const CHAT_SERVICE_KEY: u64 = 1;

/// The gateway shell: lifecycle state, the configuration it was built
/// from, the session registry and the service locator.
pub struct ChatServer {
    pub state: GatewayState,
    pub config: ServerConfig,
    pub connection_manager: ConnectionManager,
    pub container: ServiceContainer<ChatService>,
}

impl ChatServer {
    /// The shell invariant: both owned components are well formed and the
    /// configuration names at least one transport.
    pub open spec fn wf(self) -> bool {
        &&& self.connection_manager.wf()
        &&& self.container.wf()
        &&& self.config.spec_has_transport()
    }

    /// Builds the gateway in `Configured` state: the registry empty, the
    /// locator populated with the business services. Construction fails
    /// fast with [`GatewayError::NoTransportConfigured`] if and only if the
    /// configuration names no transport.
    pub fn new(config: ServerConfig) -> (r: Result<ChatServer, GatewayError>)
        ensures
            r is Ok <==> config.spec_has_transport(),
            r is Err ==> r == Err::<ChatServer, GatewayError>(GatewayError::NoTransportConfigured),
            r matches Ok(s) ==> {
                &&& s.wf()
                &&& s.state == GatewayState::Configured
                &&& s.config == config
                &&& forall|id: usize| !s.connection_manager.spec_has(id)
                &&& forall|u: Seq<char>|
                    s.connection_manager.spec_user_ids(u) == Seq::<usize>::empty()
                &&& s.container.spec_registered(CHAT_SERVICE_KEY)
                &&& s.container.spec_service(CHAT_SERVICE_KEY) == ChatService {  }
            },
    {
        if !config.has_transport() {
            return Err(GatewayError::NoTransportConfigured);
        }
        let mut container: ServiceContainer<ChatService> = ServiceContainer::new();
        Self::register_containers(&mut container);
        Ok(
            ChatServer {
                state: GatewayState::Configured,
                config,
                connection_manager: ConnectionManager::new(),
                container,
            },
        )
    }

    /// Populates a fresh locator with the gateway's business services:
    /// exactly the chat service, under its key.
    fn register_containers(container: &mut ServiceContainer<ChatService>)
        requires
            old(container).wf(),
            forall|k: u64| !old(container).spec_registered(k),
        ensures
            final(container).wf(),
            final(container).spec_registered(CHAT_SERVICE_KEY),
            final(container).spec_service(CHAT_SERVICE_KEY) == (ChatService {  }),
    {
        let r = container.register(CHAT_SERVICE_KEY, ChatService::new());
        proof {
            assert(r is Ok);
        }
    }

    /// Opens the listening phase: a gateway in `Configured` state moves to
    /// `Listening` and the I/O layer may begin delivering events. Calling
    /// `start` in any later state is a caller error,
    /// [`GatewayError::AlreadyStarted`], and changes nothing.
    pub fn start(&mut self) -> (r: Result<(), GatewayError>)
        requires
            old(self).wf(),
        ensures
            final(self).wf(),
            r is Ok <==> old(self).state == GatewayState::Configured,
            r is Err ==> r == Err::<(), GatewayError>(GatewayError::AlreadyStarted) && *final(self)
                == *old(self),
            r is Ok ==> *final(self) == (ChatServer {
                state: GatewayState::Listening,
                ..*old(self)
            }),
    {
        if self.state == GatewayState::Configured {
            self.state = GatewayState::Listening;
            Ok(())
        } else {
            Err(GatewayError::AlreadyStarted)
        }
    }

    /// Begins the drain: a listening gateway stops accepting new
    /// connections. In any other state this changes nothing.
    pub fn begin_shutdown(&mut self)
        requires
            old(self).wf(),
        ensures
            final(self).wf(),
            old(self).state == GatewayState::Listening ==> *final(self) == (ChatServer {
                state: GatewayState::ShuttingDown,
                ..*old(self)
            }),
            old(self).state != GatewayState::Listening ==> *final(self) == *old(self),
    {
        if self.state == GatewayState::Listening {
            self.state = GatewayState::ShuttingDown;
        }
    }

    /// Ends the lifecycle: a draining gateway becomes `Stopped`. In any
    /// other state this changes nothing.
    pub fn stop(&mut self)
        requires
            old(self).wf(),
        ensures
            final(self).wf(),
            old(self).state == GatewayState::ShuttingDown ==> *final(self) == (ChatServer {
                state: GatewayState::Stopped,
                ..*old(self)
            }),
            old(self).state != GatewayState::ShuttingDown ==> *final(self) == *old(self),
    {
        if self.state == GatewayState::ShuttingDown {
            self.state = GatewayState::Stopped;
        }
    }

    /// Read access to the session registry.
    pub fn connection_manager(&self) -> (r: &ConnectionManager)
        ensures
            r == &self.connection_manager,
    {
        &self.connection_manager
    }

    /// Read access to the service locator.
    pub fn container(&self) -> (r: &ServiceContainer<ChatService>)
        ensures
            r == &self.container,
    {
        &self.container
    }
}

} // verus!
