//! A reduced gateway shell: the lifecycle and the session registry without
//! a service locator, for deployments that wire their business services
//! statically instead of resolving them at run time.

use vstd::prelude::*;

use crate::config::ServerConfig;
use crate::manager::ConnectionManager;
use crate::server::GatewayError;
use crate::server::GatewayState;

verus! {

/// The reduced shell: lifecycle state, configuration and session registry.
pub struct GateServer {
    pub state: GatewayState,
    pub config: ServerConfig,
    pub connection_manager: ConnectionManager,
}

impl GateServer {
    /// The shell invariant: the registry is well formed and the
    /// configuration names at least one transport.
    pub open spec fn wf(self) -> bool {
        &&& self.connection_manager.wf()
        &&& self.config.spec_has_transport()
    }

    /// Builds the shell in `Configured` state with an empty registry.
    /// Construction fails fast with
    /// [`GatewayError::NoTransportConfigured`] if and only if the
    /// configuration names no transport.
    pub fn new(config: ServerConfig) -> (r: Result<GateServer, GatewayError>)
        ensures
            r is Ok <==> config.spec_has_transport(),
            r is Err ==> r == Err::<GateServer, GatewayError>(GatewayError::NoTransportConfigured),
            r matches Ok(s) ==> {
                &&& s.wf()
                &&& s.state == GatewayState::Configured
                &&& s.config == config
                &&& forall|id: usize| !s.connection_manager.spec_has(id)
                &&& forall|u: Seq<char>|
                    s.connection_manager.spec_user_ids(u) == Seq::<usize>::empty()
            },
    {
        if !config.has_transport() {
            return Err(GatewayError::NoTransportConfigured);
        }
        Ok(
            GateServer {
                state: GatewayState::Configured,
                config,
                connection_manager: ConnectionManager::new(),
            },
        )
    }

    /// Opens the listening phase, exactly once: a second call is the
    /// caller error [`GatewayError::AlreadyStarted`] and changes nothing.
    pub fn start(&mut self) -> (r: Result<(), GatewayError>)
        requires
            old(self).wf(),
        ensures
            final(self).wf(),
            r is Ok <==> old(self).state == GatewayState::Configured,
            r is Err ==> r == Err::<(), GatewayError>(GatewayError::AlreadyStarted) && *final(self)
                == *old(self),
            r is Ok ==> *final(self) == (GateServer {
                state: GatewayState::Listening,
                ..*old(self)
            }),
    {
        if self.state == GatewayState::Configured {
            self.state = GatewayState::Listening;
            Ok(())
        } else {
            Err(GatewayError::AlreadyStarted)
        }
    }

    /// Read access to the session registry.
    pub fn connection_manager(&self) -> (r: &ConnectionManager)
        ensures
            r == &self.connection_manager,
    {
        &self.connection_manager
    }
}

} // verus!
