//! Decisions of a pair's accept-loop supervisor.
//!
//! A supervisor owns one listening socket for its pair. The embedding
//! program performs the socket work and reports each outcome as an
//! event; this module decides, for every event, what to do next and
//! whether to keep listening. No runtime event ever stops the listener:
//! a failed accept is logged and the loop continues, a failed outbound
//! connect closes only that inbound connection, and a relay's end —
//! clean or failed — is only logged.

use vstd::prelude::*;

verus! {

use crate::addr::ProxyPair;
use crate::addr::ResolvedAddress;

/// What the embedding program observed on a pair's listener or on one
/// of its connections.
#[derive(Clone, Copy, Debug, PartialEq, Eq)]
pub enum SupervisorEvent {
    /// A new inbound connection was accepted.
    Accepted,
    /// An accept call failed.
    AcceptFailed,
    /// The outbound connection for an accepted inbound one is up.
    OutboundConnected,
    /// The outbound connect for an accepted inbound connection failed.
    OutboundConnectFailed,
    /// A connection's relay finished cleanly.
    RelayFinished,
    /// A connection's relay ended with an I/O error.
    RelayFailed,
}

/// What the supervisor asks the embedding program to do next.
#[derive(Clone, Copy, Debug, PartialEq, Eq)]
pub enum SupervisorAction {
    /// Open the outbound connection: a socket of the remote's family,
    /// bound to the configured local address first if there is one.
    OpenOutbound { remote: ResolvedAddress, local: Option<ResolvedAddress> },
    /// Log the failure and go on accepting.
    LogAndContinue,
    /// Hand both streams to the relay as an independent unit of work.
    StartRelay,
    /// Close the inbound connection; the listener and the other
    /// connections are untouched.
    CloseInbound,
    /// Log the connection's end with its byte accounting.
    LogConnectionClosed,
    /// Log the connection's failure with its context.
    LogConnectionFailed,
}

/// A decision: the action to take, and whether the accept loop goes on.
#[derive(Clone, Copy, Debug, PartialEq, Eq)]
pub struct SupervisorStep {
    pub action: SupervisorAction,
    pub keep_listening: bool,
}

/// The supervisor's reaction to each event. Every reaction keeps the
/// listener alive; connection-level failures stay connection-level.
pub open spec fn spec_on_event(pair: ProxyPair, ev: SupervisorEvent) -> SupervisorStep {
    match ev {
        SupervisorEvent::Accepted => SupervisorStep {
            action: SupervisorAction::OpenOutbound { remote: pair.remote, local: pair.local },
            keep_listening: true,
        },
        SupervisorEvent::AcceptFailed => SupervisorStep {
            action: SupervisorAction::LogAndContinue,
            keep_listening: true,
        },
        SupervisorEvent::OutboundConnected => SupervisorStep {
            action: SupervisorAction::StartRelay,
            keep_listening: true,
        },
        SupervisorEvent::OutboundConnectFailed => SupervisorStep {
            action: SupervisorAction::CloseInbound,
            keep_listening: true,
        },
        SupervisorEvent::RelayFinished => SupervisorStep {
            action: SupervisorAction::LogConnectionClosed,
            keep_listening: true,
        },
        SupervisorEvent::RelayFailed => SupervisorStep {
            action: SupervisorAction::LogConnectionFailed,
            keep_listening: true,
        },
    }
}

/// Decides what to do on one event of `pair`'s loop.
pub fn on_event(pair: &ProxyPair, ev: SupervisorEvent) -> (r: SupervisorStep)
    ensures
        r == spec_on_event(*pair, ev),
        r.keep_listening,
{
    match ev {
        SupervisorEvent::Accepted => SupervisorStep {
            action: SupervisorAction::OpenOutbound { remote: pair.remote, local: pair.local },
            keep_listening: true,
        },
        SupervisorEvent::AcceptFailed => SupervisorStep {
            action: SupervisorAction::LogAndContinue,
            keep_listening: true,
        },
        SupervisorEvent::OutboundConnected => SupervisorStep {
            action: SupervisorAction::StartRelay,
            keep_listening: true,
        },
        SupervisorEvent::OutboundConnectFailed => SupervisorStep {
            action: SupervisorAction::CloseInbound,
            keep_listening: true,
        },
        SupervisorEvent::RelayFinished => SupervisorStep {
            action: SupervisorAction::LogConnectionClosed,
            keep_listening: true,
        },
        SupervisorEvent::RelayFailed => SupervisorStep {
            action: SupervisorAction::LogConnectionFailed,
            keep_listening: true,
        },
    }
}

/// Law: no runtime event stops the accept loop; in particular a single
/// failed accept never terminates the listener.
pub proof fn lemma_listener_survives(pair: ProxyPair, ev: SupervisorEvent)
    ensures
        spec_on_event(pair, ev).keep_listening,
{
}

} // verus!
