//! The cluster agent's schedule: what it sends to the core service on
//! startup and at each resync, and when it stops. The agent's driver
//! performs each action and reports back what happened as an event.
//!
//! On startup the agent sends the pod→service map, then the Envoy routes,
//! then starts its watchers. Every `RESYNC_PERIOD_SECS` it sends both again,
//! so that the core service recovers what it lost in a restart; the first
//! tick of the resync timer fires at once and is skipped, the startup send
//! having just happened. A failed send is only reported. The agent stops on
//! a shutdown signal or when one of its core watchers ends; the watchers of
//! custom resources may end without stopping it.

use vstd::prelude::*;
use crate::agent_kube::{optional_kind, InformerType};

verus! {

/// What the driver reports to the schedule.
#[derive(Clone, Copy, Debug, PartialEq, Eq, Structural)]
pub enum AgentEvent {
    /// The agent has started.
    Started,
    /// The resync timer fired.
    Tick,
    /// A send to the core service failed.
    SendFailed,
    /// The watcher of the given kind has ended.
    InformerFinished(InformerType),
    /// A shutdown signal arrived.
    ShutdownSignal,
}

/// What the schedule asks the driver to do, in order.
#[derive(Clone, Copy, Debug, PartialEq, Eq, Structural)]
pub enum AgentAction {
    /// Send the full pod→service map to the core service.
    SendPodServiceMap,
    /// Send the Envoy routes read from the ConfigMaps.
    SendEnvoyRoutes,
    /// Start the watchers.
    StartInformers,
    /// Stop the agent.
    Stop,
}

/// The period of the resync timer, in seconds.
pub const RESYNC_PERIOD_SECS: u64 = 30;

/// A watcher whose end stops the agent: every kind but the custom resources.
pub open spec fn is_core_informer(k: InformerType) -> bool {
    !optional_kind(k)
}

/// The agent's schedule: how many resync ticks it has seen and whether it
/// has stopped.
pub struct AgentSchedule {
    ticks_seen: u64,
    stopped: bool,
}

impl AgentSchedule {
    /// How many resync ticks have been seen (at most `u64::MAX`).
    pub closed spec fn ticks_seen(&self) -> u64 {
        self.ticks_seen
    }

    /// Whether the agent has stopped.
    pub closed spec fn stopped(&self) -> bool {
        self.stopped
    }

    /// The schedule of an agent that has not started: no tick seen, not
    /// stopped.
    pub fn new() -> (r: Self)
        ensures
            r.ticks_seen() == 0,
            !r.stopped(),
    {
        AgentSchedule { ticks_seen: 0, stopped: false }
    }

    /// Whether the agent has stopped.
    pub fn is_stopped(&self) -> (r: bool)
        ensures
            r == self.stopped(),
    {
        self.stopped
    }

    /// The actions for an event, in the order the driver performs them.
    /// A stopped agent does nothing more.
    pub fn next_actions(&mut self, event: AgentEvent) -> (r: Vec<AgentAction>)
        ensures
            old(self).stopped() ==> r@.len() == 0 && *final(self) == *old(self),
            !old(self).stopped() ==> match event {
                AgentEvent::Started => r@ == seq![
                    AgentAction::SendPodServiceMap,
                    AgentAction::SendEnvoyRoutes,
                    AgentAction::StartInformers,
                ] && *final(self) == *old(self),
                AgentEvent::Tick => (if old(self).ticks_seen() == 0 {
                    r@.len() == 0
                } else {
                    r@ == seq![AgentAction::SendPodServiceMap, AgentAction::SendEnvoyRoutes]
                }) && !final(self).stopped() && final(self).ticks_seen() == (if old(self).ticks_seen()
                    < u64::MAX {
                    old(self).ticks_seen() + 1
                } else {
                    old(self).ticks_seen() as int
                }),
                AgentEvent::SendFailed => r@.len() == 0 && *final(self) == *old(self),
                AgentEvent::InformerFinished(k) => if is_core_informer(k) {
                    r@ == seq![AgentAction::Stop] && final(self).stopped() && final(self).ticks_seen()
                        == old(self).ticks_seen()
                } else {
                    r@.len() == 0 && *final(self) == *old(self)
                },
                AgentEvent::ShutdownSignal => r@ == seq![AgentAction::Stop] && final(self).stopped()
                    && final(self).ticks_seen() == old(self).ticks_seen(),
            },
    {
        if self.stopped {
            return Vec::new();
        }
        match event {
            AgentEvent::Started => vec![
                AgentAction::SendPodServiceMap,
                AgentAction::SendEnvoyRoutes,
                AgentAction::StartInformers,
            ],
            AgentEvent::Tick => {
                let first = self.ticks_seen == 0;
                self.ticks_seen = self.ticks_seen.saturating_add(1);
                if first {
                    Vec::new()
                } else {
                    vec![AgentAction::SendPodServiceMap, AgentAction::SendEnvoyRoutes]
                }
            },
            AgentEvent::SendFailed => Vec::new(),
            AgentEvent::InformerFinished(k) => {
                if k.is_optional() {
                    Vec::new()
                } else {
                    self.stopped = true;
                    vec![AgentAction::Stop]
                }
            },
            AgentEvent::ShutdownSignal => {
                self.stopped = true;
                vec![AgentAction::Stop]
            },
        }
    }
}

} // verus!
