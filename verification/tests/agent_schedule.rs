use qubit::agent_kube::InformerType;
use qubit::agent_schedule::{AgentAction, AgentEvent, AgentSchedule, RESYNC_PERIOD_SECS};

#[test]
fn startup_sends_map_then_routes_then_starts_watchers() {
    let mut s = AgentSchedule::new();
    assert_eq!(
        s.next_actions(AgentEvent::Started),
        vec![AgentAction::SendPodServiceMap, AgentAction::SendEnvoyRoutes, AgentAction::StartInformers]
    );
    assert!(!s.is_stopped());
}

#[test]
fn first_tick_is_skipped_and_later_ticks_resync() {
    assert_eq!(RESYNC_PERIOD_SECS, 30);
    let mut s = AgentSchedule::new();
    s.next_actions(AgentEvent::Started);
    assert!(s.next_actions(AgentEvent::Tick).is_empty());
    for _ in 0..3 {
        assert_eq!(
            s.next_actions(AgentEvent::Tick),
            vec![AgentAction::SendPodServiceMap, AgentAction::SendEnvoyRoutes]
        );
    }
}

#[test]
fn failed_send_does_not_stop_the_agent() {
    let mut s = AgentSchedule::new();
    s.next_actions(AgentEvent::Started);
    assert!(s.next_actions(AgentEvent::SendFailed).is_empty());
    assert!(!s.is_stopped());
    s.next_actions(AgentEvent::Tick);
    assert_eq!(s.next_actions(AgentEvent::Tick).len(), 2);
}

#[test]
fn optional_watchers_may_end() {
    let mut s = AgentSchedule::new();
    s.next_actions(AgentEvent::Started);
    for kind in [InformerType::Rollout, InformerType::ExternalSecret, InformerType::HttpProxy, InformerType::VirtualService] {
        assert!(s.next_actions(AgentEvent::InformerFinished(kind)).is_empty());
        assert!(!s.is_stopped());
    }
}

#[test]
fn core_watcher_end_stops_the_agent() {
    for kind in [
        InformerType::ConfigMap,
        InformerType::Service,
        InformerType::Pod,
        InformerType::Deployment,
        InformerType::ReplicaSet,
        InformerType::Ingress,
        InformerType::Event,
        InformerType::Hpa,
        InformerType::Node,
    ] {
        let mut s = AgentSchedule::new();
        s.next_actions(AgentEvent::Started);
        assert_eq!(s.next_actions(AgentEvent::InformerFinished(kind)), vec![AgentAction::Stop]);
        assert!(s.is_stopped());
        assert!(s.next_actions(AgentEvent::Tick).is_empty());
    }
}

#[test]
fn shutdown_signal_stops_the_agent() {
    let mut s = AgentSchedule::new();
    s.next_actions(AgentEvent::Started);
    assert_eq!(s.next_actions(AgentEvent::ShutdownSignal), vec![AgentAction::Stop]);
    assert!(s.is_stopped());
    assert!(s.next_actions(AgentEvent::Started).is_empty());
    assert!(s.next_actions(AgentEvent::ShutdownSignal).is_empty());
}
