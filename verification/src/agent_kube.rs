//! The watch machinery of the cluster agent: the resources it follows and
//! the handler interface its watchers call.

use vstd::prelude::*;

verus! {

/// The resources the cluster agent watches.
#[derive(Clone, Copy, Debug, PartialEq, Eq, Structural)]
pub enum InformerType {
    Service,
    ConfigMap,
    Pod,
    Deployment,
    ReplicaSet,
    Ingress,
    Event,
    Hpa,
    Node,
    Rollout,
    ExternalSecret,
    HttpProxy,
    VirtualService,
}

/// Whether a watcher of this kind may fail without stopping the agent: the
/// custom resources, whose definitions may not be installed.
pub open spec fn optional_kind(t: InformerType) -> bool {
    t is Rollout || t is ExternalSecret || t is HttpProxy || t is VirtualService
}

impl InformerType {
    /// Whether a watcher of this kind may fail without stopping the agent.
    pub fn is_optional(&self) -> (r: bool)
        ensures
            r == optional_kind(*self),
    {
        match self {
            InformerType::Rollout | InformerType::ExternalSecret | InformerType::HttpProxy
            | InformerType::VirtualService => true,
            _ => false,
        }
    }
}

/// What a watcher calls as resources come and go; every method does
/// nothing unless an implementation says otherwise.
pub trait EventHandler<K> {
    /// A resource was created or changed.
    fn on_apply(&self, _resource: &K) {
    }

    /// A resource was deleted.
    fn on_delete(&self, _resource: &K) {
    }

    /// A resource was listed by the initial sync.
    fn on_init_apply(&self, _resource: &K) {
    }

    /// The initial sync is complete.
    fn on_init_done(&self) {
    }
}

/// The spec of an Argo Rollout; only the metadata is read.
pub struct RolloutSpec {}

/// The spec of an ExternalSecret; only the metadata is read.
pub struct ExternalSecretSpec {}

/// The spec of a Contour HTTPProxy; only the metadata is read.
pub struct HttpProxySpec {}

/// The spec of an Istio VirtualService; only the metadata is read.
pub struct VirtualServiceSpec {}

} // verus!
