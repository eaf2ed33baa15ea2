//! The watch machinery of the core service: which resources it follows and
//! the handler interface the watchers call.

use vstd::prelude::*;
use std::sync::Arc;
use crate::config::QubitConfig;

verus! {

/// The resources the core service watches.
#[derive(Clone, Copy, Debug, PartialEq, Eq)]
pub enum InformerType {
    Service,
    ConfigMap,
}

/// What a watcher calls as resources come and go; every method does
/// nothing unless an implementation says otherwise.
pub trait EventHandler<K> {
    /// A resource was created or changed.
    fn on_apply(&self, _resource: &K) {
    }

    /// A resource was deleted.
    fn on_delete(&self, _resource: &K) {
    }

    /// A resource was listed by the initial sync.
    fn on_init_apply(&self, _resource: &K) {
    }

    /// The initial sync is complete.
    fn on_init_done(&self) {
    }
}

/// Makes the watchers of the core service.
pub struct InformerFactoryImpl {
    config: Arc<QubitConfig>,
}

impl InformerFactoryImpl {
    /// A factory for the given settings.
    pub fn new(config: Arc<QubitConfig>) -> (r: Self)
        ensures
            r.settings() == config,
    {
        InformerFactoryImpl { config }
    }

    /// The settings the watchers are made with.
    pub closed spec fn settings(&self) -> Arc<QubitConfig> {
        self.config
    }

    /// The settings the watchers are made with.
    pub fn config(&self) -> (r: &Arc<QubitConfig>)
        ensures
            *r == self.settings(),
    {
        &self.config
    }
}

/// Runs the watchers of the core service.
pub struct K8sServiceImpl {
    config: Arc<QubitConfig>,
}

impl K8sServiceImpl {
    /// A service for the given settings.
    pub fn new(config: Arc<QubitConfig>) -> (r: Self)
        ensures
            r.settings() == config,
    {
        K8sServiceImpl { config }
    }

    /// The settings the watchers run with.
    pub closed spec fn settings(&self) -> Arc<QubitConfig> {
        self.config
    }

    /// The settings the watchers run with.
    pub fn config(&self) -> (r: &Arc<QubitConfig>)
        ensures
            *r == self.settings(),
    {
        &self.config
    }
}

} // verus!
