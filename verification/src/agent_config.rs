//! The settings of the cluster agent, as its YAML file gives them.

use vstd::prelude::*;

verus! {

/// Settings of the cluster agent.
pub struct ClusterAgentConfig {
    pub qubit_core: QubitCoreConfig,
    pub kubernetes: KubernetesConfig,
}

/// Where the core service listens for gRPC.
pub struct QubitCoreConfig {
    pub host: String,
    pub grpc_port: u16,
}

/// Kubernetes settings of the cluster agent: the namespace watched, all
/// when empty.
pub struct KubernetesConfig {
    pub namespace: String,
}

impl Default for KubernetesConfig {
    fn default() -> (r: Self)
        ensures
            r.namespace@ == Seq::<char>::empty(),
    {
        KubernetesConfig { namespace: String::new() }
    }
}

/// An endpoint URL: `http://host:port`.
pub open spec fn endpoint_text(host: Seq<char>, port: u16) -> Seq<char> {
    "http://"@ + host + seq![':'] + crate::text::decimal_digits(port as nat)
}

/// The endpoint URL `http://host:port`.
pub fn endpoint_url(host: &str, port: u16) -> (r: String)
    ensures
        r@ == endpoint_text(host@, port),
{
    proof {
        reveal_strlit(":");
    }
    let mut url = "http://".to_string();
    url.append(host);
    url.append(":");
    url.append(crate::text::decimal_text(port as u64).as_str());
    assert(url@ =~= endpoint_text(host@, port));
    url
}

/// The gRPC endpoint of the core service.
pub fn core_endpoint(core: &QubitCoreConfig) -> (r: String)
    ensures
        r@ == endpoint_text(core.host@, core.grpc_port),
{
    endpoint_url(core.host.as_str(), core.grpc_port)
}

} // verus!
