//! The in-memory lookup tables of the core service, held in `moka` caches:
//! pod IP → pod identity, `namespace/name` → service, and virtual-host
//! domain → owning service.
//!
//! The contracts read a cache value as owning its entries. A moka `Cache`
//! is a shared handle (a clone shares the storage), so that reading holds
//! because no cache is ever cloned here: each cache has a single owner, and
//! others borrow it.

use vstd::prelude::*;
use moka::sync::Cache;

verus! {

#[verifier::external_type_specification]
#[verifier::external_body]
#[verifier::reject_recursive_types(K)]
#[verifier::reject_recursive_types(V)]
#[verifier::reject_recursive_types(S)]
pub struct OutsideCache<K, V, S>(Cache<K, V, S>);

/// What the pod cache records of a pod IP.
#[derive(Clone)]
pub struct PodInfo {
    pub namespace: String,
    pub service_name: String,
    pub service_type: String,
}

/// The view of a `PodInfo`: (namespace, service name, service type).
pub open spec fn pod_info_view(p: PodInfo) -> (Seq<char>, Seq<char>, Seq<char>) {
    (p.namespace@, p.service_name@, p.service_type@)
}

/// What the service cache records of a service.
#[derive(Clone)]
pub struct ServiceInfo {
    pub namespace: String,
    pub service_type: String,
    pub cluster_ip: String,
}

/// The view of a `ServiceInfo`: (namespace, service type, cluster IP).
pub open spec fn service_info_view(s: ServiceInfo) -> (Seq<char>, Seq<char>, Seq<char>) {
    (s.namespace@, s.service_type@, s.cluster_ip@)
}

/// The entries of a pod cache, by IP.
pub uninterp spec fn pod_cache_entries(c: Cache<String, PodInfo>) -> Map<
    Seq<char>,
    (Seq<char>, Seq<char>, Seq<char>),
>;

/// Whether a pod cache was built with no capacity limit and no expiry, so
/// that nothing leaves it but by removal.
pub uninterp spec fn pod_cache_unbounded(c: Cache<String, PodInfo>) -> bool;

/// The entries of a service cache, by `namespace/name`.
pub uninterp spec fn service_cache_entries(c: Cache<String, ServiceInfo>) -> Map<
    Seq<char>,
    (Seq<char>, Seq<char>, Seq<char>),
>;

/// Whether a service cache was built with no capacity limit and no expiry.
pub uninterp spec fn service_cache_unbounded(c: Cache<String, ServiceInfo>) -> bool;

/// The entries of a domain cache: domain → (service name, namespace).
pub uninterp spec fn domain_cache_entries(c: Cache<String, (String, String)>) -> Map<
    Seq<char>,
    (Seq<char>, Seq<char>),
>;

/// Whether a domain cache was built with no capacity limit and no expiry.
pub uninterp spec fn domain_cache_unbounded(c: Cache<String, (String, String)>) -> bool;

/// `Cache::builder().build()`: an empty cache with no capacity limit and
/// no expiry.
#[verifier::external_body]
pub(crate) fn new_pod_cache() -> (r: Cache<String, PodInfo>)
    ensures
        pod_cache_entries(r).dom() == Set::<Seq<char>>::empty(),
        pod_cache_unbounded(r),
{
    Cache::builder().build()
}

/// `Cache::get`: a clone of the value under `key`, if there is one.
#[verifier::external_body]
pub(crate) fn pod_cache_get(c: &Cache<String, PodInfo>, key: &str) -> (r: Option<PodInfo>)
    requires
        pod_cache_unbounded(*c),
    ensures
        match r {
            Some(p) => pod_cache_entries(*c).contains_key(key@) && pod_cache_entries(*c)[key@]
                == pod_info_view(p),
            None => !pod_cache_entries(*c).contains_key(key@),
        },
{
    c.get(key)
}

/// `Cache::insert`: records `value` under `key`, replacing an earlier value.
#[verifier::external_body]
pub(crate) fn pod_cache_insert(c: &mut Cache<String, PodInfo>, key: String, value: PodInfo)
    requires
        pod_cache_unbounded(*old(c)),
    ensures
        pod_cache_unbounded(*final(c)),
        pod_cache_entries(*final(c)) == pod_cache_entries(*old(c)).insert(
            key@,
            pod_info_view(value),
        ),
{
    c.insert(key, value);
}

/// `Cache::remove`: forgets the value under `key`.
#[verifier::external_body]
pub(crate) fn pod_cache_remove(c: &mut Cache<String, PodInfo>, key: &str)
    requires
        pod_cache_unbounded(*old(c)),
    ensures
        pod_cache_unbounded(*final(c)),
        pod_cache_entries(*final(c)) == pod_cache_entries(*old(c)).remove(key@),
{
    c.remove(key);
}

/// `Cache::builder().build()`: an empty cache with no capacity limit and
/// no expiry.
#[verifier::external_body]
pub(crate) fn new_service_cache() -> (r: Cache<String, ServiceInfo>)
    ensures
        service_cache_entries(r).dom() == Set::<Seq<char>>::empty(),
        service_cache_unbounded(r),
{
    Cache::builder().build()
}

/// `Cache::insert`: records `value` under `key`, replacing an earlier value.
#[verifier::external_body]
pub(crate) fn service_cache_insert(c: &mut Cache<String, ServiceInfo>, key: String, value: ServiceInfo)
    requires
        service_cache_unbounded(*old(c)),
    ensures
        service_cache_unbounded(*final(c)),
        service_cache_entries(*final(c)) == service_cache_entries(*old(c)).insert(
            key@,
            service_info_view(value),
        ),
{
    c.insert(key, value);
}

/// `Cache::remove`: forgets the value under `key`.
#[verifier::external_body]
pub(crate) fn service_cache_remove(c: &mut Cache<String, ServiceInfo>, key: &str)
    requires
        service_cache_unbounded(*old(c)),
    ensures
        service_cache_unbounded(*final(c)),
        service_cache_entries(*final(c)) == service_cache_entries(*old(c)).remove(key@),
{
    c.remove(key);
}

/// `Cache::builder().build()`: an empty cache with no capacity limit and
/// no expiry.
#[verifier::external_body]
fn new_domain_cache() -> (r: Cache<String, (String, String)>)
    ensures
        domain_cache_entries(r).dom() == Set::<Seq<char>>::empty(),
        domain_cache_unbounded(r),
{
    Cache::builder().build()
}

/// `Cache::get`: a clone of the value under `key`, if there is one.
#[verifier::external_body]
fn domain_cache_get(c: &Cache<String, (String, String)>, key: &str) -> (r: Option<(String, String)>)
    requires
        domain_cache_unbounded(*c),
    ensures
        match r {
            Some(v) => domain_cache_entries(*c).contains_key(key@) && domain_cache_entries(*c)[key@]
                == (v.0@, v.1@),
            None => !domain_cache_entries(*c).contains_key(key@),
        },
{
    c.get(key)
}

/// `Cache::insert`: records `value` under `key`, replacing an earlier value.
#[verifier::external_body]
fn domain_cache_insert(c: &mut Cache<String, (String, String)>, key: String, value: (String, String))
    requires
        domain_cache_unbounded(*old(c)),
    ensures
        domain_cache_unbounded(*final(c)),
        domain_cache_entries(*final(c)) == domain_cache_entries(*old(c)).insert(
            key@,
            (value.0@, value.1@),
        ),
{
    c.insert(key, value);
}

/// Lookup table from virtual-host domain to the K8s service that owns it.
/// Populated exclusively by the cluster-agent via the `SendEnvoyRoutes` gRPC RPC
/// when it detects an `envoy.yaml` key in a ConfigMap.
pub struct EnvoyDomainCache {
    /// Value is `(service_name, namespace)`.
    inner: Cache<String, (String, String)>,
}

impl EnvoyDomainCache {
    /// The recorded domains: domain → (service name, namespace).
    pub closed spec fn view(&self) -> Map<Seq<char>, (Seq<char>, Seq<char>)> {
        domain_cache_entries(self.inner)
    }

    /// The cache keeps every entry until it is replaced.
    pub closed spec fn wf(&self) -> bool {
        domain_cache_unbounded(self.inner)
    }

    /// An empty table.
    pub fn new() -> (r: Self)
        ensures
            r.wf(),
            r.view() == Map::<Seq<char>, (Seq<char>, Seq<char>)>::empty(),
    {
        EnvoyDomainCache { inner: new_domain_cache() }
    }

    /// The service that owns `domain`, as (service name, namespace).
    pub fn get(&self, domain: &str) -> (r: Option<(String, String)>)
        requires
            self.wf(),
        ensures
            match r {
                Some(v) => self.view().contains_key(domain@) && self.view()[domain@] == (v.0@, v.1@),
                None => !self.view().contains_key(domain@),
            },
    {
        domain_cache_get(&self.inner, domain)
    }

    /// Records that `domain` belongs to `service_name` in `namespace`.
    pub fn insert(&mut self, domain: String, service_name: String, namespace: String)
        requires
            old(self).wf(),
        ensures
            final(self).wf(),
            final(self).view() == old(self).view().insert(domain@, (service_name@, namespace@)),
    {
        domain_cache_insert(&mut self.inner, domain, (service_name, namespace));
    }
}

} // verus!
