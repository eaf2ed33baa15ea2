//! The local cache of service selectors: which service a pod belongs to is
//! decided by whether the service's selector is a subset of its labels.

use vstd::prelude::*;
use crate::assoc::{as_map, has_key, keys_unique, lemma_as_map_index, lemma_as_map_push, lemma_as_map_remove, lemma_empty_as_map};

verus! {

/// A label or selector map, as key/value pairs.
pub type Labels = Vec<(String, String)>;

/// The view of a label map.
pub open spec fn labels_view(l: Seq<(String, String)>) -> Seq<(Seq<char>, Seq<char>)> {
    l.map_values(|p: (String, String)| (p.0@, p.1@))
}

/// What a service's spec holds that the agent reads.
pub struct ServiceSpecMeta {
    pub selector: Option<Labels>,
    pub type_: Option<String>,
    pub cluster_ip: Option<String>,
}

/// What a Kubernetes `Service` holds that the agent reads.
pub struct ServiceMeta {
    pub name: Option<String>,
    pub namespace: Option<String>,
    pub spec: Option<ServiceSpecMeta>,
}

/// What a Kubernetes `Pod` holds that the agent reads: its metadata and the
/// IP its status reports.
pub struct PodMeta {
    pub name: Option<String>,
    pub namespace: Option<String>,
    pub labels: Option<Labels>,
    pub pod_ip: Option<String>,
}

/// The value of label `k`: that of the first pair with key `k`.
pub open spec fn label_value(l: Seq<(Seq<char>, Seq<char>)>, k: Seq<char>) -> Option<Seq<char>>
    decreases l.len(),
{
    if l.len() == 0 {
        None
    } else if l[0].0 == k {
        Some(l[0].1)
    } else {
        label_value(l.drop_first(), k)
    }
}

/// No key occurs twice among the pairs, as in a Kubernetes label map.
pub open spec fn labels_unique(l: Seq<(Seq<char>, Seq<char>)>) -> bool {
    forall|i: int, j: int| 0 <= i < j < l.len() ==> #[trigger] l[i].0 != #[trigger] l[j].0
}

/// On a label list without repeated keys, the value of label `k` is `v`
/// exactly when the pair `(k, v)` is among the labels: the list reads as
/// the map that Kubernetes gives.
pub proof fn lemma_label_value_unique(l: Seq<(Seq<char>, Seq<char>)>, k: Seq<char>, v: Seq<char>)
    requires
        labels_unique(l),
    ensures
        label_value(l, k) == Some(v) <==> l.contains((k, v)),
    decreases l.len(),
{
    if l.len() > 0 {
        let t = l.drop_first();
        assert(labels_unique(t)) by {
            assert forall|i: int, j: int| 0 <= i < j < t.len() implies #[trigger] t[i].0 != #[trigger] t[j].0 by {
                assert(t[i] == l[i + 1] && t[j] == l[j + 1]);
            }
        }
        lemma_label_value_unique(t, k, v);
        if l[0].0 == k {
            if l.contains((k, v)) {
                let i = choose|i: int| 0 <= i < l.len() && l[i] == (k, v);
                if i > 0 {
                    assert(l[0].0 != l[i].0);
                }
            }
        } else {
            if l.contains((k, v)) {
                let i = choose|i: int| 0 <= i < l.len() && l[i] == (k, v);
                assert(t[i - 1] == l[i]);
            }
            if t.contains((k, v)) {
                let i = choose|i: int| 0 <= i < t.len() && t[i] == (k, v);
                assert(l[i + 1] == t[i]);
            }
        }
    }
}

/// On pod labels without repeated keys, a selector selects the pod exactly
/// when every pair of the selector is among the pod's labels: the subset
/// test on label maps.
pub proof fn lemma_selects_unique_labels(
    selector: Seq<(Seq<char>, Seq<char>)>,
    labels: Seq<(Seq<char>, Seq<char>)>,
)
    requires
        labels_unique(labels),
    ensures
        selects(selector, labels) <==> forall|i: int| 0 <= i < selector.len() ==> labels.contains(#[trigger] selector[i]),
{
    assert forall|i: int| 0 <= i < selector.len() implies (label_value(labels, #[trigger] selector[i].0)
        == Some(selector[i].1) <==> labels.contains(selector[i])) by {
        lemma_label_value_unique(labels, selector[i].0, selector[i].1);
        assert(selector[i] == (selector[i].0, selector[i].1));
    }
    if selects(selector, labels) {
        assert forall|i: int| 0 <= i < selector.len() implies labels.contains(#[trigger] selector[i]) by {
            assert(label_value(labels, selector[i].0) == Some(selector[i].1));
        }
    }
    if forall|i: int| 0 <= i < selector.len() ==> labels.contains(#[trigger] selector[i]) {
        assert forall|i: int| 0 <= i < selector.len() implies label_value(labels, #[trigger] selector[i].0)
            == Some(selector[i].1) by {
            assert(labels.contains(selector[i]));
        }
    }
}

/// Every pair of the selector is among the labels.
pub open spec fn selects(selector: Seq<(Seq<char>, Seq<char>)>, labels: Seq<(Seq<char>, Seq<char>)>) -> bool {
    forall|i: int| 0 <= i < selector.len() ==> label_value(labels, #[trigger] selector[i].0) == Some(selector[i].1)
}

/// A registered service: its name, type and selector.
pub struct RegisteredServiceView {
    pub name: Seq<char>,
    pub service_type: Seq<char>,
    pub selector: Seq<(Seq<char>, Seq<char>)>,
}

struct RegisteredService {
    name: String,
    service_type: String,
    selector: Labels,
}

impl RegisteredService {
    spec fn view(&self) -> RegisteredServiceView {
        RegisteredServiceView {
            name: self.name@,
            service_type: self.service_type@,
            selector: labels_view(self.selector@),
        }
    }
}

spec fn entries(s: Seq<(String, RegisteredService)>) -> Seq<(Seq<char>, RegisteredServiceView)> {
    s.map_values(|e: (String, RegisteredService)| (e.0@, e.1.view()))
}

/// Local cache of service selectors, maintained by ServiceHandler.
/// PodHandler reads from it to enrich pod events with service info.
pub struct ServiceRegistry {
    // key: "namespace/name"
    services: Vec<(String, RegisteredService)>,
}

/// The registry key of a service: `namespace/name`.
pub open spec fn service_key(namespace: Seq<char>, name: Seq<char>) -> Seq<char> {
    namespace + seq!['/'] + name
}

/// The service type recorded when a service names none.
pub open spec fn cluster_ip_type() -> Seq<char> {
    seq!['C', 'l', 'u', 's', 't', 'e', 'r', 'I', 'P']
}

/// What `register` does with a service, by the service alone: `Err` with
/// the reply when it is skipped, `Ok` with the key and entry otherwise.
pub open spec fn registration(svc: ServiceMeta) -> Result<(Seq<char>, RegisteredServiceView), Seq<char>> {
    match svc.name {
        None => Err("no service found!"@),
        Some(name) => match svc.spec {
            None => Err("No spec found!"@),
            Some(spec) => {
                let selector = match spec.selector {
                    Some(s) => labels_view(s@),
                    None => Seq::empty(),
                };
                if selector.len() == 0 {
                    Err("No selector found on service"@)
                } else {
                    let namespace = match svc.namespace {
                        Some(n) => n@,
                        None => Seq::empty(),
                    };
                    let service_type = match spec.type_ {
                        Some(t) => t@,
                        None => cluster_ip_type(),
                    };
                    Ok(
                        (
                            service_key(namespace, name@),
                            RegisteredServiceView { name: name@, service_type, selector },
                        ),
                    )
                }
            },
        },
    }
}

impl ServiceRegistry {
    /// The registered services by key.
    pub closed spec fn view(&self) -> Map<Seq<char>, RegisteredServiceView> {
        as_map(entries(self.services@))
    }

    /// The keys are distinct.
    pub closed spec fn wf(&self) -> bool {
        keys_unique(entries(self.services@))
    }

    /// An empty registry.
    pub fn new() -> (r: Self)
        ensures
            r.wf(),
            r.view() == Map::<Seq<char>, RegisteredServiceView>::empty(),
    {
        let r = ServiceRegistry { services: Vec::new() };
        proof {
            lemma_empty_as_map(entries(r.services@));
        }
        r
    }

    fn position(&self, key: &String) -> (r: Option<usize>)
        ensures
            match r {
                Some(i) => i < self.services@.len() && self.services@[i as int].0@ == key@,
                None => !has_key(entries(self.services@), key@),
            },
    {
        let mut i: usize = 0;
        while i < self.services.len()
            invariant
                i <= self.services@.len(),
                forall|j: int| 0 <= j < i ==> self.services@[j].0@ != key@,
            decreases self.services@.len() - i,
        {
            if self.services[i].0 == *key {
                return Some(i);
            }
            i = i + 1;
        }
        proof {
            let s = entries(self.services@);
            if has_key(s, key@) {
                let j = choose|j: int| 0 <= j < s.len() && s[j].0 == key@;
                assert(self.services@[j].0@ == key@);
            }
        }
        None
    }

    fn remove_key(&mut self, key: &String)
        requires
            old(self).wf(),
        ensures
            final(self).wf(),
            final(self).view() == old(self).view().remove(key@),
    {
        let ghost s = entries(self.services@);
        match self.position(key) {
            Some(i) => {
                self.services.remove(i);
                proof {
                    lemma_as_map_remove(s, i as int);
                    assert(entries(self.services@) =~= s.remove(i as int));
                }
            },
            None => {
                assert(as_map(s).remove(key@) =~= as_map(s));
            },
        }
    }

    /// Records a service's selector under `namespace/name`, replacing an
    /// earlier entry with that key. Services without a name, a spec or a
    /// selector are skipped, with a reply saying which.
    pub fn register(&mut self, svc: &ServiceMeta) -> (r: String)
        requires
            old(self).wf(),
        ensures
            final(self).wf(),
            match registration(*svc) {
                Err(reply) => r@ == reply && final(self).view() == old(self).view(),
                Ok((key, entry)) => r@ == "regisetered services"@ && final(self).view() == old(
                    self,
                ).view().insert(key, entry),
            },
    {
        let ghost name_src = svc.name->0;
        let name = match &svc.name {
            Some(n) => n.clone(),
            None => {
                return "no service found!".to_string();
            },
        };
        let namespace = match &svc.namespace {
            Some(n) => n.clone(),
            None => String::new(),
        };
        let ghost ns_view = namespace@;
        let spec = match &svc.spec {
            Some(s) => s,
            None => {
                return "No spec found!".to_string();
            },
        };
        let selector = match &spec.selector {
            Some(s) => copy_labels(s),
            None => Vec::new(),
        };
        if selector.len() == 0 {
            return "No selector found on service".to_string();
        }
        let service_type = match &spec.type_ {
            Some(t) => t.clone(),
            None => {
                proof {
                    reveal_strlit("ClusterIP");
                    assert("ClusterIP"@ =~= cluster_ip_type());
                }
                "ClusterIP".to_string()
            },
        };
        proof {
            reveal_strlit("/");
        }
        let mut key = namespace;
        key.append("/");
        key.append(name.as_str());
        let ghost kv = key@;
        assert(kv =~= service_key(ns_view, name@));
        self.remove_key(&key);
        let entry = RegisteredService { name, service_type, selector };
        let ghost ev = entry.view();
        let ghost s = entries(self.services@);
        proof {
            assert(!has_key(s, kv)) by {
                if has_key(s, kv) {
                    let j = choose|j: int| 0 <= j < s.len() && s[j].0 == kv;
                    lemma_as_map_index(s, j);
                }
            }
        }
        self.services.push((key, entry));
        proof {
            assert(svc.name == Some(name_src));
            assert(svc.spec is Some);
            assert(labels_view(svc.spec->0.selector->0@) == ev.selector);
            assert(ev.name == name_src@);
            assert(registration(*svc) == Ok::<(Seq<char>, RegisteredServiceView), Seq<char>>((kv, ev)));
            assert(entries(self.services@) =~= s.push((kv, ev)));
            lemma_as_map_push(s, kv, ev);
            assert(old(self).view().remove(kv).insert(kv, ev) =~= old(self).view().insert(kv, ev));
        }
        "regisetered services".to_string()
    }

    /// Forgets the service `namespace/name`.
    pub fn deregister(&mut self, name: &str, namespace: &str) -> (r: String)
        requires
            old(self).wf(),
        ensures
            final(self).wf(),
            final(self).view() == old(self).view().remove(service_key(namespace@, name@)),
            r@ == "deregisterd service"@,
    {
        proof {
            reveal_strlit("/");
        }
        let mut key = namespace.to_string();
        key.append("/");
        key.append(name);
        assert(key@ =~= service_key(namespace@, name@));
        self.remove_key(&key);
        "deregisterd service".to_string()
    }

    /// Returns `(service_name, service_type)` of a registered service whose
    /// selector is a subset of this pod's labels, if there is one; `None`
    /// exactly when the pod has no labels or no service selects it.
    pub fn find_service_for_pod(&self, pod: &PodMeta) -> (r: Option<(String, String)>)
        requires
            self.wf(),
        ensures
            match pod.labels {
                None => r is None,
                Some(l) => match r {
                    None => forall|k: Seq<char>|
                        #[trigger] self.view().contains_key(k) ==> !selects(
                            self.view()[k].selector,
                            labels_view(l@),
                        ),
                    Some((name, service_type)) => exists|k: Seq<char>|
                        #[trigger] self.view().contains_key(k) && selects(
                            self.view()[k].selector,
                            labels_view(l@),
                        ) && self.view()[k].name == name@ && self.view()[k].service_type
                            == service_type@,
                },
            },
    {
        match &pod.labels {
            None => None,
            Some(labels) => {
                let ghost s = entries(self.services@);
                let ghost lv = labels_view(labels@);
                let mut i: usize = 0;
                while i < self.services.len()
                    invariant
                        pod.labels == Some(*labels),
                        s == entries(self.services@),
                        keys_unique(s),
                        lv == labels_view(labels@),
                        i <= self.services@.len(),
                        forall|j: int| 0 <= j < i ==> !selects(#[trigger] s[j].1.selector, lv),
                    decreases self.services@.len() - i,
                {
                    let entry = &self.services[i].1;
                    if selector_matches(&entry.selector, labels) {
                        proof {
                            lemma_as_map_index(s, i as int);
                            assert(self.view().contains_key(s[i as int].0));
                            assert(selects(self.view()[s[i as int].0].selector, lv));
                        }
                        return Some((entry.name.clone(), entry.service_type.clone()));
                    }
                    i = i + 1;
                }
                proof {
                    assert forall|k: Seq<char>| #[trigger] as_map(s).contains_key(k) implies !selects(
                        as_map(s)[k].selector,
                        lv,
                    ) by {
                        let j = choose|j: int| 0 <= j < s.len() && s[j].0 == k;
                        lemma_as_map_index(s, j);
                    }
                }
                None
            },
        }
    }
}

/// A pod that carries every label of a registered service's selector is
/// matched to some service: once `register` has recorded the service, the
/// registry holds an entry that selects the pod, so `find_service_for_pod`
/// cannot answer `None` for it.
pub proof fn lemma_registered_service_selects_pod(
    before: Map<Seq<char>, RegisteredServiceView>,
    svc: ServiceMeta,
    labels: Seq<(Seq<char>, Seq<char>)>,
)
    requires
        registration(svc) is Ok,
        selects(registration(svc)->Ok_0.1.selector, labels),
    ensures
        ({
            let (key, entry) = registration(svc)->Ok_0;
            let after = before.insert(key, entry);
            exists|k: Seq<char>| #[trigger] after.contains_key(k) && selects(after[k].selector, labels)
        }),
{
    let (key, entry) = registration(svc)->Ok_0;
    let after = before.insert(key, entry);
    assert(after.contains_key(key) && after[key] == entry);
}

/// Once `deregister` has removed `namespace/name`, no entry of the registry
/// carries that key, whatever the registry held before.
pub proof fn lemma_deregistered_key_absent(
    before: Map<Seq<char>, RegisteredServiceView>,
    namespace: Seq<char>,
    name: Seq<char>,
)
    ensures
        !before.remove(service_key(namespace, name)).contains_key(service_key(namespace, name)),
{
}

/// The namespace a service is registered under (empty when it names none).
pub open spec fn namespace_of(svc: ServiceMeta) -> Seq<char> {
    match svc.namespace {
        Some(n) => n@,
        None => Seq::empty(),
    }
}

/// Two registry keys are equal only for equal namespaces and names, when
/// the namespaces hold no `/` (as Kubernetes namespaces never do).
pub proof fn lemma_service_key_injective(ns1: Seq<char>, n1: Seq<char>, ns2: Seq<char>, n2: Seq<char>)
    requires
        !ns1.contains('/'),
        !ns2.contains('/'),
        service_key(ns1, n1) == service_key(ns2, n2),
    ensures
        ns1 == ns2,
        n1 == n2,
{
    let k1 = service_key(ns1, n1);
    let k2 = service_key(ns2, n2);
    assert(k1[ns1.len() as int] == '/');
    assert(k2[ns2.len() as int] == '/');
    if ns1.len() < ns2.len() {
        assert(k2[ns1.len() as int] == ns2[ns1.len() as int]);
        assert(ns2.contains('/'));
    } else if ns2.len() < ns1.len() {
        assert(k1[ns2.len() as int] == ns1[ns2.len() as int]);
        assert(ns1.contains('/'));
    }
    assert forall|i: int| 0 <= i < ns1.len() implies ns1[i] == ns2[i] by {
        assert(k1[i] == ns1[i] && k2[i] == ns2[i]);
    }
    assert(ns1 =~= ns2);
    assert(k1.len() == k2.len());
    assert forall|i: int| 0 <= i < n1.len() implies n1[i] == n2[i] by {
        assert(k1[ns1.len() + 1 + i] == n1[i]);
        assert(k2[ns2.len() + 1 + i] == n2[i]);
    }
    assert(n1 =~= n2);
}

/// Services are kept apart by namespace and name: after `register(a)` and
/// then `register(b)` for a service `b` in another namespace or of another
/// name (namespaces holding no `/`), the registry still holds `a`'s entry
/// under `a`'s key, so a pod that `a` selects is still found; and a later
/// `deregister` of `b` leaves `a`'s entry in place.
pub proof fn lemma_distinct_services_kept(
    before: Map<Seq<char>, RegisteredServiceView>,
    a: ServiceMeta,
    b: ServiceMeta,
)
    requires
        registration(a) is Ok,
        registration(b) is Ok,
        !namespace_of(a).contains('/'),
        !namespace_of(b).contains('/'),
        namespace_of(a) != namespace_of(b) || a.name->0@ != b.name->0@,
    ensures
        ({
            let (ka, ea) = registration(a)->Ok_0;
            let (kb, eb) = registration(b)->Ok_0;
            let after = before.insert(ka, ea).insert(kb, eb);
            &&& ka == service_key(namespace_of(a), a.name->0@)
            &&& after.contains_key(ka)
            &&& after[ka] == ea
            &&& ea.name == a.name->0@
            &&& ea.selector == labels_view(a.spec->0.selector->0@)
            &&& after.remove(service_key(namespace_of(b), b.name->0@)).contains_key(ka)
            &&& after.remove(service_key(namespace_of(b), b.name->0@))[ka] == ea
        }),
{
    let (ka, ea) = registration(a)->Ok_0;
    let (kb, eb) = registration(b)->Ok_0;
    assert(ka == service_key(namespace_of(a), a.name->0@));
    assert(kb == service_key(namespace_of(b), b.name->0@));
    if ka == kb {
        lemma_service_key_injective(namespace_of(a), a.name->0@, namespace_of(b), b.name->0@);
    }
}

pub(crate) fn copy_labels(l: &Labels) -> (r: Labels)
    ensures
        labels_view(r@) == labels_view(l@),
{
    let mut r: Labels = Vec::new();
    let mut i: usize = 0;
    while i < l.len()
        invariant
            i <= l@.len(),
            r@.len() == i,
            forall|k: int| 0 <= k < i ==> #[trigger] r@[k].0@ == l@[k].0@ && r@[k].1@ == l@[k].1@,
        decreases l@.len() - i,
    {
        let p = (l[i].0.clone(), l[i].1.clone());
        r.push(p);
        i = i + 1;
    }
    assert(labels_view(r@) =~= labels_view(l@));
    r
}

/// The value of label `key` among `labels`.
pub(crate) fn lookup_label<'a>(labels: &'a Labels, key: &String) -> (r: Option<&'a String>)
    ensures
        match r {
            Some(v) => label_value(labels_view(labels@), key@) == Some(v@),
            None => label_value(labels_view(labels@), key@) is None,
        },
{
    let ghost lv = labels_view(labels@);
    assert(lv.skip(0) =~= lv);
    let mut i: usize = 0;
    while i < labels.len()
        invariant
            lv == labels_view(labels@),
            i <= labels@.len(),
            label_value(lv, key@) == label_value(lv.skip(i as int), key@),
        decreases labels@.len() - i,
    {
        assert(lv.skip(i as int).drop_first() =~= lv.skip(i as int + 1));
        if labels[i].0 == *key {
            return Some(&labels[i].1);
        }
        i = i + 1;
    }
    None
}

/// Whether every pair of `selector` is among `labels`.
pub(crate) fn selector_matches(selector: &Labels, labels: &Labels) -> (r: bool)
    ensures
        r == selects(labels_view(selector@), labels_view(labels@)),
{
    let ghost sv = labels_view(selector@);
    let ghost lv = labels_view(labels@);
    let mut i: usize = 0;
    while i < selector.len()
        invariant
            sv == labels_view(selector@),
            lv == labels_view(labels@),
            i <= selector@.len(),
            forall|j: int| 0 <= j < i ==> label_value(lv, #[trigger] sv[j].0) == Some(sv[j].1),
        decreases selector@.len() - i,
    {
        match lookup_label(labels, &selector[i].0) {
            Some(v) => {
                if !(*v == selector[i].1) {
                    assert(label_value(lv, sv[i as int].0) != Some(sv[i as int].1));
                    return false;
                }
            },
            None => {
                assert(label_value(lv, sv[i as int].0) != Some(sv[i as int].1));
                return false;
            },
        }
        i = i + 1;
    }
    true
}

} // verus!
