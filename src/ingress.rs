//! Ingress manifests for cluster mode: one per active domain, all tagged
//! with the generation of the reconciliation pass that wrote them.
use crate::bundle::strings_view;
use crate::id::{fresh_ulid, id_to_string};
use crate::manager::BundleManager;
use vstd::prelude::*;

verus! {

/// One ingress object routing `domain` to port 80 of `service`, tagged with
/// `generation`.
pub open spec fn manifest_text(domain: Seq<char>, service: Seq<char>, generation: Seq<char>) -> Seq<char> {
    "apiVersion: networking.k8s.io/v1\nkind: Ingress\nmetadata:\n  name: launch-"@ + domain
        + "\n  annotations:\n    dev.blechschmidt.launch/deploy-id: "@ + generation
        + "\nspec:\n  rules:\n  - host: "@ + domain
        + "\n    http:\n      paths:\n      - path: /\n        pathType: Prefix\n        backend:\n          service:\n            name: "@
        + service + "\n            port:\n              number: 80\n---\n"@
}

/// The manifests of all `domains`, in order.
pub open spec fn manifests_text(domains: Seq<Seq<char>>, service: Seq<char>, generation: Seq<char>) -> Seq<char>
    decreases domains.len(),
{
    if domains.len() == 0 {
        Seq::empty()
    } else {
        manifests_text(domains.drop_last(), service, generation) + manifest_text(
            domains.last(),
            service,
            generation,
        )
    }
}

pub fn manifest(domain: &str, service: &str, generation: &str) -> (r: String)
    ensures
        r@ == manifest_text(domain@, service@, generation@),
{
    String::from_str("apiVersion: networking.k8s.io/v1\nkind: Ingress\nmetadata:\n  name: launch-").concat(
        domain,
    ).concat("\n  annotations:\n    dev.blechschmidt.launch/deploy-id: ").concat(generation).concat(
        "\nspec:\n  rules:\n  - host: ",
    ).concat(domain).concat(
        "\n    http:\n      paths:\n      - path: /\n        pathType: Prefix\n        backend:\n          service:\n            name: ",
    ).concat(service).concat("\n            port:\n              number: 80\n---\n")
}

pub fn manifests(domains: &Vec<String>, service: &str, generation: &str) -> (r: String)
    ensures
        r@ == manifests_text(strings_view(domains@), service@, generation@),
{
    let mut out = String::new();
    let mut i: usize = 0;
    while i < domains.len()
        invariant
            i <= domains@.len(),
            out@ == manifests_text(strings_view(domains@).subrange(0, i as int), service@, generation@),
        decreases domains@.len() - i,
    {
        let m = manifest(domains[i].as_str(), service, generation);
        proof {
            let next = strings_view(domains@).subrange(0, i + 1);
            assert(next.drop_last() =~= strings_view(domains@).subrange(0, i as int));
        }
        out.append(m.as_str());
        i += 1;
    }
    proof {
        assert(strings_view(domains@).subrange(0, domains@.len() as int) =~= strings_view(domains@));
    }
    out
}

/// What one ingress reconciliation pass applies.
pub struct IngressPlan {
    /// Tag of this pass; objects with another tag are stale.
    pub generation: String,
    /// The active domains the pass routes.
    pub domains: Vec<String>,
    /// The manifests to apply.
    pub manifests: String,
}

/// Mints a fresh generation and renders the manifest of every active domain
/// of `manager` for `service`.
pub fn plan<D>(manager: &BundleManager<D>, service: &str) -> (r: IngressPlan)
    requires
        manager.wf(),
    ensures
        r.manifests@ == manifests_text(strings_view(r.domains@), service@, r.generation@),
        r.generation@.len() == 26,
        forall|i: int| 0 <= i < r.domains@.len() ==> manager.claims(#[trigger] r.domains@[i]@),
        forall|d: Seq<char>| manager.claims(d) ==> exists|i: int|
            0 <= i < r.domains@.len() && (#[trigger] r.domains@[i])@ == d,
{
    let generation = id_to_string(fresh_ulid());
    let domains = manager.domains();
    proof {
        assert forall|d: Seq<char>| manager.claims(d) implies exists|i: int|
            0 <= i < domains@.len() && (#[trigger] domains@[i])@ == d by {
            let k = choose|k: u128|
                #[trigger] manager.model().contains_key(k) && manager.model()[k].active_domain() == Some(d);
            assert(manager.model()[k].is_active());
        }
    }
    let manifests = manifests(&domains, service, generation.as_str());
    IngressPlan { generation, domains, manifests }
}

} // verus!
