//! Process-wide settings of the server, and the decisions taken around the
//! calls to the proxy's administrative API.
use crate::bundle::{copy_strings, strings_view};
use crate::caddy::{listen_port, CaddyConfig, TlsConfig};
use crate::manager::BundleManager;
use vstd::prelude::*;

verus! {

pub struct Options {
    /// Directory of the archive store.
    pub storage: String,
    /// Domains the proxy answers for.
    pub domains: Vec<String>,
    /// The proxy's certificate and state directory.
    pub caddy_dir: String,
    /// The proxy's administrative endpoint.
    pub caddy_endpoint: String,
    pub tls: Option<TlsConfig>,
    /// Backend service name; enables cluster ingress mode.
    pub kube_service: Option<String>,
}

pub open spec fn tls_view(t: Option<TlsConfig>) -> Option<(Seq<Seq<char>>, Seq<char>, Seq<char>, bool)> {
    match t {
        Some(t) => Some((strings_view(t.subjects@), t.email@, t.token@, t.staging)),
        None => None,
    }
}

impl TlsConfig {
    /// A copy with the same contents.
    pub fn duplicate(&self) -> (r: TlsConfig)
        ensures
            tls_view(Some(r)) == tls_view(Some(*self)),
    {
        TlsConfig {
            subjects: copy_strings(&self.subjects),
            email: self.email.clone(),
            token: self.token.clone(),
            staging: self.staging,
        }
    }
}

/// Each listed domain together with its wildcard subdomain pattern.
pub open spec fn expanded(domains: Seq<Seq<char>>) -> Seq<Seq<char>>
    decreases domains.len(),
{
    if domains.len() == 0 {
        Seq::empty()
    } else {
        expanded(domains.drop_last()) + seq![domains.last(), "*."@ + domains.last()]
    }
}

/// Lists every domain followed by its wildcard pattern `*.<domain>`.
pub fn expand_domains(domains: &Vec<String>) -> (r: Vec<String>)
    ensures
        strings_view(r@) == expanded(strings_view(domains@)),
{
    let mut r: Vec<String> = Vec::new();
    let mut i: usize = 0;
    while i < domains.len()
        invariant
            i <= domains@.len(),
            strings_view(r@) == expanded(strings_view(domains@).subrange(0, i as int)),
        decreases domains@.len() - i,
    {
        let ghost before = r@;
        let d = domains[i].clone();
        let w = String::from_str("*.").concat(domains[i].as_str());
        r.push(d);
        r.push(w);
        proof {
            let next = strings_view(domains@).subrange(0, i + 1);
            assert(next.drop_last() =~= strings_view(domains@).subrange(0, i as int));
            assert(strings_view(r@) =~= strings_view(before) + seq![domains@[i as int]@, "*."@ + domains@[i as int]@]);
        }
        i += 1;
    }
    proof {
        assert(strings_view(domains@).subrange(0, domains@.len() as int) =~= strings_view(domains@));
    }
    r
}

impl Options {
    /// The defaults of a server whose served domains and backend service
    /// come from its environment.
    pub fn with_domains(domains: &Vec<String>, kube_service: Option<String>) -> (r: Options)
        ensures
            r.storage@ == "/var/www/bundles"@,
            r.caddy_dir@ == "/etc/caddy"@,
            r.caddy_endpoint@ == "http://localhost:2019"@,
            strings_view(r.domains@) == expanded(strings_view(domains@)),
            r.tls is None,
            r.kube_service == kube_service,
    {
        Options {
            storage: String::from_str("/var/www/bundles"),
            domains: expand_domains(domains),
            caddy_dir: String::from_str("/etc/caddy"),
            caddy_endpoint: String::from_str("http://localhost:2019"),
            tls: None,
            kube_service,
        }
    }

    /// The proxy configuration for the current active bundles of `manager`.
    pub fn proxy_config<D>(&self, manager: &BundleManager<D>) -> (r: CaddyConfig)
        requires
            manager.wf(),
        ensures
            r.http.port == listen_port(self.tls is Some),
            strings_view(r.http.domains@) == strings_view(self.domains@),
            r.storage.0@ == self.caddy_dir@,
            tls_view(r.tls) == tls_view(self.tls),
            forall|i: int| 0 <= i < r.http.hosts@.len() ==> manager.routes(#[trigger] r.http.hosts@[i]),
            forall|i: int, j: int|
                0 <= i < r.http.hosts@.len() && 0 <= j < r.http.hosts@.len() && i != j ==> strings_view(
                    (#[trigger] r.http.hosts@[i]).hosts@,
                ) != strings_view((#[trigger] r.http.hosts@[j]).hosts@),
            forall|k: u128|
                #[trigger] manager.model().contains_key(k) && manager.model()[k].is_active() ==> exists|
                    i: int,
                | 0 <= i < r.http.hosts@.len() && crate::manager::host_for(
                    #[trigger] r.http.hosts@[i],
                    manager.model()[k],
                    manager.spec_compressor().spec_algorithms(),
                ),
    {
        let tls = match &self.tls {
            Some(t) => Some(t.duplicate()),
            None => None,
        };
        CaddyConfig::new(copy_strings(&self.domains), manager.hosts(), self.caddy_dir.clone(), tls)
    }
}

/// Attempts made at pushing a configuration to the proxy before giving up.
pub const APPLY_ATTEMPTS: u32 = 10;

/// Pause between two attempts, in milliseconds.
pub const APPLY_RETRY_DELAY_MS: u64 = 250;

/// What to do after an attempt at pushing the proxy configuration.
#[derive(Clone, Copy, Debug, PartialEq, Eq, Structural)]
pub enum ApplyStep {
    /// The proxy accepted the configuration.
    Done,
    /// Wait, then try again.
    Retry { delay_ms: u64 },
    /// The last attempt failed; its error is the outcome.
    GiveUp,
}

/// Decides the next step after the `attempts`-th attempt, which succeeded or
/// not. A rejection is retried after a fixed delay until the bound is reached.
pub fn after_apply_attempt(attempts: u32, succeeded: bool) -> (r: ApplyStep)
    ensures
        succeeded ==> r == ApplyStep::Done,
        !succeeded && attempts < APPLY_ATTEMPTS ==> r == (ApplyStep::Retry {
            delay_ms: APPLY_RETRY_DELAY_MS,
        }),
        !succeeded && attempts >= APPLY_ATTEMPTS ==> r == ApplyStep::GiveUp,
{
    if succeeded {
        ApplyStep::Done
    } else if attempts < APPLY_ATTEMPTS {
        ApplyStep::Retry { delay_ms: APPLY_RETRY_DELAY_MS }
    } else {
        ApplyStep::GiveUp
    }
}

} // verus!
