//! The reverse-proxy configuration document and its JSON rendering.
use crate::bundle::{opt_string_view, strings_view};
use crate::compressor::Algorithm;
use crate::json::{decimal, decimal_text, join, join_parts, json_quoted, quote, quote_array, string_array};
use vstd::prelude::*;

verus! {

/// Certificate automation settings.
#[derive(Debug, Clone)]
pub struct TlsConfig {
    pub subjects: Vec<String>,
    pub email: String,
    pub token: String,
    pub staging: bool,
}

#[derive(Debug, Clone)]
pub struct HttpConfig {
    pub port: u16,
    pub hosts: Vec<HostConfig>,
    pub domains: Vec<String>,
}

/// Location where Caddy stores certificates and such
#[derive(Debug, Clone)]
pub struct Storage(pub String);

#[derive(Debug, Clone)]
pub struct HostConfig {
    pub hosts: Vec<String>,
    pub root: FileRoot,
    pub server: FileServer,
    pub fallback: Option<Fallback>,
}

/// Rewrites unmatched requests to the given path
#[derive(Debug, Clone)]
pub struct Fallback(pub String);

/// Sets the root for the match
#[derive(Debug, Clone)]
pub struct FileRoot(pub String);

/// Serves files and allows precompressed sidecars
#[derive(Debug, Clone)]
pub struct FileServer {
    pub compression: Vec<Algorithm>,
}

#[derive(Debug, Clone)]
pub struct CaddyConfig {
    pub http: HttpConfig,
    pub storage: Storage,
    pub tls: Option<TlsConfig>,
}

pub open spec fn fallback_view(f: Option<Fallback>) -> Option<Seq<char>> {
    match f {
        Some(p) => Some(p.0@),
        None => None,
    }
}

/// The port the proxy listens on: 443 with certificate automation, else 80.
pub open spec fn listen_port(tls: bool) -> u16 {
    if tls {
        443
    } else {
        80
    }
}

impl CaddyConfig {
    pub fn new(
        domains: Vec<String>,
        hosts: Vec<HostConfig>,
        storage_dir: String,
        tls: Option<TlsConfig>,
    ) -> (r: Self)
        ensures
            r.http.port == listen_port(tls is Some),
            r.http.domains == domains,
            r.http.hosts == hosts,
            r.storage.0 == storage_dir,
            r.tls == tls,
    {
        let port: u16 = if tls.is_some() {
            443
        } else {
            80
        };
        CaddyConfig { http: HttpConfig { domains, hosts, port }, storage: Storage(storage_dir), tls }
    }
}

impl HostConfig {
    pub fn new(
        hosts: Vec<String>,
        root: String,
        compression: Vec<Algorithm>,
        fallback: Option<String>,
    ) -> (r: Self)
        ensures
            r.hosts == hosts,
            r.root.0 == root,
            r.server.compression == compression,
            fallback_view(r.fallback) == opt_string_view(fallback),
    {
        let fallback = match fallback {
            Some(p) => Some(Fallback(p)),
            None => None,
        };
        HostConfig { hosts, root: FileRoot(root), server: FileServer { compression }, fallback }
    }
}

pub open spec fn storage_json(root: Seq<char>) -> Seq<char> {
    "{\"module\":\"file_system\",\"root\":"@ + json_quoted(root) + "}"@
}

pub open spec fn file_root_json(root: Seq<char>) -> Seq<char> {
    "{\"handle\":[{\"handler\":\"vars\",\"root\":"@ + json_quoted(root) + "}]}"@
}

/// Tries the exact path, then its index page, then the fallback.
pub open spec fn fallback_json(path: Seq<char>) -> Seq<char> {
    "{\"handle\":[{\"handler\":\"rewrite\",\"uri\":\"{http.matchers.file.relative}\"}],\"match\":[{\"file\":{\"try_files\":[\"{http.request.uri.path}\",\"{http.request.uri.path}/index.html\","@
        + json_quoted(path) + "]}}]}"@
}

pub open spec fn name_token(a: Algorithm) -> Seq<char> {
    seq!['"'] + a.spec_name() + seq!['"']
}

pub open spec fn name_entry(a: Algorithm) -> Seq<char> {
    name_token(a) + ":{}"@
}

/// Serves files, preferring side-cars in the order of `algorithms`.
pub open spec fn file_server_json(algorithms: Seq<Algorithm>) -> Seq<char> {
    "{\"handle\":[{\"handler\":\"file_server\",\"precompressed\":{"@ + join(
        algorithms.map_values(|a: Algorithm| name_entry(a)),
    ) + "},\"precompressed_order\":["@ + join(algorithms.map_values(|a: Algorithm| name_token(a)))
        + "]}]}"@
}

pub open spec fn host_routes(h: HostConfig) -> Seq<Seq<char>> {
    match h.fallback {
        Some(f) => seq![
            file_root_json(h.root.0@),
            fallback_json(f.0@),
            file_server_json(h.server.compression@),
        ],
        None => seq![file_root_json(h.root.0@), file_server_json(h.server.compression@)],
    }
}

/// The routing rule of one bundle.
pub open spec fn host_json(h: HostConfig) -> Seq<char> {
    "{\"handle\":[{\"handler\":\"subroute\",\"routes\":["@ + join(host_routes(h))
        + "]}],\"match\":[{\"host\":"@ + string_array(strings_view(h.hosts@)) + "}]}"@
}

pub open spec fn http_json(h: HttpConfig) -> Seq<char> {
    "{\"servers\":{\"srv0\":{\"listen\":[\":"@ + decimal(h.port as nat)
        + "\"],\"routes\":[{\"handle\":[{\"handler\":\"subroute\",\"routes\":["@ + join(
        h.hosts@.map_values(|x: HostConfig| host_json(x)),
    ) + "]}],\"match\":[{\"host\":"@ + string_array(strings_view(h.domains@))
        + "}],\"terminal\":true}]}}}"@
}

pub open spec fn ca_url(staging: bool) -> Seq<char> {
    if staging {
        "https://acme-staging-v02.api.letsencrypt.org/directory"@
    } else {
        "https://acme-v02.api.letsencrypt.org/directory"@
    }
}

/// One ACME automation policy with a DNS-01 challenge.
pub open spec fn tls_json(t: TlsConfig) -> Seq<char> {
    "{\"automation\":{\"policies\":[{\"issuers\":[{\"ca\":\""@ + ca_url(t.staging)
        + "\",\"challenges\":{\"dns\":{\"provider\":{\"api_token\":"@ + json_quoted(t.token@)
        + ",\"name\":\"cloudflare\"},\"resolvers\":[\"1.1.1.1\"]}},\"email\":"@ + json_quoted(
        t.email@,
    ) + ",\"module\":\"acme\"}],\"subjects\":"@ + string_array(strings_view(t.subjects@))
        + "}]}}"@
}

pub open spec fn caddy_json(c: CaddyConfig) -> Seq<char> {
    "{\"apps\":{\"http\":"@ + http_json(c.http) + match c.tls {
        Some(t) => ",\"tls\":"@ + tls_json(t),
        None => Seq::empty(),
    } + "},\"storage\":"@ + storage_json(c.storage.0@) + "}"@
}

impl Storage {
    pub fn to_json(&self) -> (r: Option<String>)
        ensures
            r is Some,
            r matches Some(t) ==> t@ == storage_json(self.0@),
    {
        let q = match quote(self.0.as_str()) {
            Some(q) => q,
            None => return None,
        };
        let out = String::from_str("{\"module\":\"file_system\",\"root\":").concat(q.as_str()).concat(
            "}",
        );
        Some(out)
    }
}

impl FileRoot {
    pub fn to_json(&self) -> (r: Option<String>)
        ensures
            r is Some,
            r matches Some(t) ==> t@ == file_root_json(self.0@),
    {
        let q = match quote(self.0.as_str()) {
            Some(q) => q,
            None => return None,
        };
        let out = String::from_str("{\"handle\":[{\"handler\":\"vars\",\"root\":").concat(
            q.as_str(),
        ).concat("}]}");
        Some(out)
    }
}

impl Fallback {
    pub fn to_json(&self) -> (r: Option<String>)
        ensures
            r is Some,
            r matches Some(t) ==> t@ == fallback_json(self.0@),
    {
        let q = match quote(self.0.as_str()) {
            Some(q) => q,
            None => return None,
        };
        let out = String::from_str(
            "{\"handle\":[{\"handler\":\"rewrite\",\"uri\":\"{http.matchers.file.relative}\"}],\"match\":[{\"file\":{\"try_files\":[\"{http.request.uri.path}\",\"{http.request.uri.path}/index.html\",",
        ).concat(q.as_str()).concat("]}}]}");
        Some(out)
    }
}

impl FileServer {
    pub fn to_json(&self) -> (r: String)
        ensures
            r@ == file_server_json(self.compression@),
    {
        let mut entries: Vec<String> = Vec::new();
        let mut tokens: Vec<String> = Vec::new();
        let mut i: usize = 0;
        while i < self.compression.len()
            invariant
                i <= self.compression@.len(),
                entries@.len() == i,
                tokens@.len() == i,
                forall|j: int| 0 <= j < i ==> (#[trigger] tokens@[j])@ == name_token(self.compression@[j]),
                forall|j: int| 0 <= j < i ==> (#[trigger] entries@[j])@ == name_entry(self.compression@[j]),
            decreases self.compression@.len() - i,
        {
            proof {
                reveal_strlit("\"");
            }
            let token = String::from_str("\"").concat(self.compression[i].name()).concat("\"");
            let entry = String::from_str("\"").concat(self.compression[i].name()).concat("\":{}");
            proof {
                assert(entry@ =~= name_token(self.compression@[i as int]) + ":{}"@) by {
                    reveal_strlit("\":{}");
                    reveal_strlit(":{}");
                }
            }
            tokens.push(token);
            entries.push(entry);
            i += 1;
        }
        proof {
            assert(strings_view(entries@) =~= self.compression@.map_values(|a: Algorithm| name_entry(a)));
            assert(strings_view(tokens@) =~= self.compression@.map_values(|a: Algorithm| name_token(a)));
        }
        let e = join_parts(&entries);
        let t = join_parts(&tokens);
        String::from_str("{\"handle\":[{\"handler\":\"file_server\",\"precompressed\":{").concat(
            e.as_str(),
        ).concat("},\"precompressed_order\":[").concat(t.as_str()).concat("]}]}")
    }
}

impl HostConfig {
    pub fn to_json(&self) -> (r: Option<String>)
        ensures
            r is Some,
            r matches Some(t) ==> t@ == host_json(*self),
    {
        let mut routes: Vec<String> = Vec::new();
        match self.root.to_json() {
            Some(t) => routes.push(t),
            None => return None,
        }
        match &self.fallback {
            Some(f) => match f.to_json() {
                Some(t) => routes.push(t),
                None => return None,
            },
            None => {},
        }
        routes.push(self.server.to_json());
        proof {
            assert(strings_view(routes@) =~= host_routes(*self));
        }
        let hosts = match quote_array(&self.hosts) {
            Some(h) => h,
            None => return None,
        };
        let body = join_parts(&routes);
        let out = String::from_str("{\"handle\":[{\"handler\":\"subroute\",\"routes\":[").concat(
            body.as_str(),
        ).concat("]}],\"match\":[{\"host\":").concat(hosts.as_str()).concat("}]}");
        Some(out)
    }
}

impl HttpConfig {
    pub fn to_json(&self) -> (r: Option<String>)
        ensures
            r is Some,
            r matches Some(t) ==> t@ == http_json(*self),
    {
        let mut routes: Vec<String> = Vec::new();
        let mut i: usize = 0;
        while i < self.hosts.len()
            invariant
                i <= self.hosts@.len(),
                routes@.len() == i,
                forall|j: int| 0 <= j < i ==> (#[trigger] routes@[j])@ == host_json(self.hosts@[j]),
            decreases self.hosts@.len() - i,
        {
            match self.hosts[i].to_json() {
                Some(t) => routes.push(t),
                None => return None,
            }
            i += 1;
        }
        proof {
            assert(strings_view(routes@) =~= self.hosts@.map_values(|x: HostConfig| host_json(x)));
        }
        let domains = match quote_array(&self.domains) {
            Some(d) => d,
            None => return None,
        };
        let body = join_parts(&routes);
        let port = decimal_text(self.port as u64);
        let out = String::from_str("{\"servers\":{\"srv0\":{\"listen\":[\":").concat(port.as_str()).concat(
            "\"],\"routes\":[{\"handle\":[{\"handler\":\"subroute\",\"routes\":[",
        ).concat(body.as_str()).concat("]}],\"match\":[{\"host\":").concat(domains.as_str()).concat(
            "}],\"terminal\":true}]}}}",
        );
        Some(out)
    }
}

impl TlsConfig {
    pub fn to_json(&self) -> (r: Option<String>)
        ensures
            r is Some,
            r matches Some(t) ==> t@ == tls_json(*self),
    {
        let ca = if self.staging {
            "https://acme-staging-v02.api.letsencrypt.org/directory"
        } else {
            "https://acme-v02.api.letsencrypt.org/directory"
        };
        let token = match quote(self.token.as_str()) {
            Some(q) => q,
            None => return None,
        };
        let email = match quote(self.email.as_str()) {
            Some(q) => q,
            None => return None,
        };
        let subjects = match quote_array(&self.subjects) {
            Some(q) => q,
            None => return None,
        };
        let out = String::from_str("{\"automation\":{\"policies\":[{\"issuers\":[{\"ca\":\"").concat(
            ca,
        ).concat("\",\"challenges\":{\"dns\":{\"provider\":{\"api_token\":").concat(
            token.as_str(),
        ).concat(",\"name\":\"cloudflare\"},\"resolvers\":[\"1.1.1.1\"]}},\"email\":").concat(
            email.as_str(),
        ).concat(",\"module\":\"acme\"}],\"subjects\":").concat(subjects.as_str()).concat("}]}}");
        Some(out)
    }
}

impl CaddyConfig {
    /// The full configuration document, as submitted to the proxy's
    /// administrative API.
    pub fn to_json(&self) -> (r: Option<String>)
        ensures
            r is Some,
            r matches Some(t) ==> t@ == caddy_json(*self),
    {
        let http = match self.http.to_json() {
            Some(h) => h,
            None => return None,
        };
        let storage = match self.storage.to_json() {
            Some(s) => s,
            None => return None,
        };
        let mut out = String::from_str("{\"apps\":{\"http\":").concat(http.as_str());
        match &self.tls {
            Some(t) => match t.to_json() {
                Some(tj) => {
                    out = out.concat(",\"tls\":").concat(tj.as_str());
                },
                None => return None,
            },
            None => {},
        }
        let out = out.concat("},\"storage\":").concat(storage.as_str()).concat("}");
        proof {
            assert(out@ =~= caddy_json(*self));
        }
        Some(out)
    }
}

} // verus!
