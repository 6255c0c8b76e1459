use launch::caddy::{CaddyConfig, HostConfig, TlsConfig};
use launch::compressor::Algorithm;
use launch::ingress::{manifest, manifests};
use launch::json::{decimal_text, join_parts, quote, quote_array};
use serde_json::Value;

fn host() -> HostConfig {
    HostConfig::new(
        vec!["a.example".to_string()],
        "/tmp/launch-1".to_string(),
        vec![Algorithm::Brotli, Algorithm::Gzip],
        Some("/index.html".to_string()),
    )
}

fn tls() -> TlsConfig {
    TlsConfig {
        subjects: vec!["a.example".to_string()],
        email: "ops@a.example".to_string(),
        token: "SECRET-REDACTED".to_string(),
        staging: true,
    }
}

#[test]
fn port_follows_tls() {
    let plain = CaddyConfig::new(vec![], vec![], "/etc/caddy".to_string(), None);
    assert_eq!(plain.http.port, 80);
    let secure = CaddyConfig::new(vec![], vec![], "/etc/caddy".to_string(), Some(tls()));
    assert_eq!(secure.http.port, 443);
}

#[test]
fn host_config_wraps_fields() {
    let h = host();
    assert_eq!(h.hosts, vec!["a.example".to_string()]);
    assert_eq!(h.root.0, "/tmp/launch-1");
    assert_eq!(h.server.compression, vec![Algorithm::Brotli, Algorithm::Gzip]);
    assert_eq!(h.fallback.map(|f| f.0), Some("/index.html".to_string()));
}

#[test]
fn host_document_routes_files() {
    let text = host().to_json().unwrap();
    let v: Value = serde_json::from_str(&text).unwrap();
    assert_eq!(v["match"][0]["host"][0], "a.example");
    let routes = &v["handle"][0]["routes"];
    assert_eq!(routes.as_array().unwrap().len(), 3);
    assert_eq!(routes[0]["handle"][0]["root"], "/tmp/launch-1");
    let tries = &routes[1]["match"][0]["file"]["try_files"];
    assert_eq!(tries[0], "{http.request.uri.path}");
    assert_eq!(tries[1], "{http.request.uri.path}/index.html");
    assert_eq!(tries[2], "/index.html");
    let server = &routes[2]["handle"][0];
    assert_eq!(server["handler"], "file_server");
    assert_eq!(server["precompressed_order"][0], "br");
    assert_eq!(server["precompressed_order"][1], "gzip");
    assert!(server["precompressed"]["gzip"].is_object());
}

#[test]
fn full_document_with_tls() {
    let c = CaddyConfig::new(
        vec!["a.example".to_string(), "*.a.example".to_string()],
        vec![host()],
        "/etc/caddy".to_string(),
        Some(tls()),
    );
    let v: Value = serde_json::from_str(&c.to_json().unwrap()).unwrap();
    assert_eq!(v["storage"]["module"], "file_system");
    assert_eq!(v["storage"]["root"], "/etc/caddy");
    let srv = &v["apps"]["http"]["servers"]["srv0"];
    assert_eq!(srv["listen"][0], ":443");
    assert_eq!(srv["routes"][0]["match"][0]["host"][1], "*.a.example");
    assert_eq!(srv["routes"][0]["terminal"], true);
    let policy = &v["apps"]["tls"]["automation"]["policies"][0];
    assert_eq!(policy["subjects"][0], "a.example");
    let issuer = &policy["issuers"][0];
    assert_eq!(issuer["ca"], "https://acme-staging-v02.api.letsencrypt.org/directory");
    assert_eq!(issuer["email"], "ops@a.example");
    assert_eq!(issuer["challenges"]["dns"]["provider"]["api_token"], "SECRET-REDACTED");
}

#[test]
fn empty_host_list_document() {
    let c = CaddyConfig::new(vec!["a.example".to_string()], vec![], "/etc/caddy".to_string(), None);
    let v: Value = serde_json::from_str(&c.to_json().unwrap()).unwrap();
    let srv = &v["apps"]["http"]["servers"]["srv0"];
    assert_eq!(srv["listen"][0], ":80");
    assert_eq!(srv["routes"][0]["handle"][0]["routes"].as_array().unwrap().len(), 0);
    assert!(v["apps"].get("tls").is_none());
}

#[test]
fn json_pieces() {
    assert_eq!(quote("a\"b").unwrap(), "\"a\\\"b\"");
    assert_eq!(quote("\u{1}\n\\é").unwrap(), "\"\\u0001\\n\\\\é\"");
    assert_eq!(quote_array(&vec!["x".to_string(), "y".to_string()]).unwrap(), "[\"x\",\"y\"]");
    assert_eq!(quote_array(&vec![]).unwrap(), "[]");
    assert_eq!(join_parts(&vec!["1".to_string(), "2".to_string(), "3".to_string()]), "1,2,3");
    assert_eq!(decimal_text(0), "0");
    assert_eq!(decimal_text(443), "443");
    assert_eq!(decimal_text(65535), "65535");
}

#[test]
fn ingress_manifest_text() {
    let m = manifest("a.example", "web", "GEN");
    assert!(m.contains("  name: launch-a.example\n"));
    assert!(m.contains("dev.blechschmidt.launch/deploy-id: GEN\n"));
    assert!(m.contains("  - host: a.example\n"));
    assert!(m.contains("            name: web\n"));
    assert!(m.ends_with("number: 80\n---\n"));
    let all = manifests(&vec!["a.example".to_string(), "b.example".to_string()], "web", "GEN");
    assert_eq!(all, format!("{}{}", m, manifest("b.example", "web", "GEN")));
    assert_eq!(manifests(&vec![], "web", "GEN"), "");
}
