use launch::compressor::Compressor;
use launch::id::{id_from_str, id_to_string};
use launch::ingress::plan;
use launch::manager::BundleManager;
use launch::options::{after_apply_attempt, expand_domains, ApplyStep, Options};
use launch::routes::{route, Method, Route};
use launch::storage::BundleStorage;

const TEXT: &str = "01D39ZY06FGSCTVN4T2V9PKHFZ";

#[test]
fn identifiers_round_trip() {
    let id = id_from_str(TEXT).unwrap();
    assert_eq!(id_to_string(id), TEXT);
    assert_eq!(id_from_str(&TEXT.to_lowercase()), Some(id));
    assert_eq!(id_from_str("short"), None);
    assert_eq!(id_from_str("01D39ZY06FGSCTVN4T2V9PKHF!"), None);
    assert_eq!(id_to_string(0), "00000000000000000000000000");
}

#[test]
fn archive_file_names() {
    let id = id_from_str(TEXT).unwrap();
    assert_eq!(BundleStorage::file_name(id), format!("{}.launch", TEXT));
    assert_eq!(BundleStorage::parse_file_name(&BundleStorage::file_name(id)), Some(id));
    assert_eq!(BundleStorage::parse_file_name(&format!("{}.LAUNCH", TEXT)), Some(id));
    assert_eq!(BundleStorage::parse_file_name(&format!("{}.tar", TEXT)), None);
    assert_eq!(BundleStorage::parse_file_name(".launch"), None);
    assert_eq!(BundleStorage::parse_file_name("junk.launch"), None);
    let s = BundleStorage::new("/var/www/bundles".to_string());
    assert_eq!(s.bundle_path(id), format!("/var/www/bundles/{}.launch", TEXT));
}

#[test]
fn enumerate_filters_listing() {
    let id = id_from_str(TEXT).unwrap();
    let listing = vec![
        (format!("{}.launch", TEXT), true),
        ("junk.launch".to_string(), true),
        ("notes.txt".to_string(), true),
        ("01D39ZY06FGSCTVN4T2V9PKHG0.launch".to_string(), false),
    ];
    let (ids, skipped) = BundleStorage::enumerate(&listing);
    assert_eq!(ids, vec![id]);
    assert_eq!(skipped, vec!["junk.launch".to_string()]);
}

#[test]
fn removed_archive_is_not_enumerated() {
    let listing = vec![("01D39ZY06FGSCTVN4T2V9PKHG0.launch".to_string(), true)];
    let (ids, _) = BundleStorage::enumerate(&listing);
    assert!(!ids.contains(&id_from_str(TEXT).unwrap()));
}

#[test]
fn metadata_member_paths() {
    assert!(BundleStorage::is_metadata_member("launch.config"));
    assert!(BundleStorage::is_metadata_member("./launch.config"));
    assert!(!BundleStorage::is_metadata_member("xlaunch.config"));
    assert!(!BundleStorage::is_metadata_member("launch.config.bak"));
}

#[test]
fn routes_decode_requests() {
    let id = id_from_str(TEXT).unwrap();
    let path = format!("/bundle/{}", TEXT);
    assert_eq!(route(Method::Get, "/"), Route::List);
    assert_eq!(route(Method::Post, &path), Route::Upload(id));
    assert_eq!(route(Method::Delete, &path), Route::Remove(id));
    assert_eq!(route(Method::Other, &path), Route::NotFound);
    assert_eq!(route(Method::Post, "/bundle/nope"), Route::NotFound);
    assert_eq!(route(Method::Get, "/elsewhere"), Route::NotFound);
    assert_eq!(route(Method::Post, "/"), Route::NotFound);
}

#[test]
fn retry_policy() {
    assert_eq!(after_apply_attempt(1, true), ApplyStep::Done);
    assert_eq!(after_apply_attempt(1, false), ApplyStep::Retry { delay_ms: 250 });
    assert_eq!(after_apply_attempt(9, false), ApplyStep::Retry { delay_ms: 250 });
    assert_eq!(after_apply_attempt(10, false), ApplyStep::GiveUp);
}

#[test]
fn domain_list_expansion() {
    let d = expand_domains(&vec!["a.example".to_string(), "b.example".to_string()]);
    assert_eq!(d, vec!["a.example", "*.a.example", "b.example", "*.b.example"]);
    let o = Options::with_domains(&vec!["a.example".to_string()], Some("web".to_string()));
    assert_eq!(o.domains, vec!["a.example", "*.a.example"]);
    assert_eq!(o.storage, "/var/www/bundles");
    assert_eq!(o.caddy_endpoint, "http://localhost:2019");
    assert!(o.tls.is_none());
}

#[test]
fn proxy_config_of_empty_registry() {
    let m: BundleManager<()> =
        BundleManager::new(BundleStorage::new("/tmp/b".to_string()), Compressor::default());
    let o = Options::with_domains(&vec!["a.example".to_string()], None);
    let c = o.proxy_config(&m);
    assert!(c.http.hosts.is_empty());
    assert_eq!(c.http.port, 80);
    assert_eq!(c.storage.0, "/etc/caddy");
    let p = plan(&m, "web");
    assert!(p.domains.is_empty());
    assert_eq!(p.manifests, "");
    assert_eq!(p.generation.len(), 26);
}

#[test]
fn enumerate_lists_each_identifier_once() {
    let id = id_from_str(TEXT).unwrap();
    let listing = vec![
        (format!("{}.launch", TEXT), true),
        (format!("{}.LAUNCH", TEXT.to_lowercase()), true),
    ];
    let (ids, skipped) = BundleStorage::enumerate(&listing);
    assert_eq!(ids, vec![id]);
    assert!(skipped.is_empty());
}

#[test]
fn excluded_letters_are_not_digits() {
    assert_eq!(id_from_str("0000000000000000000000000I"), None);
    assert_eq!(id_from_str("0000000000000000000000000u"), None);
    assert_eq!(id_from_str("0000000000000000000000000Z"), Some(31));
    assert_eq!(id_from_str("000000000000000000000000z0"), Some(31 * 32));
    assert_eq!(id_to_string(33), "00000000000000000000000011");
}
