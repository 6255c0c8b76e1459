use launch::bundle::{Bundle, BundleConfig};
use launch::compressor::{Compressor, Statistics};
use launch::id::id_from_str;
use launch::manager::{BundleManager, DeployError, Prepared};
use launch::storage::BundleStorage;

const ID1: &str = "01D39ZY06FGSCTVN4T2V9PKHFZ";
const ID2: &str = "01D39ZY06FGSCTVN4T2V9PKHG0";

fn id(text: &str) -> u128 {
    id_from_str(text).unwrap()
}

fn config(name: &str, domain: &str) -> BundleConfig {
    BundleConfig {
        name: name.to_string(),
        domain: domain.to_string(),
        compress: vec!["html".to_string()],
        fallback: None,
    }
}

fn manager() -> BundleManager<String> {
    BundleManager::new(BundleStorage::new("/tmp/bundles".to_string()), Compressor::default())
}

fn prepared(
    dir: &str,
    size: u64,
) -> impl FnOnce(&BundleConfig, &Compressor) -> Result<Prepared<String>, DeployError> + '_ {
    move |_c: &BundleConfig, k: &Compressor| {
        let mut stats = k.new_statistics();
        let contents = vec![b'a'; size as usize];
        k.add_file(&mut stats, "index.txt", size, true, Some("txt"), &vec![], &contents)
            .unwrap();
        Ok(Prepared { root: dir.to_string(), path: dir.to_string(), stats })
    }
}

fn active_domain(list: &[(u128, Bundle)], key: u128) -> Option<String> {
    list.iter().find(|(k, _)| *k == key).and_then(|(_, b)| match b {
        Bundle::Active { config, .. } => Some(config.domain.clone()),
        Bundle::Failed { .. } => None,
    })
}

fn failed_error(list: &[(u128, Bundle)], key: u128) -> Option<String> {
    list.iter().find(|(k, _)| *k == key).and_then(|(_, b)| match b {
        Bundle::Active { .. } => None,
        Bundle::Failed { error } => Some(error.clone()),
    })
}

#[test]
fn domain_conflict_marks_new_bundle_failed() {
    let mut m = manager();
    let r1 = m.deploy(id(ID1), Ok(config("one", "a.example")), prepared("/tmp/one", 10));
    assert!(r1.is_ok());
    let list = m.bundles();
    assert_eq!(list.len(), 1);
    assert_eq!(active_domain(&list, id(ID1)), Some("a.example".to_string()));

    let r2 = m.deploy(id(ID2), Ok(config("two", "a.example")), prepared("/tmp/two", 10));
    assert!(matches!(r2, Err(DeployError::DomainConflict)));
    let list = m.bundles();
    assert_eq!(list.len(), 2);
    assert_eq!(active_domain(&list, id(ID1)), Some("a.example".to_string()));
    assert_eq!(
        failed_error(&list, id(ID2)),
        Some("domain already in use by another bundle".to_string())
    );
    let hosts = m.hosts();
    assert_eq!(hosts.len(), 1);
    assert_eq!(hosts[0].root.0, "/tmp/one");
}

#[test]
fn redeploy_onto_own_domain_replaces_entry() {
    let mut m = manager();
    m.deploy(id(ID1), Ok(config("one", "a.example")), prepared("/tmp/first", 10)).unwrap();
    let stats = m
        .deploy(id(ID1), Ok(config("one again", "a.example")), prepared("/tmp/second", 25))
        .unwrap();
    assert_eq!(stats.size, 25);
    let list = m.bundles();
    assert_eq!(list.len(), 1);
    match &list[0].1 {
        Bundle::Active { config, stats } => {
            assert_eq!(config.name, "one again");
            assert_eq!(stats.size, 25);
        }
        Bundle::Failed { .. } => panic!("expected an active bundle"),
    }
    let hosts = m.hosts();
    assert_eq!(hosts.len(), 1);
    assert_eq!(hosts[0].root.0, "/tmp/second");
}

#[test]
fn removed_bundle_cannot_be_redeployed_without_archive() {
    let mut m = manager();
    m.deploy(id(ID1), Ok(config("one", "a.example")), prepared("/tmp/one", 10)).unwrap();
    m.remove(id(ID1));
    assert!(m.bundles().is_empty());
    let missing = Err(DeployError::NotFound("no launch config found".to_string()));
    let r = m.deploy(id(ID1), missing, prepared("/tmp/one", 10));
    assert!(matches!(r, Err(DeployError::NotFound(_))));
    assert_eq!(failed_error(&m.bundles(), id(ID1)), Some("no launch config found".to_string()));
    assert!(m.domains().is_empty());
}

#[test]
fn delete_leaves_no_active_routes() {
    let mut m = manager();
    m.deploy(id(ID1), Ok(config("one", "a.example")), prepared("/tmp/one", 10)).unwrap();
    let _ = m.deploy(id(ID2), Ok(config("two", "a.example")), prepared("/tmp/two", 10));
    m.remove(id(ID1));
    let list = m.bundles();
    assert!(list.iter().all(|(_, b)| matches!(b, Bundle::Failed { .. })));
    assert!(m.hosts().is_empty());
    assert!(m.domains().is_empty());
    m.remove(id(ID2));
    assert!(m.bundles().is_empty());
}

#[test]
fn startup_with_one_corrupt_archive() {
    let mut m = manager();
    let ok = m.deploy(id(ID1), Ok(config("one", "a.example")), prepared("/tmp/one", 10));
    let bad = m.deploy(
        id(ID2),
        Err(DeployError::Invalid("failed to read entire block".to_string())),
        prepared("/tmp/two", 10),
    );
    assert!(ok.is_ok());
    assert!(bad.is_err());
    let list = m.bundles();
    assert_eq!(list.len(), 2);
    assert!(active_domain(&list, id(ID1)).is_some());
    let error = failed_error(&list, id(ID2)).unwrap();
    assert!(!error.is_empty());
}

#[test]
fn failed_preparation_is_recorded() {
    let mut m = manager();
    let r = m.deploy(id(ID1), Ok(config("one", "a.example")), |_c: &BundleConfig, _k: &Compressor| {
        Err::<Prepared<String>, DeployError>(DeployError::Storage("disk full".to_string()))
    });
    assert!(matches!(r, Err(DeployError::Storage(_))));
    assert_eq!(failed_error(&m.bundles(), id(ID1)), Some("disk full".to_string()));
    assert!(m.domains().is_empty());
}

#[test]
fn domains_and_hosts_follow_active_bundles() {
    let mut m = manager();
    let mut c = config("one", "a.example");
    c.fallback = Some("/index.html".to_string());
    m.deploy(id(ID1), Ok(c), prepared("/tmp/one", 10)).unwrap();
    m.deploy(id(ID2), Ok(config("two", "b.example")), prepared("/tmp/two", 10)).unwrap();
    let mut domains = m.domains();
    domains.sort();
    assert_eq!(domains, vec!["a.example".to_string(), "b.example".to_string()]);
    let hosts = m.hosts();
    assert_eq!(hosts.len(), 2);
    let one = hosts.iter().find(|h| h.hosts == vec!["a.example".to_string()]).unwrap();
    assert_eq!(one.fallback.as_ref().map(|f| f.0.clone()), Some("/index.html".to_string()));
    assert_eq!(one.server.compression, m.compressor().algorithms());
}

#[test]
fn statistics_copy_keeps_values() {
    let s = Statistics { size: 5, compressible: 3, compressed: vec![] };
    let d = s.duplicate();
    assert_eq!((d.size, d.compressible, d.compressed.len()), (5, 3, 0));
}

#[test]
fn shared_extraction_directory_is_refused() {
    let mut m = manager();
    m.deploy(id(ID1), Ok(config("one", "a.example")), prepared("/tmp/same", 10)).unwrap();
    let r = m.deploy(id(ID2), Ok(config("two", "b.example")), prepared("/tmp/same", 10));
    assert!(matches!(r, Err(DeployError::DirectoryInUse)));
    assert_eq!(
        failed_error(&m.bundles(), id(ID2)),
        Some("extraction directory already in use by another bundle".to_string())
    );
    assert_eq!(active_domain(&m.bundles(), id(ID1)), Some("a.example".to_string()));
    let again = m.deploy(id(ID1), Ok(config("one", "a.example")), prepared("/tmp/same", 12));
    assert_eq!(again.unwrap().size, 12);
}

#[test]
fn successful_deploy_records_prepared_directory_and_statistics() {
    let mut m = manager();
    let stats = m.deploy(id(ID1), Ok(config("one", "a.example")), prepared("/tmp/p", 42)).unwrap();
    assert_eq!((stats.size, stats.compressible), (42, 0));
    match &m.bundles()[0].1 {
        Bundle::Active { stats, .. } => assert_eq!(stats.size, 42),
        Bundle::Failed { .. } => panic!("expected an active bundle"),
    }
    assert_eq!(m.hosts()[0].root.0, "/tmp/p");
}
