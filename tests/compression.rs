use launch::compressor::{eq_ignore_ascii_case, match_extension, Algorithm, Compressor};

fn page(n: usize) -> Vec<u8> {
    let mut v = Vec::new();
    while v.len() < n {
        v.extend_from_slice(b"<p>hello compressible world</p>\n");
    }
    v.truncate(n);
    v
}

#[test]
fn algorithm_names_and_extensions() {
    assert_eq!(Algorithm::Gzip.name(), "gzip");
    assert_eq!(Algorithm::Brotli.name(), "br");
    assert_eq!(Algorithm::Gzip.extension(), "gz");
    assert_eq!(Algorithm::Brotli.extension(), "br");
    assert_eq!(Compressor::default().algorithms(), vec![Algorithm::Brotli, Algorithm::Gzip]);
}

#[test]
fn extension_matching_ignores_ascii_case() {
    let filter = vec!["html".to_string(), "css".to_string()];
    assert!(match_extension(Some("HTML"), &filter));
    assert!(match_extension(Some("Css"), &filter));
    assert!(!match_extension(Some("js"), &filter));
    assert!(!match_extension(None, &filter));
    assert!(eq_ignore_ascii_case("WoFf2", "woff2"));
    assert!(!eq_ignore_ascii_case("woff", "woff2"));
}

#[test]
fn eligible_file_gets_side_cars() {
    let k = Compressor::default();
    let filter = vec!["html".to_string()];
    let data = page(4000);
    let mut stats = k.new_statistics();
    let cars = k
        .add_file(&mut stats, "site/index.html", 4000, true, Some("html"), &filter, &data)
        .unwrap();
    assert_eq!(cars.len(), 2);
    assert_eq!(cars[0].path, "site/index.html.br");
    assert_eq!(cars[1].path, "site/index.html.gz");
    assert_eq!(&cars[1].data[..2], &[0x1f, 0x8b]);
    assert!(cars[0].data.len() < data.len());
    assert_eq!(stats.size, 4000);
    assert_eq!(stats.compressible, 4000);
    assert_eq!(stats.compressed_size(Algorithm::Brotli), Some(cars[0].data.len() as u64));
    assert_eq!(stats.compressed_size(Algorithm::Gzip), Some(cars[1].data.len() as u64));
}

#[test]
fn small_or_unlisted_files_are_only_counted() {
    let k = Compressor::default();
    let filter = vec!["html".to_string()];
    let mut stats = k.new_statistics();
    let small = page(1399);
    let cars = k
        .add_file(&mut stats, "a.html", 1399, true, Some("html"), &filter, &small)
        .unwrap();
    assert!(cars.is_empty());
    let cars = k
        .add_file(&mut stats, "b.png", 5000, true, Some("png"), &filter, &vec![])
        .unwrap();
    assert!(cars.is_empty());
    let cars = k.add_file(&mut stats, "dir", 4096, false, None, &filter, &vec![]).unwrap();
    assert!(cars.is_empty());
    assert_eq!(stats.size, 6399);
    assert_eq!(stats.compressible, 0);
    assert_eq!(stats.compressed_size(Algorithm::Gzip), Some(0));
    assert_eq!(stats.compressed_size(Algorithm::Brotli), Some(0));
}

#[test]
fn statistics_stay_ordered_over_a_pass() {
    let k = Compressor::default();
    let filter = vec!["html".to_string(), "css".to_string()];
    let mut stats = k.new_statistics();
    let files = [("a.html", 3000usize), ("b.css", 2000), ("c.txt", 100), ("d.HTML", 1400)];
    for (name, n) in files {
        let ext = name.rsplit('.').next();
        let data = page(n);
        k.add_file(&mut stats, name, n as u64, true, ext, &filter, &data).unwrap();
    }
    assert_eq!(stats.size, 6500);
    assert_eq!(stats.compressible, 6400);
    for a in [Algorithm::Gzip, Algorithm::Brotli] {
        let c = stats.compressed_size(a).unwrap();
        assert!(c > 0);
        assert!(c <= stats.compressible);
        assert!(stats.compressible <= stats.size);
    }
}

#[test]
fn encoders_change_their_input() {
    let data = page(2000);
    let gz = Algorithm::Gzip.encode(&data).unwrap();
    let br = Algorithm::Brotli.encode(&data).unwrap();
    assert_ne!(gz, data);
    assert_ne!(br, data);
    assert!(gz.len() < data.len());
}
