use signage_pricing::upload::UploadMap;

#[test]
fn new_map_is_empty() {
    assert_eq!(UploadMap::new().len(), 0);
}

#[test]
fn add_keeps_extension_and_records_entry() {
    let mut m = UploadMap::new();
    let stored = m.add("logo.png");
    assert_eq!(stored.len(), 40);
    assert!(stored.ends_with(".png"));
    assert_eq!(&stored[36..37], ".");
    assert!(stored[..36].chars().all(|c| c.is_ascii_hexdigit() || c == '-'));
    assert_eq!(m.len(), 1);
    assert_eq!(m.entry(0), ("logo.png".to_string(), stored.clone()));
}

#[test]
fn add_without_extension_stores_txt() {
    let mut m = UploadMap::new();
    let a = m.add("readme");
    let b = m.add(".hidden");
    assert!(a.ends_with(".txt"));
    assert!(b.ends_with(".txt"));
    assert_eq!(a.len(), 40);
    assert_ne!(a, b);
    assert_eq!(m.len(), 2);
    assert_eq!(m.entry(1).0, ".hidden");
}

#[test]
fn add_takes_last_extension() {
    let mut m = UploadMap::new();
    let s = m.add("archive.tar.gz");
    assert!(s.ends_with(".gz"));
    assert_eq!(s.len(), 39);
}

#[test]
fn add_upload_cleans_sent_name() {
    let mut m = UploadMap::new();
    let s = m.add_upload("a/b.png");
    assert!(s.ends_with(".png"));
    assert_eq!(s.len(), 40);
    assert_eq!(m.entry(0).0, "ab.png");
    let t = m.add_upload("..");
    assert!(t.ends_with(".txt"));
    assert_eq!(m.entry(1).0, "");
    assert_eq!(m.len(), 2);
}
