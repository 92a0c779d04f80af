use libruntime::layout::{index_path_for, mountpoint_for};
use libruntime::record::{Driver, Mount, MountType, StringMap, VolumeMetadata};
use libruntime::text::{chars_of, clone_strings};

#[test]
fn string_map_starts_empty() {
    let m = StringMap::new();
    assert_eq!(m.len(), 0);
    assert_eq!(m.get("k"), None);
    assert_eq!(m.get(""), None);
}

#[test]
fn string_map_insert_and_get() {
    let mut m = StringMap::new();
    m.insert("a".to_string(), "1".to_string());
    m.insert("b".to_string(), "2".to_string());
    assert_eq!(m.len(), 2);
    assert_eq!(m.get("a").map(|s| s.as_str()), Some("1"));
    assert_eq!(m.get("b").map(|s| s.as_str()), Some("2"));
    assert_eq!(m.get("c"), None);
    assert_eq!(m.key_at(0), "a");
    assert_eq!(m.value_at(0), "1");
    assert_eq!(m.key_at(1), "b");
    assert_eq!(m.value_at(1), "2");
}

#[test]
fn string_map_insert_replaces() {
    let mut m = StringMap::new();
    m.insert("a".to_string(), "1".to_string());
    m.insert("b".to_string(), "2".to_string());
    m.insert("a".to_string(), "3".to_string());
    assert_eq!(m.len(), 2);
    assert_eq!(m.get("a").map(|s| s.as_str()), Some("3"));
    assert_eq!(m.get("b").map(|s| s.as_str()), Some("2"));
    assert_eq!(m.key_at(0), "a");
    assert_eq!(m.value_at(0), "3");
}

#[test]
fn string_map_clone_holds_the_same_pairs() {
    let mut m = StringMap::new();
    m.insert("a".to_string(), "1".to_string());
    m.insert("".to_string(), "".to_string());
    let c = m.clone();
    m.insert("a".to_string(), "changed".to_string());
    assert_eq!(c.len(), 2);
    assert_eq!(c.get("a").map(|s| s.as_str()), Some("1"));
    assert_eq!(c.get("").map(|s| s.as_str()), Some(""));
}

#[test]
fn default_record_is_empty() {
    let r = VolumeMetadata::default();
    assert_eq!(r.name, "");
    assert_eq!(r.driver, "");
    assert_eq!(r.mountpoint, "");
    assert_eq!(r.created_at, "");
    assert_eq!(r.labels.len(), 0);
    assert_eq!(r.options.len(), 0);
    assert_eq!(r.scope, "");
    assert_eq!(r.status.len(), 0);
    assert!(r.reference.is_empty());
}

#[test]
fn record_clone_holds_the_same_fields() {
    let mut r = VolumeMetadata::default();
    r.name = "n".to_string();
    r.driver = "d".to_string();
    r.mountpoint = "/m".to_string();
    r.created_at = "t".to_string();
    r.labels.insert("l".to_string(), "1".to_string());
    r.options.insert("o".to_string(), "2".to_string());
    r.scope = "global".to_string();
    r.status.insert("s".to_string(), "3".to_string());
    r.reference = vec!["c1".to_string(), "c2".to_string()];
    let c = r.clone();
    assert_eq!(c.name, "n");
    assert_eq!(c.driver, "d");
    assert_eq!(c.mountpoint, "/m");
    assert_eq!(c.created_at, "t");
    assert_eq!(c.labels.get("l").map(|s| s.as_str()), Some("1"));
    assert_eq!(c.options.get("o").map(|s| s.as_str()), Some("2"));
    assert_eq!(c.scope, "global");
    assert_eq!(c.status.get("s").map(|s| s.as_str()), Some("3"));
    assert_eq!(c.reference, vec!["c1".to_string(), "c2".to_string()]);
}

#[test]
fn volume_mount_has_only_paths_and_flag() {
    let m = Mount::for_volume("/in".to_string(), "/out".to_string(), true);
    assert_eq!(m.container_path, "/in");
    assert_eq!(m.host_path, "/out");
    assert!(m.readonly);
    assert!(!m.selinux_relabel);
    assert_eq!(m.propagation, 0);
    assert!(m.uid_mappings.is_empty());
    assert!(m.gid_mappings.is_empty());
    assert!(!m.recursive_read_only);
    assert_eq!(m.image, None);
    assert_eq!(m.image_sub_path, "");
}

#[test]
fn layout_paths() {
    assert_eq!(mountpoint_for("/var/lib/rkl/volumes", "data"), "/var/lib/rkl/volumes/data/_data");
    assert_eq!(mountpoint_for("", ""), "//_data");
    assert_eq!(mountpoint_for("/r/", "n"), "/r//n/_data");
    assert_eq!(index_path_for("/var/lib/rkl/volumes"), "/var/lib/rkl/volumes/metadata.json");
}

#[test]
fn text_helpers() {
    assert_eq!(chars_of("aé:"), vec!['a', 'é', ':']);
    assert!(chars_of("").is_empty());
    let parts = vec!["a".to_string(), "".to_string(), "bc".to_string()];
    assert_eq!(clone_strings(&parts), parts);
}

#[test]
fn drivers_and_mount_types() {
    assert_ne!(Driver::Local, Driver::Azure);
    assert_ne!(Driver::Azure, Driver::Rexray);
    assert_eq!(format!("{:?}", Driver::Local), "Local");
    assert_ne!(MountType::Bind, MountType::Nfs);
    assert_ne!(MountType::Tmpfs, MountType::Cifs);
    assert_eq!(format!("{:?}", MountType::Bind), "Bind");
}
