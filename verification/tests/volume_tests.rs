use libruntime::action::HostAction;
use libruntime::error::VolumeError;
use libruntime::manager::{load_volume_container_reference, VolumeManager};
use libruntime::pattern::string_to_pattern;
use libruntime::probe::{RuntimeState, StateDir};
use libruntime::record::{Mount, StringMap, VolumeMetadata};
use libruntime::resolver::{Draw, NAME_ATTEMPTS};

const ROOT: &str = "/var/lib/rkl/volumes";

fn idle() -> RuntimeState {
    RuntimeState { containers: vec![], projects: vec![] }
}

fn under(root: &str) -> VolumeManager {
    VolumeManager::load(root.to_string(), vec![])
}

fn show(action: &HostAction) -> String {
    match action {
        HostAction::CreateDirAll { path } => format!("mkdir {}", path),
        HostAction::RemoveDirAll { path } => format!("rmdir {}", path),
        HostAction::WriteIndex { path, entries } => {
            let names: Vec<&str> = entries.iter().map(|e| e.0.as_str()).collect();
            format!("write {} [{}]", path, names.join(","))
        }
    }
}

fn shown(actions: &[HostAction]) -> Vec<String> {
    actions.iter().map(show).collect()
}

fn names_of(manager: &VolumeManager) -> Vec<String> {
    manager.list().iter().map(|r| r.name.clone()).collect()
}

fn is_lower_hex(name: &str) -> bool {
    name.chars().all(|c| matches!(c, '0'..='9' | 'a'..='f'))
}

fn assert_plain(mount: &Mount) {
    assert!(!mount.selinux_relabel);
    assert_eq!(mount.propagation, 0);
    assert!(mount.uid_mappings.is_empty());
    assert!(mount.gid_mappings.is_empty());
    assert!(!mount.recursive_read_only);
    assert_eq!(mount.image, None);
    assert_eq!(mount.image_sub_path, "");
}

fn record(name: &str, mountpoint: &str) -> VolumeMetadata {
    let mut r = VolumeMetadata::default();
    r.name = name.to_string();
    r.driver = "local".to_string();
    r.mountpoint = mountpoint.to_string();
    r.scope = "local".to_string();
    r
}

#[test]
fn new_manager_is_empty_under_the_default_root() {
    let mut manager = VolumeManager::new();
    assert_eq!(manager.volume_root(), ROOT);
    assert_eq!(manager.metadata_path(), "/var/lib/rkl/volumes/metadata.json");
    assert_eq!(manager.len(), 0);
    assert!(manager.list().is_empty());
    assert!(manager.take_actions().is_empty());
}

#[test]
fn test_volume_commands() {
    let volume_name = "test-volume";
    let mut manager = VolumeManager::new();

    let created = manager.create_(volume_name.to_string(), None, StringMap::new());
    let created = created.expect("volume create should succeed on an empty store");
    assert_eq!(created.name, volume_name);

    let listed = manager.list();
    assert_eq!(listed.len(), 1);
    assert_eq!(listed[0].name, volume_name);

    let inspected = manager.inspect_(volume_name).expect("volume inspect should find the volume");
    assert_eq!(inspected.name, volume_name);
    assert_eq!(inspected.mountpoint, "/var/lib/rkl/volumes/test-volume/_data");

    let removed = manager.remove_(volume_name, true, &idle());
    assert!(removed.is_ok(), "volume rm should succeed");
    assert!(manager.list().is_empty());
}

#[test]
fn test_volume_prune() {
    let mut manager = VolumeManager::new();
    let removed = manager.prune_(true, &idle()).expect("prune of an empty store succeeds");
    assert!(removed.is_empty());
    assert!(manager.take_actions().is_empty());
}

#[test]
fn create_builds_the_record_and_asks_for_directory_and_index() {
    let mut manager = under("/vol");
    let mut opts = StringMap::new();
    opts.insert("size".to_string(), "10G".to_string());
    let record = manager
        .create_at("data".to_string(), None, opts, "2024-05-06T07:08:09+00:00".to_string())
        .unwrap();
    assert_eq!(record.name, "data");
    assert_eq!(record.driver, "local");
    assert_eq!(record.mountpoint, "/vol/data/_data");
    assert_eq!(record.created_at, "2024-05-06T07:08:09+00:00");
    assert_eq!(record.labels.len(), 0);
    assert_eq!(record.options.len(), 1);
    assert_eq!(record.options.get("size").map(|s| s.as_str()), Some("10G"));
    assert_eq!(record.scope, "local");
    assert_eq!(record.status.len(), 0);
    assert!(record.reference.is_empty());

    assert!(manager.contains("data"));
    assert_eq!(manager.len(), 1);
    let stored = manager.inspect_("data").unwrap();
    assert_eq!(stored.mountpoint, "/vol/data/_data");
    assert_eq!(stored.created_at, "2024-05-06T07:08:09+00:00");
    assert_eq!(stored.options.get("size").map(|s| s.as_str()), Some("10G"));

    let actions = manager.take_actions();
    assert_eq!(shown(&actions), vec!["mkdir /vol/data/_data", "write /vol/metadata.json [data]"]);
    assert!(manager.take_actions().is_empty());
}

#[test]
fn create_keeps_the_driver_that_was_asked_for() {
    let mut manager = under("/vol");
    let record = manager
        .create_at("d".to_string(), Some("nfs".to_string()), StringMap::new(), "t".to_string())
        .unwrap();
    assert_eq!(record.driver, "nfs");
    assert_eq!(record.scope, "local");
}

#[test]
fn create_stamps_the_record_with_the_time() {
    let mut manager = under("/vol");
    let record = manager.create_("stamped".to_string(), None, StringMap::new()).unwrap();
    assert!(record.created_at.len() >= 20, "{}", record.created_at);
    assert_eq!(&record.created_at[4..5], "-");
    assert_eq!(&record.created_at[10..11], "T");
    assert!(record.created_at.ends_with("+00:00"), "{}", record.created_at);
    assert_eq!(manager.inspect_("stamped").unwrap().created_at, record.created_at);
}

#[test]
fn create_of_a_stored_name_is_refused() {
    let mut manager = under("/vol");
    manager.create_("data".to_string(), None, StringMap::new()).unwrap();
    manager.take_actions();
    let again = manager.create_("data".to_string(), None, StringMap::new());
    match again {
        Err(VolumeError::AlreadyExists(name)) => assert_eq!(name, "data"),
        other => panic!("unexpected {:?}", other.map(|r| r.name)),
    }
    let again = manager.create_at("data".to_string(), None, StringMap::new(), "t".to_string());
    assert!(matches!(again, Err(VolumeError::AlreadyExists(_))));
    assert_eq!(manager.len(), 1);
    assert!(manager.take_actions().is_empty());
}

#[test]
fn inspect_and_mountpoint_of_an_unknown_name_are_not_found() {
    let manager = under("/vol");
    match manager.inspect_("ghost") {
        Err(VolumeError::NotFound(name)) => assert_eq!(name, "ghost"),
        _ => panic!("inspect of an unknown name succeeded"),
    }
    match manager.get_mountpoint_from_name("ghost") {
        Err(VolumeError::NotFound(name)) => assert_eq!(name, "ghost"),
        _ => panic!("mount point of an unknown name was found"),
    }
    assert!(!manager.contains("ghost"));
}

#[test]
fn mountpoint_of_a_stored_name() {
    let mut manager = under("/vol");
    manager.create_("a".to_string(), None, StringMap::new()).unwrap();
    manager.create_("b".to_string(), None, StringMap::new()).unwrap();
    assert_eq!(manager.get_mountpoint_from_name("a").unwrap(), "/vol/a/_data");
    assert_eq!(manager.get_mountpoint_from_name("b").unwrap(), "/vol/b/_data");
}

#[test]
fn list_goes_by_the_order_of_creation() {
    let mut manager = under("/vol");
    for name in ["zeta", "alpha", "mid"] {
        manager.create_(name.to_string(), None, StringMap::new()).unwrap();
    }
    assert_eq!(names_of(&manager), vec!["zeta", "alpha", "mid"]);
    assert_eq!(manager.names(), vec!["zeta", "alpha", "mid"]);
    manager.remove_("alpha", true, &idle()).unwrap();
    assert_eq!(names_of(&manager), vec!["zeta", "mid"]);
}

#[test]
fn every_record_sits_under_the_root() {
    let mut manager = under("/srv/volumes");
    for name in ["a", "b", "c"] {
        manager.create_(name.to_string(), None, StringMap::new()).unwrap();
    }
    manager.remove_("b", true, &idle()).unwrap();
    let patterns = vec![string_to_pattern(":/x").unwrap(), string_to_pattern("d:/y").unwrap()];
    manager.handle_container_volume(patterns, false).unwrap();
    assert_eq!(manager.len(), 4);
    for r in manager.list() {
        assert_eq!(r.mountpoint, format!("/srv/volumes/{}/_data", r.name));
        assert!(r.mountpoint.starts_with("/srv/volumes/"));
        assert!(r.mountpoint.ends_with("/_data"));
    }
}

#[test]
fn last_pending_write_always_carries_the_store() {
    let mut manager = under("/vol");
    let steps: [(&str, bool); 6] =
        [("a", true), ("b", true), ("a", false), ("c", true), ("b", false), ("c", false)];
    for (name, create) in steps {
        if create {
            manager.create_(name.to_string(), None, StringMap::new()).unwrap();
        } else {
            manager.remove_(name, true, &idle()).unwrap();
        }
        let stored = names_of(&manager);
        let actions = manager.take_actions();
        match actions.last() {
            Some(HostAction::WriteIndex { path, entries }) => {
                assert_eq!(path, "/vol/metadata.json");
                let written: Vec<String> = entries.iter().map(|e| e.0.clone()).collect();
                assert_eq!(written, stored);
                for (key, record) in entries {
                    assert_eq!(&record.name, key);
                    assert_eq!(record.mountpoint, manager_mountpoint("/vol", key));
                }
            }
            other => panic!("last action is {:?}", other.map(show)),
        }
    }
}

fn manager_mountpoint(root: &str, name: &str) -> String {
    format!("{}/{}/_data", root, name)
}

#[test]
fn loading_what_was_written_gives_the_store_back() {
    let mut manager = under("/vol");
    let mut opts = StringMap::new();
    opts.insert("k".to_string(), "v".to_string());
    manager.create_at("a".to_string(), None, opts, "t1".to_string()).unwrap();
    manager.create_at("b".to_string(), Some("x".to_string()), StringMap::new(), "t2".to_string()).unwrap();
    let mut actions = manager.take_actions();
    let entries = match actions.pop() {
        Some(HostAction::WriteIndex { entries, .. }) => entries,
        _ => panic!("no index was written"),
    };
    let loaded = VolumeManager::load("/vol".to_string(), entries);
    assert_eq!(names_of(&loaded), names_of(&manager));
    for name in ["a", "b"] {
        let x = loaded.inspect_(name).unwrap();
        let y = manager.inspect_(name).unwrap();
        assert_eq!(x.name, y.name);
        assert_eq!(x.driver, y.driver);
        assert_eq!(x.mountpoint, y.mountpoint);
        assert_eq!(x.created_at, y.created_at);
        assert_eq!(x.scope, y.scope);
        assert_eq!(x.options.len(), y.options.len());
        assert_eq!(x.options.get("k"), y.options.get("k"));
        assert_eq!(x.reference, y.reference);
    }
}

#[test]
fn load_keeps_the_later_of_two_entries_with_one_name() {
    let entries = vec![
        ("a".to_string(), record("a", "/vol/a/_data")),
        ("b".to_string(), record("b", "/vol/b/_data")),
        ("a".to_string(), record("a", "/elsewhere/a/_data")),
    ];
    let manager = VolumeManager::load("/vol".to_string(), entries);
    assert_eq!(manager.len(), 2);
    assert_eq!(manager.names(), vec!["a", "b"]);
    assert_eq!(manager.get_mountpoint_from_name("a").unwrap(), "/elsewhere/a/_data");
    assert_eq!(manager.get_mountpoint_from_name("b").unwrap(), "/vol/b/_data");
}

#[test]
fn load_takes_records_as_the_index_holds_them() {
    let mut odd = record("other-name", "/mnt/big/disk");
    odd.reference = vec!["c1".to_string()];
    let manager = VolumeManager::load("/vol".to_string(), vec![("key".to_string(), odd)]);
    let r = manager.inspect_("key").unwrap();
    assert_eq!(r.name, "other-name");
    assert_eq!(r.mountpoint, "/mnt/big/disk");
    assert_eq!(r.reference, vec!["c1".to_string()]);
    assert!(!manager.contains("other-name"));
}

#[test]
fn loaded_references_are_kept() {
    let mut r = record("a", "/vol/a/_data");
    r.reference = vec!["c1".to_string(), "c2".to_string()];
    let loaded = load_volume_container_reference(vec![("a".to_string(), r)]);
    assert_eq!(loaded.len(), 1);
    assert_eq!(loaded[0].0, "a");
    assert_eq!(loaded[0].1.reference, vec!["c1".to_string(), "c2".to_string()]);
}

#[test]
fn remove_of_an_unknown_name_is_not_found() {
    let mut manager = under("/vol");
    match manager.remove_("ghost", false, &idle()) {
        Err(VolumeError::NotFound(name)) => assert_eq!(name, "ghost"),
        other => panic!("unexpected {:?}", other),
    }
    assert!(matches!(manager.remove_("ghost", true, &idle()), Err(VolumeError::NotFound(_))));
    assert!(manager.take_actions().is_empty());
}

#[test]
fn remove_in_use() {
    let mut manager = under("/vol");
    manager.create_("v".to_string(), None, StringMap::new()).unwrap();
    manager.take_actions();
    let busy = RuntimeState {
        containers: vec![StateDir {
            name: "cX".to_string(),
            content: Some("{\"id\":\"cX\",\"mounts\":[\"v\"]}".to_string()),
        }],
        projects: vec![],
    };
    match manager.remove_("v", false, &busy) {
        Err(VolumeError::InUse(name)) => assert_eq!(name, "v"),
        other => panic!("unexpected {:?}", other),
    }
    assert!(manager.contains("v"));
    assert!(manager.take_actions().is_empty());

    manager.remove_("v", true, &busy).unwrap();
    assert!(!manager.contains("v"));
    assert_eq!(manager.len(), 0);
    let actions = manager.take_actions();
    assert_eq!(shown(&actions), vec!["rmdir /vol/v", "write /vol/metadata.json []"]);
}

#[test]
fn remove_of_an_unused_volume_needs_no_force() {
    let mut manager = under("/vol");
    manager.create_("a".to_string(), None, StringMap::new()).unwrap();
    manager.create_("b".to_string(), None, StringMap::new()).unwrap();
    manager.take_actions();
    let other = RuntimeState {
        containers: vec![StateDir { name: "c".to_string(), content: Some("uses b only".to_string()) }],
        projects: vec![],
    };
    manager.remove_("a", false, &other).unwrap();
    assert_eq!(manager.names(), vec!["b"]);
    assert_eq!(shown(&manager.take_actions()), vec!["rmdir /vol/a", "write /vol/metadata.json [b]"]);
    assert!(matches!(manager.remove_("b", false, &other), Err(VolumeError::InUse(_))));
}

#[test]
fn remove_of_a_mountpoint_without_parent_is_a_path_error() {
    let entries = vec![
        ("rootfs".to_string(), record("rootfs", "/")),
        ("blank".to_string(), record("blank", "")),
    ];
    let mut manager = VolumeManager::load("/vol".to_string(), entries);
    match manager.remove_("rootfs", true, &idle()) {
        Err(VolumeError::PathError(name)) => assert_eq!(name, "rootfs"),
        other => panic!("unexpected {:?}", other),
    }
    assert!(matches!(manager.remove_("blank", false, &idle()), Err(VolumeError::PathError(_))));
    assert_eq!(manager.len(), 2);
    assert!(manager.take_actions().is_empty());
}

#[test]
fn remove_goes_by_the_recorded_mountpoint() {
    let entries = vec![("big".to_string(), record("big", "/mnt/disk/big/_data"))];
    let mut manager = VolumeManager::load("/vol".to_string(), entries);
    manager.remove_("big", false, &idle()).unwrap();
    assert_eq!(
        shown(&manager.take_actions()),
        vec!["rmdir /mnt/disk/big", "write /vol/metadata.json []"]
    );
}

#[test]
fn prune() {
    let mut manager = under("/vol");
    for name in ["a", "b", "c"] {
        manager.create_(name.to_string(), None, StringMap::new()).unwrap();
    }
    manager.take_actions();
    let mut removed = manager.prune_(true, &idle()).unwrap();
    removed.sort();
    assert_eq!(removed, vec!["a", "b", "c"]);
    assert_eq!(manager.len(), 0);
    assert!(manager.list().is_empty());
    assert_eq!(
        shown(&manager.take_actions()),
        vec![
            "rmdir /vol/a",
            "write /vol/metadata.json [b,c]",
            "rmdir /vol/b",
            "write /vol/metadata.json [c]",
            "rmdir /vol/c",
            "write /vol/metadata.json []",
        ]
    );
}

#[test]
fn prune_stops_at_the_first_volume_in_use() {
    let mut manager = under("/vol");
    for name in ["one", "two", "three"] {
        manager.create_(name.to_string(), None, StringMap::new()).unwrap();
    }
    manager.take_actions();
    let busy = RuntimeState {
        containers: vec![],
        projects: vec![StateDir { name: "p".to_string(), content: Some("volumes: two".to_string()) }],
    };
    match manager.prune_(false, &busy) {
        Err(VolumeError::InUse(name)) => assert_eq!(name, "two"),
        other => panic!("unexpected {:?}", other),
    }
    assert_eq!(manager.names(), vec!["two", "three"]);
    assert_eq!(
        shown(&manager.take_actions()),
        vec!["rmdir /vol/one", "write /vol/metadata.json [two,three]"]
    );
    let removed = manager.prune_(true, &busy).unwrap();
    assert_eq!(removed, vec!["two", "three"]);
    assert_eq!(manager.len(), 0);
}

#[test]
fn standalone_auto_create_named() {
    let mut manager = under(ROOT);
    let patterns = vec![string_to_pattern("data:/srv").unwrap()];
    let (names, mounts) = manager.handle_container_volume(patterns, false).unwrap();
    assert!(manager.contains("data"));
    assert_eq!(names, vec!["data"]);
    assert_eq!(mounts.len(), 1);
    assert_eq!(mounts[0].host_path, "/var/lib/rkl/volumes/data/_data");
    assert_eq!(mounts[0].container_path, "/srv");
    assert!(!mounts[0].readonly);
    assert_plain(&mounts[0]);
    let r = manager.inspect_("data").unwrap();
    assert_eq!(r.driver, "local");
    assert_eq!(r.options.len(), 0);
    assert_eq!(
        shown(&manager.take_actions()),
        vec![
            "mkdir /var/lib/rkl/volumes/data/_data",
            "write /var/lib/rkl/volumes/metadata.json [data]",
        ]
    );
}

#[test]
fn compose_undefined() {
    let mut manager = under(ROOT);
    let patterns = vec![string_to_pattern("logs:/var/log:ro").unwrap()];
    match manager.handle_container_volume(patterns, true) {
        Err(VolumeError::UndefinedComposeVolume(name)) => assert_eq!(name, "logs"),
        other => panic!("unexpected {:?}", other.map(|r| r.0)),
    }
    assert_eq!(manager.len(), 0);
    assert!(manager.take_actions().is_empty());
}

#[test]
fn compose_uses_a_declared_volume() {
    let mut manager = under(ROOT);
    manager.create_("logs".to_string(), None, StringMap::new()).unwrap();
    manager.take_actions();
    let patterns = vec![string_to_pattern("logs:/var/log:ro").unwrap()];
    let (names, mounts) = manager.handle_container_volume(patterns, true).unwrap();
    assert_eq!(names, vec!["logs"]);
    assert_eq!(mounts[0].host_path, "/var/lib/rkl/volumes/logs/_data");
    assert_eq!(mounts[0].container_path, "/var/log");
    assert!(mounts[0].readonly);
    assert_plain(&mounts[0]);
    assert_eq!(manager.len(), 1);
    assert!(manager.take_actions().is_empty());
}

#[test]
fn bind_mount_passthrough() {
    for is_compose in [false, true] {
        let mut manager = under(ROOT);
        let patterns = vec![string_to_pattern("/opt/era:/mnt/run/tmp").unwrap()];
        let (names, mounts) = manager.handle_container_volume(patterns, is_compose).unwrap();
        assert_eq!(manager.len(), 0);
        assert!(manager.take_actions().is_empty());
        assert_eq!(names, vec!["/opt/era"]);
        assert_eq!(mounts.len(), 1);
        assert_eq!(mounts[0].host_path, "/opt/era");
        assert_eq!(mounts[0].container_path, "/mnt/run/tmp");
        assert!(!mounts[0].readonly);
        assert_plain(&mounts[0]);
    }
}

#[test]
fn anonymous() {
    for is_compose in [false, true] {
        let mut manager = under(ROOT);
        let patterns = vec![string_to_pattern(":/cache").unwrap()];
        let (names, mounts) = manager.handle_container_volume(patterns, is_compose).unwrap();
        assert_eq!(manager.len(), 1);
        let stored = manager.names();
        assert_eq!(stored[0].len(), 64);
        assert!(is_lower_hex(&stored[0]));
        assert_eq!(names, stored);
        assert_eq!(mounts[0].host_path, format!("/var/lib/rkl/volumes/{}/_data", stored[0]));
        assert_eq!(mounts[0].container_path, "/cache");
        assert!(!mounts[0].readonly);
        assert_plain(&mounts[0]);
        assert_eq!(
            shown(&manager.take_actions()),
            vec![
                format!("mkdir /var/lib/rkl/volumes/{}/_data", stored[0]),
                format!("write /var/lib/rkl/volumes/metadata.json [{}]", stored[0]),
            ]
        );
    }
}

#[test]
fn batch_keeps_the_order_of_its_patterns() {
    let mut manager = under("/vol");
    manager.create_("known".to_string(), None, StringMap::new()).unwrap();
    manager.take_actions();
    let texts = ["/host/a:/a", "known:/b:ro", "fresh:/c", ":/d", "fresh:/e:ro", "/host/f:/f:ro"];
    let patterns = texts.iter().map(|t| string_to_pattern(t).unwrap()).collect();
    let (names, mounts) = manager.handle_container_volume(patterns, false).unwrap();
    assert_eq!(names.len(), 6);
    assert_eq!(mounts.len(), 6);
    assert_eq!(names[0], "/host/a");
    assert_eq!(names[1], "known");
    assert_eq!(names[2], "fresh");
    assert_eq!(names[3].len(), 64);
    assert_eq!(names[4], "fresh");
    assert_eq!(names[5], "/host/f");
    let containers: Vec<&str> = mounts.iter().map(|m| m.container_path.as_str()).collect();
    assert_eq!(containers, vec!["/a", "/b", "/c", "/d", "/e", "/f"]);
    let flags: Vec<bool> = mounts.iter().map(|m| m.readonly).collect();
    assert_eq!(flags, vec![false, true, false, false, true, true]);
    assert_eq!(mounts[0].host_path, "/host/a");
    assert_eq!(mounts[1].host_path, "/vol/known/_data");
    assert_eq!(mounts[2].host_path, "/vol/fresh/_data");
    assert_eq!(mounts[3].host_path, format!("/vol/{}/_data", names[3]));
    assert_eq!(mounts[4].host_path, "/vol/fresh/_data");
    assert_eq!(mounts[5].host_path, "/host/f");
    assert_eq!(manager.names(), vec!["known".to_string(), "fresh".to_string(), names[3].clone()]);
    assert_eq!(
        shown(&manager.take_actions()),
        vec![
            "mkdir /vol/fresh/_data".to_string(),
            "write /vol/metadata.json [known,fresh]".to_string(),
            format!("mkdir /vol/{}/_data", names[3]),
            format!("write /vol/metadata.json [known,fresh,{}]", names[3]),
        ]
    );
}

#[test]
fn failed_batch_keeps_what_it_created() {
    let mut manager = under("/vol");
    let texts = [":/a", "/host:/b", "missing:/c", ":/d"];
    let patterns = texts.iter().map(|t| string_to_pattern(t).unwrap()).collect();
    match manager.handle_container_volume(patterns, true) {
        Err(VolumeError::UndefinedComposeVolume(name)) => assert_eq!(name, "missing"),
        other => panic!("unexpected {:?}", other.map(|r| r.0)),
    }
    assert_eq!(manager.len(), 1);
    let stored = manager.names();
    assert_eq!(stored[0].len(), 64);
    assert_eq!(
        shown(&manager.take_actions()),
        vec![
            format!("mkdir /vol/{}/_data", stored[0]),
            format!("write /vol/metadata.json [{}]", stored[0]),
        ]
    );
}

#[test]
fn empty_batch_resolves_to_nothing() {
    let mut manager = under("/vol");
    let (names, mounts) = manager.handle_container_volume(vec![], true).unwrap();
    assert!(names.is_empty());
    assert!(mounts.is_empty());
    assert_eq!(manager.len(), 0);
}

#[test]
fn resolve_pattern_with_given_name_and_time() {
    let mut manager = under("/vol");
    let pattern = string_to_pattern(":/cache:ro").unwrap();
    let name = "ab".repeat(32);
    let (resolved, mount) =
        manager.resolve_pattern(&pattern, false, name.clone(), "then".to_string()).unwrap();
    assert_eq!(resolved, name);
    assert_eq!(mount.host_path, format!("/vol/{}/_data", name));
    assert_eq!(mount.container_path, "/cache");
    assert!(mount.readonly);
    assert_plain(&mount);
    let r = manager.inspect_(&name).unwrap();
    assert_eq!(r.created_at, "then");
    assert_eq!(r.driver, "local");
}

#[test]
fn anonymous_name_that_is_taken_is_a_collision() {
    let mut manager = under("/vol");
    let name = "cd".repeat(32);
    manager.create_(name.clone(), None, StringMap::new()).unwrap();
    manager.take_actions();
    let pattern = string_to_pattern(":/cache").unwrap();
    let r = manager.resolve_pattern(&pattern, false, name.clone(), "t".to_string());
    assert!(matches!(r, Err(VolumeError::NameCollision)));
    assert_eq!(manager.len(), 1);
    assert!(manager.take_actions().is_empty());
}

#[test]
fn named_pattern_ignores_the_drawn_name() {
    let mut manager = under("/vol");
    let pattern = string_to_pattern("data:/srv").unwrap();
    let (name, mount) =
        manager.resolve_pattern(&pattern, false, "unused".to_string(), "t".to_string()).unwrap();
    assert_eq!(name, "data");
    assert_eq!(mount.host_path, "/vol/data/_data");
    assert!(!manager.contains("unused"));
    let undefined = string_to_pattern("other:/srv").unwrap();
    let r = manager.resolve_pattern(&undefined, true, "unused".to_string(), "t".to_string());
    assert!(matches!(r, Err(VolumeError::UndefinedComposeVolume(_))));
}

#[test]
fn draws_are_judged_by_the_store_and_the_count() {
    let mut manager = under("/vol");
    manager.create_("taken".to_string(), None, StringMap::new()).unwrap();
    assert_eq!(NAME_ATTEMPTS, 8);
    assert_eq!(manager.judge_draw("free", 1), Draw::Accept);
    assert_eq!(manager.judge_draw("free", 8), Draw::Accept);
    assert_eq!(manager.judge_draw("taken", 1), Draw::Retry);
    assert_eq!(manager.judge_draw("taken", 7), Draw::Retry);
    assert_eq!(manager.judge_draw("taken", 8), Draw::GiveUp);
    assert_eq!(manager.judge_draw("taken", 9), Draw::GiveUp);
}

#[test]
fn fresh_name_is_unused_and_well_formed() {
    let mut manager = under("/vol");
    for _ in 0..20 {
        let name = manager.fresh_anonymous_name();
        assert_eq!(name.len(), 64);
        assert!(is_lower_hex(&name));
        assert!(!manager.contains(&name));
        manager.create_(name, None, StringMap::new()).unwrap();
    }
    assert_eq!(manager.len(), 20);
}

#[test]
fn error_messages() {
    assert_eq!(VolumeError::NotFound("v".to_string()).message(), "volume v not found");
    assert_eq!(VolumeError::AlreadyExists("v".to_string()).message(), "volume v already exists");
    assert_eq!(VolumeError::InUse("v".to_string()).message(), "volume v is in use");
    assert_eq!(
        VolumeError::UndefinedComposeVolume("v".to_string()).message(),
        "v is not defined in compose spec"
    );
    assert_eq!(
        VolumeError::PathError("v".to_string()).message(),
        "invalid mountpoint path for volume v"
    );
    assert_eq!(
        VolumeError::NameCollision.message(),
        "no unused name for an anonymous volume"
    );
}

#[test]
fn remove_with_a_given_directory() {
    let mut manager = under("/vol");
    manager.create_("a".to_string(), None, StringMap::new()).unwrap();
    manager.create_("b".to_string(), None, StringMap::new()).unwrap();
    manager.take_actions();
    manager.remove_with_dir("a", false, &idle(), Some("/some/where".to_string())).unwrap();
    assert_eq!(manager.names(), vec!["b"]);
    assert_eq!(
        shown(&manager.take_actions()),
        vec!["rmdir /some/where", "write /vol/metadata.json [b]"]
    );
}

#[test]
fn remove_without_a_directory_is_a_path_error() {
    let mut manager = under("/vol");
    manager.create_("a".to_string(), None, StringMap::new()).unwrap();
    manager.take_actions();
    match manager.remove_with_dir("a", true, &idle(), None) {
        Err(VolumeError::PathError(name)) => assert_eq!(name, "a"),
        other => panic!("unexpected {:?}", other),
    }
    assert_eq!(manager.len(), 1);
    assert!(manager.take_actions().is_empty());
}

#[test]
fn removal_failures_come_in_order() {
    let mut manager = under("/vol");
    manager.create_("a".to_string(), None, StringMap::new()).unwrap();
    manager.take_actions();
    let busy = RuntimeState {
        containers: vec![StateDir { name: "c".to_string(), content: Some("a".to_string()) }],
        projects: vec![],
    };
    assert!(matches!(
        manager.remove_with_dir("ghost", false, &busy, None),
        Err(VolumeError::NotFound(_))
    ));
    assert!(matches!(
        manager.remove_with_dir("a", false, &busy, None),
        Err(VolumeError::InUse(_))
    ));
    assert!(matches!(
        manager.remove_with_dir("a", true, &busy, None),
        Err(VolumeError::PathError(_))
    ));
    assert!(manager.remove_with_dir("a", true, &busy, Some("/vol/a".to_string())).is_ok());
}
