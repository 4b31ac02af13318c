use lxcidman::event::{AppEvent, FileSystemChangeKind};
use lxcidman::findings::FindingKind;
use lxcidman::identity::Identities;
use lxcidman::keys::{Key, KeyAction, KeyCode, LoggerKey};
use lxcidman::metadata::{Metadata, MetadataError};
use lxcidman::monitor::{ChangeKind, FileEventHandler, OwnershipWatch};
use lxcidman::rootfs::RootfsInfo;
use lxcidman::state::State;
use lxcidman::subid::{IdMapEntry, SubID, SubIDError};
use lxcidman::transitions::{path_is_under, Outcome, StateError, Unloaded};

fn metadata() -> Metadata {
    Metadata::collect(Some("/etc/pve/lxc".to_string()), false, true).unwrap()
}

fn names(state: &State) -> Vec<&str> {
    state.lxc_configs.keys().map(|k| k.as_str()).collect()
}

fn info(path: &str, uid: u32, gid: u32) -> RootfsInfo {
    RootfsInfo { path: path.to_string(), uid, gid }
}

#[test]
fn metadata_takes_the_named_directory_or_the_default() {
    let m = Metadata::collect(Some("/tmp/lxc".to_string()), true, false).unwrap();
    assert_eq!(m.lxc_config_dir, "/tmp/lxc");
    assert!(!m.is_pve);
    let m = Metadata::collect(None, true, true).unwrap();
    assert_eq!(m.lxc_config_dir, "/etc/pve/lxc");
    assert!(m.is_pve);
    assert_eq!(Metadata::collect(None, false, true).unwrap_err(), MetadataError::ConfigDirNotFound);
}

#[test]
fn configurations_are_kept_in_the_order_of_their_names() {
    let mut state = State::default();
    assert_eq!(state.load_container_id_map("/etc/pve/lxc/200.conf", "arch: amd64"), Ok(None));
    assert_eq!(
        state.load_container_id_map("/etc/pve/lxc/100.conf", "rootfs: local-zfs:subvol-100-disk-0,size=4G"),
        Ok(Some("local-zfs:subvol-100-disk-0,size=4G".to_string()))
    );
    assert_eq!(state.load_container_id_map("150.conf", ""), Ok(None));
    assert_eq!(names(&state), vec!["100.conf", "150.conf", "200.conf"]);

    // A second load of a name takes the place of the first.
    assert_eq!(state.load_container_id_map("/elsewhere/150.conf", "cores: 2"), Ok(None));
    assert_eq!(names(&state), vec!["100.conf", "150.conf", "200.conf"]);
    assert_eq!(state.lxc_configs["150.conf"].to_string(), "cores: 2");
    assert_eq!(state.lxc_configs["200.conf"].to_string(), "arch: amd64");

    assert_eq!(state.load_container_id_map("/etc/pve/lxc/", "x"), Err(StateError::InvalidFileName));
    assert_eq!(state.load_container_id_map("", "x"), Err(StateError::InvalidFileName));
    assert_eq!(names(&state), vec!["100.conf", "150.conf", "200.conf"]);
}

#[test]
fn names_are_ordered_as_texts() {
    let mut state = State::default();
    for name in ["9.conf", "10.conf", "100.conf", "b", "B", "a", "é", "z", "10"] {
        state.load_container_id_map(name, "").unwrap();
    }
    assert_eq!(names(&state), vec!["10", "10.conf", "100.conf", "9.conf", "B", "a", "b", "z", "é"]);
}

#[test]
fn unloading_forgets_configuration_and_root_filesystem() {
    let mut state = State::default();
    state.load_container_id_map("/etc/pve/lxc/100.conf", "rootfs: local-zfs:a").unwrap();
    state.load_container_id_map("/etc/pve/lxc/101.conf", "rootfs: local-zfs:b").unwrap();
    state.load_container_id_map("/etc/pve/lxc/102.conf", "arch: amd64").unwrap();
    state.update_rootfs("local-zfs:a", info("/a", 1, 2));
    state.update_rootfs("local-zfs:z", info("/z", 1, 2));

    assert_eq!(state.unload_container_id_map("/etc/pve/lxc/103.conf"), Ok(Unloaded::NotLoaded));
    assert_eq!(names(&state), vec!["100.conf", "101.conf", "102.conf"]);
    assert_eq!(state.unload_container_id_map("/etc/pve/lxc/101.conf"), Ok(Unloaded::RemovedWithoutRootfs));
    assert_eq!(state.unload_container_id_map("/etc/pve/lxc/100.conf"), Ok(Unloaded::Removed));
    assert_eq!(state.unload_container_id_map("/etc/pve/lxc/102.conf"), Ok(Unloaded::Removed));
    assert_eq!(state.unload_container_id_map("/etc/pve/lxc/"), Err(StateError::InvalidFileName));
    assert!(state.lxc_configs.is_empty());
    assert_eq!(state.rootfs_info.keys().collect::<Vec<_>>(), vec!["local-zfs:z"]);
    // Removal of what is gone is no error.
    assert_eq!(state.unload_container_id_map("/etc/pve/lxc/100.conf"), Ok(Unloaded::NotLoaded));
}

#[test]
fn grants_are_replaced_wholesale_or_not_at_all() {
    let mut state = State::default();
    assert_eq!(state.load_subid("root:100000:65536\n\n  alice:165536:65536  \n", SubID::UID), Ok(()));
    assert_eq!(state.load_subid("root:100000:65536", SubID::GID), Ok(()));
    assert_eq!(state.host_mapping.subuid.len(), 2);
    assert_eq!(state.host_mapping.subuid[1].host_user_id, "alice");
    assert_eq!(state.host_mapping.subuid[1].host_sub_id, 165536);
    assert_eq!(state.host_mapping.subuid[1].host_sub_id_count, 65536);
    assert_eq!(state.host_mapping.subgid.len(), 1);

    assert_eq!(state.load_subid("bob:1:1\nroot:x:65536", SubID::UID), Err(SubIDError::InvalidSubID));
    assert_eq!(state.host_mapping.subuid.len(), 2);
    assert_eq!(state.host_mapping.subuid[0].host_user_id, "root");

    assert_eq!(state.load_subid("", SubID::UID), Ok(()));
    assert!(state.host_mapping.subuid.is_empty());
    assert_eq!(state.host_mapping.subgid.len(), 1);
}

#[test]
fn each_error_of_a_line_of_grants() {
    let mut state = State::default();
    assert_eq!(state.load_subid("root", SubID::UID), Err(SubIDError::MissingSubID));
    assert_eq!(state.load_subid("root:", SubID::UID), Err(SubIDError::InvalidSubID));
    assert_eq!(state.load_subid("root:-1:5", SubID::UID), Err(SubIDError::InvalidSubID));
    assert_eq!(state.load_subid("root:1", SubID::UID), Err(SubIDError::MissingCount));
    assert_eq!(state.load_subid("root:1:4294967296", SubID::UID), Err(SubIDError::InvalidCount));
    assert_eq!(state.load_subid("root:1: 5", SubID::UID), Err(SubIDError::InvalidCount));
    assert_eq!(state.load_subid("root:1:4294967295:more", SubID::UID), Ok(()));
    assert_eq!(state.host_mapping.subuid[0].host_sub_id_count, 4294967295);
    assert_eq!(state.load_subid(":+7:007", SubID::UID), Ok(()));
    assert_eq!(state.host_mapping.subuid[0].host_user_id, "");
    assert_eq!(state.host_mapping.subuid[0].host_sub_id, 7);
    assert_eq!(state.host_mapping.subuid[0].host_sub_id_count, 7);
}

#[test]
fn changes_go_where_their_paths_say() {
    let m = metadata();
    let mut state = State::default();
    let update = |path: &str, content: &str| FileSystemChangeKind::Update(path.to_string(), content.to_string());

    assert_eq!(state.handle_change(&m, update("/etc/subuid", "root:1:2")), Ok(Outcome::HostUpdated(SubID::UID)));
    assert_eq!(state.handle_change(&m, update("/etc/subgid", "root:3:4\nwheel:5:6")), Ok(Outcome::HostUpdated(SubID::GID)));
    assert_eq!(state.host_mapping.subuid.len(), 1);
    assert_eq!(state.host_mapping.subgid.len(), 2);
    assert_eq!(
        state.handle_change(&m, update("/etc/subgid", "root:3")),
        Err(StateError::SubID(SubIDError::MissingCount))
    );
    assert_eq!(state.host_mapping.subgid.len(), 2);

    assert_eq!(
        state.handle_change(&m, update("/etc/pve/lxc/100.conf", "rootfs: local-zfs:a")),
        Ok(Outcome::Loaded(Some("local-zfs:a".to_string())))
    );
    assert_eq!(state.handle_change(&m, update("/etc/pve/lxc/sub/101.conf", "")), Ok(Outcome::Loaded(None)));
    assert_eq!(state.handle_change(&m, update("/etc/pve/lxc/", "")), Err(StateError::InvalidFileName));
    assert_eq!(state.handle_change(&m, update("/etc/pve/lxcx/102.conf", "")), Ok(Outcome::Ignored));
    assert_eq!(state.handle_change(&m, update("/etc/passwd", "")), Ok(Outcome::Ignored));
    assert_eq!(names(&state), vec!["100.conf", "101.conf"]);

    assert_eq!(
        state.handle_change(&m, FileSystemChangeKind::UpdateDir("local-zfs:a".to_string(), info("/a", 5, 6))),
        Ok(Outcome::RootfsUpdated)
    );
    assert_eq!(state.rootfs_info["local-zfs:a"].uid, 5);
    assert_eq!(
        state.handle_change(&m, FileSystemChangeKind::UpdateDir("local-zfs:a".to_string(), info("/a", 7, 6))),
        Ok(Outcome::RootfsUpdated)
    );
    assert_eq!(state.rootfs_info.len(), 1);
    assert_eq!(state.rootfs_info["local-zfs:a"].uid, 7);

    assert_eq!(
        state.handle_change(&m, FileSystemChangeKind::Remove("/etc/pve/lxc/100.conf".to_string())),
        Ok(Outcome::Unloaded(Unloaded::Removed))
    );
    assert_eq!(
        state.handle_change(&m, FileSystemChangeKind::Remove("/etc/subuid".to_string())),
        Ok(Outcome::Unloaded(Unloaded::NotLoaded))
    );
    assert!(state.rootfs_info.is_empty());
    assert_eq!(names(&state), vec!["101.conf"]);
}

#[test]
fn removal_and_update_in_either_order() {
    let m = metadata();
    let path = "/etc/pve/lxc/100.conf";
    let mut first = State::default();
    first.handle_change(&m, FileSystemChangeKind::Remove(path.to_string())).unwrap();
    first.handle_change(&m, FileSystemChangeKind::Update(path.to_string(), "unprivileged: 1".to_string())).unwrap();
    assert_eq!(names(&first), vec!["100.conf"]);
    let mut second = State::default();
    second.handle_change(&m, FileSystemChangeKind::Update(path.to_string(), "unprivileged: 1".to_string())).unwrap();
    second.handle_change(&m, FileSystemChangeKind::Remove(path.to_string())).unwrap();
    assert!(names(&second).is_empty());
    second.evaluate_findings(&m, &Identities::new());
    assert_eq!(second.findings.len(), 1);
}

#[test]
fn paths_under_a_directory() {
    assert!(path_is_under("/etc/pve/lxc/100.conf", "/etc/pve/lxc"));
    assert!(path_is_under("/etc/pve/lxc/100.conf", "/etc/pve/lxc/"));
    assert!(path_is_under("/etc/pve/lxc", "/etc/pve/lxc"));
    assert!(path_is_under("/etc/pve/lxc/a/b", "/etc/pve/lxc"));
    assert!(path_is_under("anything", ""));
    assert!(!path_is_under("/etc/pve/lxc2/100.conf", "/etc/pve/lxc"));
    assert!(!path_is_under("/etc/pve", "/etc/pve/lxc"));
    assert!(!path_is_under("", "/etc"));
}

#[test]
fn file_events_are_sorted_into_reads_and_removals() {
    let paths = vec![
        "/etc/pve/lxc/100.conf".to_string(),
        "/etc/pve/lxc/notes.txt".to_string(),
        "/etc/subuid".to_string(),
    ];
    let mut handler = FileEventHandler::new(Vec::new(), vec!["/etc/subgid".to_string()]);

    handler.handle_event(ChangeKind::CreateFile, &paths);
    handler.handle_event(ChangeKind::Other, &paths);
    handler.handle_event(ChangeKind::ModifyData, &paths[2..].to_vec());
    assert_eq!(
        handler.take_file_requests(),
        vec!["/etc/subgid", "/etc/pve/lxc/100.conf", "/etc/subuid", "/etc/subuid"]
    );
    assert!(handler.take_file_requests().is_empty());
    assert!(handler.take_app_events().is_empty());

    handler.handle_event(ChangeKind::RemoveFile, &paths);
    handler.handle_event(ChangeKind::ModifyName, &paths[..2].to_vec());
    let removed: Vec<String> = handler
        .take_app_events()
        .into_iter()
        .map(|event| match event {
            AppEvent::FileSystemChanged(FileSystemChangeKind::Remove(path)) => path,
            other => panic!("{other:?}"),
        })
        .collect();
    assert_eq!(removed, vec!["/etc/pve/lxc/100.conf", "/etc/subuid", "/etc/pve/lxc/100.conf"]);
    assert!(handler.take_file_requests().is_empty());
}

#[test]
fn owners_are_reported_when_they_change() {
    let mut watch = OwnershipWatch::new();
    assert_eq!(watch.len(), 0);
    let change = watch.watch_rootfs("local-zfs:a", info("/a", 100000, 100000));
    assert!(matches!(change, FileSystemChangeKind::UpdateDir(d, i) if d == "local-zfs:a" && i.uid == 100000));
    watch.watch_rootfs("local-zfs:b", info("/b", 0, 0));
    assert_eq!(watch.len(), 2);
    assert_eq!(watch.path(0), Some("/a"));
    assert_eq!(watch.path(1), Some("/b"));
    assert_eq!(watch.path(2), None);
    assert!(watch.observe(2, 1, 1).is_none());

    assert!(watch.observe(0, 100000, 100000).is_none());
    let change = watch.observe(0, 100000, 0).unwrap();
    assert!(
        matches!(change, FileSystemChangeKind::UpdateDir(d, i) if d == "local-zfs:a" && i.path == "/a" && i.uid == 100000 && i.gid == 0)
    );
    assert!(watch.observe(0, 100000, 0).is_none());
    assert!(watch.observe(1, 1, 0).is_some());
    assert!(watch.observe(1, 1, 0).is_none());

    // The same path again takes the place of the first registration.
    watch.watch_rootfs("local-zfs:a2", info("/a", 5, 5));
    assert_eq!(watch.len(), 2);
    assert!(watch.observe(0, 5, 5).is_none());
    let change = watch.observe(0, 6, 5).unwrap();
    assert!(matches!(change, FileSystemChangeKind::UpdateDir(d, _) if d == "local-zfs:a2"));
}

fn key(code: KeyCode) -> Key {
    Key { code, control: false }
}

#[test]
fn keys_move_the_selection() {
    let mut state = State::default();
    for code in [KeyCode::Up, KeyCode::Down, KeyCode::PageUp, KeyCode::PageDown] {
        assert_eq!(state.handle_key_event(key(code)), KeyAction::Nothing);
        assert_eq!(state.selected_finding, None);
    }
    state.load_container_id_map("100.conf", "unprivileged: 1").unwrap();
    state.evaluate_findings(&metadata(), &Identities::new());
    assert_eq!(state.findings.len(), 3);

    state.handle_key_event(key(KeyCode::Down));
    assert_eq!(state.selected_finding, Some(0));
    state.handle_key_event(key(KeyCode::Down));
    state.handle_key_event(key(KeyCode::Down));
    assert_eq!(state.selected_finding, Some(2));
    state.handle_key_event(key(KeyCode::Down));
    assert_eq!(state.selected_finding, None);
    state.handle_key_event(key(KeyCode::Up));
    assert_eq!(state.selected_finding, Some(2));
    state.handle_key_event(key(KeyCode::PageUp));
    assert_eq!(state.selected_finding, Some(0));
    state.handle_key_event(key(KeyCode::Up));
    assert_eq!(state.selected_finding, None);
    state.handle_key_event(key(KeyCode::PageDown));
    assert_eq!(state.selected_finding, Some(2));
    assert_eq!(state.selected_finding().unwrap().kind, FindingKind::Good);
    state.selected_finding = Some(7);
    assert!(state.selected_finding().is_none());
    state.handle_key_event(key(KeyCode::Down));
    assert_eq!(state.selected_finding, None);
}

#[test]
fn keys_open_and_close_pages() {
    let mut state = State::default();
    state.load_container_id_map("100.conf", "unprivileged: 1").unwrap();
    state.evaluate_findings(&metadata(), &Identities::new());

    // No fix without a bad finding selected.
    state.handle_key_event(key(KeyCode::Char('f')));
    assert!(!state.show_fix_popup);
    state.selected_finding = Some(2);
    state.handle_key_event(key(KeyCode::Char('f')));
    assert!(!state.show_fix_popup);
    state.selected_finding = Some(0);
    state.handle_key_event(key(KeyCode::Char('f')));
    assert!(state.show_fix_popup);
    // Nothing but escape does anything now.
    assert_eq!(state.handle_key_event(key(KeyCode::Down)), KeyAction::Nothing);
    assert_eq!(state.handle_key_event(key(KeyCode::Char('l'))), KeyAction::Nothing);
    assert_eq!(state.selected_finding, Some(0));
    assert!(!state.show_logs_page);
    assert_eq!(state.handle_key_event(key(KeyCode::Esc)), KeyAction::Nothing);
    assert!(!state.show_fix_popup);

    state.handle_key_event(key(KeyCode::Char('s')));
    assert!(state.show_settings_page);
    state.handle_key_event(key(KeyCode::Char('s')));
    state.handle_key_event(key(KeyCode::Esc));
    assert!(!state.show_settings_page);

    state.handle_key_event(key(KeyCode::Char('l')));
    assert!(state.show_logs_page);
    assert_eq!(state.handle_key_event(key(KeyCode::Char(' '))), KeyAction::Logger(LoggerKey::Space));
    assert_eq!(state.handle_key_event(key(KeyCode::Char('q'))), KeyAction::Logger(LoggerKey::Escape));
    assert_eq!(state.handle_key_event(key(KeyCode::Char('+'))), KeyAction::Logger(LoggerKey::Plus));
    assert_eq!(state.handle_key_event(key(KeyCode::Char('-'))), KeyAction::Logger(LoggerKey::Minus));
    assert_eq!(state.handle_key_event(key(KeyCode::Char('h'))), KeyAction::Logger(LoggerKey::Hide));
    assert_eq!(state.handle_key_event(key(KeyCode::Char('f'))), KeyAction::Logger(LoggerKey::Focus));
    assert_eq!(state.handle_key_event(key(KeyCode::PageUp)), KeyAction::Logger(LoggerKey::PrevPage));
    assert_eq!(state.handle_key_event(key(KeyCode::PageDown)), KeyAction::Logger(LoggerKey::NextPage));
    assert_eq!(state.handle_key_event(key(KeyCode::Up)), KeyAction::Logger(LoggerKey::Up));
    assert_eq!(state.handle_key_event(key(KeyCode::Down)), KeyAction::Logger(LoggerKey::Down));
    assert_eq!(state.handle_key_event(key(KeyCode::Left)), KeyAction::Logger(LoggerKey::Left));
    assert_eq!(state.handle_key_event(key(KeyCode::Right)), KeyAction::Logger(LoggerKey::Right));
    assert_eq!(state.handle_key_event(key(KeyCode::Char('x'))), KeyAction::Nothing);
    assert_eq!(state.selected_finding, Some(0));
    assert_eq!(state.handle_key_event(key(KeyCode::Esc)), KeyAction::Nothing);
    assert!(!state.show_logs_page);
}

#[test]
fn keys_quit() {
    let mut state = State::default();
    assert_eq!(state.handle_key_event(key(KeyCode::Esc)), KeyAction::Quit);
    assert_eq!(state.handle_key_event(Key { code: KeyCode::Char('c'), control: true }), KeyAction::Quit);
    assert_eq!(state.handle_key_event(Key { code: KeyCode::Char('C'), control: true }), KeyAction::Quit);
    assert_eq!(state.handle_key_event(key(KeyCode::Char('c'))), KeyAction::Nothing);
    assert_eq!(state.handle_key_event(key(KeyCode::Other)), KeyAction::Nothing);
    assert!(state.is_running);
    state.quit();
    assert!(!state.is_running);
}

#[test]
fn entries_can_be_copied() {
    let entry = IdMapEntry { host_user_id: "root".into(), host_sub_id: 1, host_sub_id_count: 2 };
    let copy = entry.clone();
    assert_eq!(copy.host_user_id, "root");
    assert_eq!((copy.host_sub_id, copy.host_sub_id_count), (1, 2));
}
