use lxcidman::findings::{Finding, FindingKind};
use lxcidman::identity::Identities;
use lxcidman::lxc::config::Config;
use lxcidman::metadata::Metadata;
use lxcidman::rootfs::RootfsInfo;
use lxcidman::state::State;
use lxcidman::subid::{HostMapping, IdMapEntry, SubID};

fn pve() -> Metadata {
    Metadata { lxc_config_dir: "/etc/pve/lxc".to_string(), is_pve: true }
}

fn not_pve() -> Metadata {
    Metadata { lxc_config_dir: "/tmp/lxc".to_string(), is_pve: false }
}

fn entry(name: &str, start: u32, count: u32) -> IdMapEntry {
    IdMapEntry { host_user_id: name.into(), host_sub_id: start, host_sub_id_count: count }
}

fn root_ids() -> Identities {
    let mut ids = Identities::new();
    ids.record(SubID::UID, "0", 0);
    ids.record(SubID::GID, "0", 0);
    ids.record(SubID::UID, "root", 0);
    ids.record(SubID::GID, "root", 0);
    ids
}

fn messages(findings: &[Finding]) -> Vec<&'static str> {
    findings.iter().map(|f| f.message).collect()
}

fn bad(findings: &[Finding]) -> Vec<&Finding> {
    findings.iter().filter(|f| f.kind == FindingKind::Bad).collect()
}

#[test]
fn test_duplicate_username_not_allowed_in_subid() {
    let mut state = State {
        host_mapping: HostMapping {
            subuid: Vec::new(),
            subgid: Vec::new(),
        },
        ..State::default()
    };
    let ids = Identities::new();

    state.evaluate_findings(&pve(), &ids);

    assert_eq!(state.findings.len(), 1);
    assert_eq!(state.findings[0].kind, FindingKind::Good);

    state.host_mapping.subuid = vec![
        IdMapEntry {
            host_user_id: "1000".into(),
            host_sub_id: 10000,
            host_sub_id_count: 65000,
        },
        IdMapEntry {
            host_user_id: "1000".into(),
            host_sub_id: 10000,
            host_sub_id_count: 65000,
        },
    ];

    state.evaluate_findings(&pve(), &ids);

    assert_eq!(state.findings.len(), 1);
    assert_eq!(state.findings[0].kind, FindingKind::Bad);
    assert_eq!(
        state.findings[0].message,
        "Cannot have multiple entries for the same user"
    );
    assert_eq!(
        state.findings[0].host_mapping_highlights,
        vec![("1000".into(), SubID::UID)]
    );
    assert_eq!(state.findings[0].lxc_config_mapping_highlights, Vec::new());

    state.host_mapping.subgid = state.host_mapping.subuid;
    state.host_mapping.subuid = Vec::new();

    state.evaluate_findings(&pve(), &ids);

    assert_eq!(state.findings.len(), 1);
    assert_eq!(state.findings[0].kind, FindingKind::Bad);
    assert_eq!(
        state.findings[0].message,
        "Cannot have multiple entries for the same group"
    );
    assert_eq!(
        state.findings[0].host_mapping_highlights,
        vec![("1000".into(), SubID::GID)]
    );
    assert_eq!(state.findings[0].lxc_config_mapping_highlights, Vec::new());
}

#[test]
fn test_subid_out_of_range() {
    let config = r#"
lxc.idmap = u 0 10000 65000
lxc.idmap = g 0 10000 65000
unprivileged: 1
"#;
    let config2 = r#"
lxc.idmap = u 0 10000 65001
lxc.idmap = g 0 10000 65001
unprivileged: 1
"#;
    let mut state = State {
        host_mapping: HostMapping {
            subuid: vec![IdMapEntry {
                host_user_id: "0".into(),
                host_sub_id: 10000,
                host_sub_id_count: 65000,
            }],
            subgid: vec![IdMapEntry {
                host_user_id: "0".into(),
                host_sub_id: 10000,
                host_sub_id_count: 65000,
            }],
        },
        lxc_configs: [("test.conf".into(), Config::from_str(config))].into_iter().collect(),
        ..State::default()
    };
    let ids = root_ids();

    state.evaluate_findings(&pve(), &ids);

    assert!(state.findings.iter().all(|f| f.kind == FindingKind::Good));

    state.lxc_configs = [("test.conf".into(), Config::from_str(config2))].into_iter().collect();

    state.evaluate_findings(&pve(), &ids);

    let findings = state
        .findings
        .iter()
        .filter(|f| f.kind == FindingKind::Bad)
        .collect::<Vec<_>>();

    assert_eq!(findings.len(), 2);
    assert_eq!(findings[0].kind, FindingKind::Bad);
    assert_eq!(
        findings[0].message,
        "LXC config's host sub uid range outside of host mapping range"
    );
    assert_eq!(findings[0].host_mapping_highlights, [("0".into(), SubID::UID)]);
    assert_eq!(
        findings[0].lxc_config_mapping_highlights,
        [("test.conf".into(), SubID::UID)]
    );
    assert_eq!(findings[1].kind, FindingKind::Bad);
    assert_eq!(
        findings[1].message,
        "LXC config's host sub gid range outside of host mapping range"
    );
    assert_eq!(findings[1].host_mapping_highlights, [("0".into(), SubID::GID)]);
    assert_eq!(
        findings[1].lxc_config_mapping_highlights,
        [("test.conf".into(), SubID::GID)]
    );
}

#[test]
fn three_grants_of_one_name_give_one_finding() {
    let mut state = State::default();
    state.host_mapping.subuid = vec![entry("a", 1, 1), entry("b", 2, 1), entry("b", 3, 1), entry("a", 4, 1), entry("a", 5, 1)];
    state.host_mapping.subgid = vec![entry("a", 1, 1)];
    state.evaluate_findings(&pve(), &Identities::new());
    assert_eq!(state.findings.len(), 2);
    assert_eq!(state.findings[0].host_mapping_highlights, vec![("b".to_string(), SubID::UID)]);
    assert_eq!(state.findings[1].host_mapping_highlights, vec![("a".to_string(), SubID::UID)]);
    assert!(state.findings.iter().all(|f| f.kind == FindingKind::Bad));
}

#[test]
fn distinct_names_give_the_baseline() {
    let mut state = State::default();
    state.host_mapping.subuid = vec![entry("a", 1, 1), entry("b", 2, 1)];
    state.host_mapping.subgid = vec![entry("a", 1, 1), entry("b", 2, 1)];
    state.evaluate_findings(&pve(), &Identities::new());
    assert_eq!(messages(&state.findings), vec!["No duplicate ids found in subuid/subgid mappings"]);
    assert_eq!(state.findings[0].kind, FindingKind::Good);
    assert!(state.findings[0].host_mapping_highlights.is_empty());

    state.evaluate_findings(&not_pve(), &Identities::new());
    assert!(state.findings.is_empty());
}

#[test]
fn duplicates_are_not_looked_for_off_proxmox() {
    let mut state = State::default();
    state.host_mapping.subuid = vec![entry("a", 1, 1), entry("a", 2, 1)];
    state.evaluate_findings(&not_pve(), &Identities::new());
    assert!(state.findings.is_empty());
}

#[test]
fn missing_idmaps_are_reported() {
    let mut state = State::default();
    state.lxc_configs = [
        ("100.conf".to_string(), Config::from_str("unprivileged: 1\nlxc.idmap: g 0 100000 65536")),
        ("101.conf".to_string(), Config::from_str("unprivileged: 1\nlxc.idmap: u 0 100000 65536")),
        ("102.conf".to_string(), Config::from_str("unprivileged: 1")),
        ("103.conf".to_string(), Config::from_str("unprivileged: 0")),
        ("104.conf".to_string(), Config::from_str("arch: amd64")),
    ]
    .into_iter()
    .collect();
    state.evaluate_findings(&pve(), &Identities::new());
    let found = bad(&state.findings);
    assert_eq!(
        found.iter().map(|f| f.message).collect::<Vec<_>>(),
        vec![
            "lxc.idmap for uid is not set in config",
            "lxc.idmap for gid is not set in config",
            "lxc.idmap for uid is not set in config",
            "lxc.idmap for gid is not set in config",
        ]
    );
    assert_eq!(found[0].lxc_config_mapping_highlights, vec![("100.conf".to_string(), SubID::UID)]);
    assert_eq!(found[1].lxc_config_mapping_highlights, vec![("101.conf".to_string(), SubID::GID)]);
    assert_eq!(found[2].lxc_config_mapping_highlights, vec![("102.conf".to_string(), SubID::UID)]);
    assert_eq!(found[3].lxc_config_mapping_highlights, vec![("102.conf".to_string(), SubID::GID)]);
    assert!(found.iter().all(|f| f.host_mapping_highlights.is_empty()));
    // The one good finding comes last.
    assert_eq!(state.findings.len(), 5);
    assert_eq!(state.findings[4].kind, FindingKind::Good);
}

#[test]
fn malformed_idmap_lines_are_passed_over() {
    let mut state = State::default();
    state.host_mapping.subuid = vec![entry("root", 100000, 65536)];
    state.lxc_configs = [(
        "100.conf".to_string(),
        Config::from_str("unprivileged: 1\nlxc.idmap: u 0\nlxc.idmap: x 0 1 2\nlxc.idmap: u 0 abc 5\nlxc.idmap: u  0 100000 65536\nlxc.idmap: g 0 100000 65536 extra"),
    )]
    .into_iter()
    .collect();
    state.evaluate_findings(&not_pve(), &root_ids());
    assert_eq!(messages(&state.findings), vec!["lxc.idmap for uid is not set in config"]);
}

#[test]
fn range_is_checked_at_both_ends() {
    let check = |line: &str| -> usize {
        let mut state = State::default();
        state.host_mapping.subuid = vec![entry("root", 100000, 65536), entry("other", 0, 10)];
        state.host_mapping.subgid = vec![entry("root", 100000, 65536)];
        state.lxc_configs = [(
            "100.conf".to_string(),
            Config::from_str(&format!("unprivileged: 1\nlxc.idmap: {line}\nlxc.idmap: g 0 100000 1")),
        )]
        .into_iter()
        .collect();
        state.evaluate_findings(&not_pve(), &root_ids());
        state.findings.len()
    };
    assert_eq!(check("u 0 100000 65536"), 0);
    assert_eq!(check("u 0 100000 0"), 0);
    assert_eq!(check("u 0 165535 1"), 0);
    assert_eq!(check("u 0 99999 1"), 1);
    assert_eq!(check("u 0 165535 2"), 1);
    assert_eq!(check("u 0 165536 0"), 1);
    assert_eq!(check("u 0 4294967295 4294967295"), 1);
    // Another host ID than the one the grant's name resolves to.
    assert_eq!(check("u 1000 5 1"), 0);
}

#[test]
fn unresolved_names_are_passed_over() {
    let mut state = State::default();
    state.host_mapping.subuid = vec![entry("ghost", 1, 1)];
    state.host_mapping.subgid = vec![entry("ghost", 1, 1)];
    state.lxc_configs = [(
        "100.conf".to_string(),
        Config::from_str("unprivileged: 1\nlxc.idmap: u 0 500 1\nlxc.idmap: g 0 500 1"),
    )]
    .into_iter()
    .collect();
    state.evaluate_findings(&not_pve(), &root_ids());
    assert!(state.findings.is_empty());
}

#[test]
fn rootfs_owner_is_held_against_the_mapping() {
    let mut state = State::default();
    state.lxc_configs = [(
        "100.conf".to_string(),
        Config::from_str("rootfs: local-zfs:subvol-100-disk-0,size=4G\nunprivileged: 1\nlxc.idmap: u 0 100000 65536\nlxc.idmap: g 0 100000 65536"),
    )]
    .into_iter()
    .collect();
    let descriptor = "local-zfs:subvol-100-disk-0,size=4G".to_string();
    let info = |uid, gid| RootfsInfo { path: "/rpool/data/subvol-100-disk-0".to_string(), uid, gid };

    state.evaluate_findings(&not_pve(), &root_ids());
    assert!(state.findings.is_empty());

    state.rootfs_info.insert(descriptor.clone(), info(100000, 100000));
    state.evaluate_findings(&not_pve(), &root_ids());
    assert!(state.findings.is_empty());

    state.rootfs_info.insert(descriptor.clone(), info(0, 100000));
    state.evaluate_findings(&not_pve(), &root_ids());
    assert_eq!(messages(&state.findings), vec!["Rootfs uid does not match host mapping"]);
    assert_eq!(state.findings[0].lxc_config_mapping_highlights, vec![("100.conf".to_string(), SubID::UID)]);

    state.rootfs_info.insert(descriptor.clone(), info(100000, 0));
    state.evaluate_findings(&not_pve(), &root_ids());
    assert_eq!(messages(&state.findings), vec!["Rootfs gid does not match host mapping"]);

    state.rootfs_info.insert("other".to_string(), info(1, 1));
    state.rootfs_info.insert(descriptor, info(1, 2));
    state.evaluate_findings(&not_pve(), &root_ids());
    assert_eq!(
        messages(&state.findings),
        vec!["Rootfs uid does not match host mapping", "Rootfs gid does not match host mapping"]
    );
}

#[test]
fn evaluation_twice_gives_the_same_findings() {
    let mut state = State::default();
    state.host_mapping.subuid = vec![entry("root", 100000, 65536), entry("root", 1, 1)];
    state.lxc_configs = [
        ("100.conf".to_string(), Config::from_str("unprivileged: 1\nlxc.idmap: u 0 1 5")),
        ("101.conf".to_string(), Config::from_str("unprivileged: 1\nlxc.idmap: g 0 1 5")),
    ]
    .into_iter()
    .collect();
    state.evaluate_findings(&pve(), &root_ids());
    let first: Vec<String> = state.findings.iter().map(|f| format!("{f:?}")).collect();
    state.evaluate_findings(&pve(), &root_ids());
    let second: Vec<String> = state.findings.iter().map(|f| format!("{f:?}")).collect();
    assert_eq!(first.len(), 5);
    assert_eq!(first, second);
}

#[test]
fn bad_findings_come_first() {
    let mut state = State::default();
    state.host_mapping.subuid = vec![entry("root", 100000, 65536)];
    state.lxc_configs = [
        ("100.conf".to_string(), Config::from_str("unprivileged: 1\nlxc.idmap: u 0 1 5")),
        ("101.conf".to_string(), Config::from_str("unprivileged: 1")),
    ]
    .into_iter()
    .collect();
    state.evaluate_findings(&pve(), &root_ids());
    let kinds: Vec<FindingKind> = state.findings.iter().map(|f| f.kind).collect();
    assert_eq!(
        kinds,
        vec![FindingKind::Bad, FindingKind::Bad, FindingKind::Bad, FindingKind::Bad, FindingKind::Good]
    );
    assert_eq!(
        messages(&state.findings),
        vec![
            "LXC config's host sub uid range outside of host mapping range",
            "lxc.idmap for gid is not set in config",
            "lxc.idmap for uid is not set in config",
            "lxc.idmap for gid is not set in config",
            "No duplicate ids found in subuid/subgid mappings",
        ]
    );
    assert_eq!(state.findings[0].to_string(), "LXC config's host sub uid range outside of host mapping range");
}

#[test]
fn a_new_state_is_empty_and_running() {
    let state = State::default();
    assert!(state.is_running);
    assert!(state.findings.is_empty());
    assert_eq!(state.selected_finding, None);
    assert!(state.host_mapping.subuid.is_empty() && state.host_mapping.subgid.is_empty());
    assert_eq!(state.lxc_configs.len(), 0);
    assert_eq!(state.rootfs_info.len(), 0);
    assert!(!state.show_fix_popup && !state.show_settings_page && !state.show_logs_page);
}
