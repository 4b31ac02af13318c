use lxcidman::evaluate::{
    evaluate_config, evaluate_host, is_within, malformed_idmaps, parse_idmap, sort_bad_first, IdMapLine,
};
use lxcidman::findings::{Finding, FindingKind};
use lxcidman::identity::{id_from_output, Identities, ResolutionError};
use lxcidman::lxc::config::Config;
use lxcidman::subid::{parse_subid_map, HostMapping, IdMapEntry, SubID};
use lxcidman::text::{chars_of, is_whitespace, lines_of, parse_u32, same_text, split_on, trim};

fn text(s: &str) -> Vec<char> {
    s.chars().collect()
}

#[test]
fn output_of_a_lookup() {
    assert_eq!(id_from_output(true, "0\n"), Ok(0));
    assert_eq!(id_from_output(true, "  100000 "), Ok(100000));
    assert_eq!(id_from_output(true, "4294967295"), Ok(4294967295));
    assert_eq!(id_from_output(true, "4294967296"), Err(ResolutionError::InvalidOutput));
    assert_eq!(id_from_output(true, ""), Err(ResolutionError::InvalidOutput));
    assert_eq!(id_from_output(true, "id: no such user"), Err(ResolutionError::InvalidOutput));
    assert_eq!(id_from_output(false, "0"), Err(ResolutionError::CommandFailed));
}

#[test]
fn first_id_of_a_name_stays() {
    let mut ids = Identities::new();
    assert_eq!(ids.resolve(SubID::UID, "root"), None);
    ids.record(SubID::UID, "root", 0);
    ids.record(SubID::UID, "alice", 1000);
    ids.record(SubID::UID, "root", 7);
    ids.record(SubID::GID, "alice", 2000);
    assert_eq!(ids.resolve(SubID::UID, "root"), Some(0));
    assert_eq!(ids.resolve(SubID::UID, "alice"), Some(1000));
    assert_eq!(ids.resolve(SubID::GID, "alice"), Some(2000));
    assert_eq!(ids.resolve(SubID::GID, "root"), None);
    assert_eq!(ids.resolve(SubID::UID, "Root"), None);
}

#[test]
fn idmap_values() {
    let line = |kind, container_id, host_sub_id, host_sub_id_count| {
        Some(IdMapLine { kind, container_id, host_sub_id, host_sub_id_count })
    };
    assert_eq!(parse_idmap("u 0 100000 65536"), line(SubID::UID, 0, 100000, 65536));
    assert_eq!(parse_idmap("  g 1000 1000 1 \t"), line(SubID::GID, 1000, 1000, 1));
    assert_eq!(parse_idmap("g 0 1 2 3 4"), line(SubID::GID, 0, 1, 2));
    assert_eq!(parse_idmap("u 0 100000"), None);
    assert_eq!(parse_idmap("u  0 100000 65536"), None);
    assert_eq!(parse_idmap("U 0 100000 65536"), None);
    assert_eq!(parse_idmap("b 0 100000 65536"), None);
    assert_eq!(parse_idmap("u 0 100000 -1"), None);
    assert_eq!(parse_idmap("u 0 4294967296 1"), None);
    assert_eq!(parse_idmap("u\t0\t100000\t65536"), None);
    assert_eq!(parse_idmap(""), None);
}

#[test]
fn within_a_grant() {
    let grant = IdMapEntry { host_user_id: "root".into(), host_sub_id: 4294967290, host_sub_id_count: 100 };
    let line = |host_sub_id, host_sub_id_count| IdMapLine { kind: SubID::UID, container_id: 0, host_sub_id, host_sub_id_count };
    assert!(is_within(&line(4294967290, 5), &grant));
    assert!(is_within(&line(4294967295, 95), &grant));
    assert!(!is_within(&line(4294967295, 96), &grant));
    assert!(!is_within(&line(4294967289, 1), &grant));
    assert!(!is_within(&line(0, 0), &grant));
}

#[test]
fn numbers() {
    assert_eq!(parse_u32(&text("0")), Some(0));
    assert_eq!(parse_u32(&text("+0012")), Some(12));
    assert_eq!(parse_u32(&text("4294967295")), Some(4294967295));
    assert_eq!(parse_u32(&text("4294967296")), None);
    assert_eq!(parse_u32(&text("99999999999999999999999")), None);
    assert_eq!(parse_u32(&text("")), None);
    assert_eq!(parse_u32(&text("+")), None);
    assert_eq!(parse_u32(&text("-1")), None);
    assert_eq!(parse_u32(&text("1 ")), None);
    assert_eq!(parse_u32(&text("１")), None);
    for s in ["17", "+5", "0000", "x", "4294967295", "42949672950", "", "+", "++1", "1_0"] {
        assert_eq!(parse_u32(&text(s)), s.parse::<u32>().ok(), "{s:?}");
    }
}

#[test]
fn text_is_split_and_trimmed_as_by_std() {
    for s in ["", "a", "a\nb", "a\n", "\n", "\n\n", "a\n\nb\n", " a \n\tb\u{a0}\u{3000}\n", "x\r\ny"] {
        let ours: Vec<String> = lines_of(&text(s)).iter().map(|l| trim(l).iter().collect()).collect();
        let std: Vec<String> = s.lines().map(|l| l.trim().to_string()).collect();
        assert_eq!(ours, std, "{s:?}");
    }
    for s in ["", ":", "a:b", "a::b:", ":a"] {
        let ours: Vec<String> = split_on(&text(s), ':').iter().map(|l| l.iter().collect()).collect();
        let std: Vec<String> = s.split(':').map(|l| l.to_string()).collect();
        assert_eq!(ours, std, "{s:?}");
    }
    for n in 0..0x3100u32 {
        if let Some(c) = char::from_u32(n) {
            assert_eq!(is_whitespace(c), c.is_whitespace(), "{n:#x}");
        }
    }
    assert_eq!(chars_of("héllo"), vec!['h', 'é', 'l', 'l', 'o']);
    assert!(same_text("a", "a"));
    assert!(!same_text("a", "b"));
    assert!(!same_text("a", "ab"));
}

#[test]
fn grants_of_a_file() {
    let grants = parse_subid_map("root:100000:65536\nalice:165536:65536\n").unwrap();
    assert_eq!(grants.len(), 2);
    assert_eq!(grants[0].host_user_id, "root");
    assert_eq!(grants[1].host_sub_id, 165536);
    assert!(parse_subid_map("\n  \n").unwrap().is_empty());
}

#[test]
fn rules_on_plain_values() {
    let host = HostMapping {
        subuid: vec![IdMapEntry { host_user_id: "root".into(), host_sub_id: 100000, host_sub_id_count: 65536 }],
        subgid: Vec::new(),
    };
    let mut ids = Identities::new();
    ids.record(SubID::UID, "root", 0);
    assert_eq!(evaluate_host(&host, true).len(), 1);
    assert!(evaluate_host(&host, false).is_empty());
    let config = Config::from_str("unprivileged: 1\nlxc.idmap: u 0 1 1");
    let found = evaluate_config("100.conf", &config, &host, &ids, None);
    assert_eq!(found.len(), 2);
    let mut all = evaluate_host(&host, true);
    all.extend(found);
    let sorted = sort_bad_first(all);
    let kinds: Vec<FindingKind> = sorted.iter().map(|f| f.kind).collect();
    assert_eq!(kinds, vec![FindingKind::Bad, FindingKind::Bad, FindingKind::Good]);
    assert_eq!(Finding::no_duplicates().to_string(), "No duplicate ids found in subuid/subgid mappings");
}

#[test]
fn each_name_is_asked_for_once() {
    let entry = |name: &str| IdMapEntry { host_user_id: name.into(), host_sub_id: 1, host_sub_id_count: 1 };
    let host = HostMapping {
        subuid: vec![entry("root"), entry("alice"), entry("root"), entry("bob"), entry("alice"), entry("root")],
        subgid: vec![entry("wheel"), entry("wheel")],
    };
    assert_eq!(host.names(SubID::UID), vec!["root", "alice", "bob"]);
    assert_eq!(host.names(SubID::GID), vec!["wheel"]);
    assert!(HostMapping::new().names(SubID::UID).is_empty());
    assert_eq!(host.entries(SubID::GID).len(), 2);
}

#[test]
fn values_that_are_no_id_mapping() {
    let config = Config::from_str(
        "lxc.idmap: u 0 100000 65536\nlxc.idmap: u 0\nlxc.idmap:\n[snapshot]\nlxc.idmap: nonsense\nlxc.idmap: g 0 1 2",
    );
    assert_eq!(malformed_idmaps(&config), vec!["u 0", ""]);
    assert!(malformed_idmaps(&Config::new()).is_empty());
}
