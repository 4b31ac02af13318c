use lxcidman::lxc::config::{ConfEntry, Config};

const SAMPLE_CONFIG: &str = r#"arch: amd64
cores: 1
features: nesting=1
hostname: trash-pandas
memory: 1024
net0: name=eth0,bridge=vmbr0,firewall=1,gw=192.168.1.1,hwaddr=AD:24:14:45:A8:38,ip=192.168.1.42/24,type=veth
ostype: debian
parent: pre-setup
rootfs: local-zfs:subvol-100-disk-0,size=4G
swap: 512
tags: unprivileged
unprivileged: 1
lxc.idmap: u 0 6653600 65536
lxc.idmap: g 0 6653600 65536

[pre-setup]
arch: amd64
cores: 1
features: nesting=1
hostname: trash-pandas
memory: 1024
net0: name=eth0,bridge=vmbr0,firewall=1,gw=192.168.1.1,hwaddr=AD:24:14:45:A8:38,ip=192.168.1.42/24,type=veth
ostype: debian
rootfs: local-zfs:subvol-100-disk-0,size=4G
snaptime: 1764532648
swap: 512
unprivileged: 1
lxc.idmap: u 0 1000 3000
lxc.idmap: g 0 1000 3000"#;

const NET0: &str =
    "name=eth0,bridge=vmbr0,firewall=1,gw=192.168.1.1,hwaddr=AD:24:14:45:A8:38,ip=192.168.1.42/24,type=veth";

fn is_pair(entry: &ConfEntry, k: &str, v: &str) -> bool {
    matches!(entry, ConfEntry::KeyValue(key, value) if key == k && value == v)
}

fn check_sample_entries(config: &Config) {
    let entries = config.entries();

    assert_eq!(entries.len(), 29);
    assert!(matches!(&entries[0], ConfEntry::KeyValue(key, value) if key == "arch" && value == "amd64"));
    assert!(matches!(&entries[1], ConfEntry::KeyValue(key, value) if key == "cores" && value == "1"));
    assert!(matches!(&entries[2], ConfEntry::KeyValue(key, value) if key == "features" && value == "nesting=1"));
    assert!(
        matches!(&entries[3], ConfEntry::KeyValue(key, value) if key == "hostname" && value == "trash-pandas")
    );
    assert!(matches!(&entries[4], ConfEntry::KeyValue(key, value) if key == "memory" && value == "1024"));
    assert!(matches!(&entries[5], ConfEntry::KeyValue(key, value) if key == "net0" && value == NET0));
    assert!(matches!(&entries[6], ConfEntry::KeyValue(key, value) if key == "ostype" && value == "debian"));
    assert!(matches!(&entries[7], ConfEntry::KeyValue(key, value) if key == "parent" && value == "pre-setup"));
    assert!(
        matches!(&entries[8], ConfEntry::KeyValue(key, value) if key == "rootfs" && value == "local-zfs:subvol-100-disk-0,size=4G")
    );
    assert!(matches!(&entries[9], ConfEntry::KeyValue(key, value) if key == "swap" && value == "512"));
    assert!(matches!(&entries[10], ConfEntry::KeyValue(key, value) if key == "tags" && value == "unprivileged"));
    assert!(matches!(&entries[11], ConfEntry::KeyValue(key, value) if key == "unprivileged" && value == "1"));
    assert!(
        matches!(&entries[12], ConfEntry::KeyValue(key, value) if key == "lxc.idmap" && value == "u 0 6653600 65536")
    );
    assert!(
        matches!(&entries[13], ConfEntry::KeyValue(key, value) if key == "lxc.idmap" && value == "g 0 6653600 65536")
    );
    assert!(matches!(&entries[14], ConfEntry::EmptyLine));
    assert!(matches!(&entries[15], ConfEntry::Section(section) if section == "pre-setup"));
    assert!(matches!(&entries[16], ConfEntry::KeyValue(key, value) if key == "arch" && value == "amd64"));
    assert!(matches!(&entries[17], ConfEntry::KeyValue(key, value) if key == "cores" && value == "1"));
    assert!(
        matches!(&entries[18], ConfEntry::KeyValue(key, value) if key == "features" && value == "nesting=1")
    );
    assert!(
        matches!(&entries[19], ConfEntry::KeyValue(key, value) if key == "hostname" && value == "trash-pandas")
    );
    assert!(matches!(&entries[20], ConfEntry::KeyValue(key, value) if key == "memory" && value == "1024"));
    assert!(matches!(&entries[21], ConfEntry::KeyValue(key, value) if key == "net0" && value == NET0));
    assert!(matches!(&entries[22], ConfEntry::KeyValue(key, value) if key == "ostype" && value == "debian"));
    assert!(
        matches!(&entries[23], ConfEntry::KeyValue(key, value) if key == "rootfs" && value == "local-zfs:subvol-100-disk-0,size=4G")
    );
    assert!(
        matches!(&entries[24], ConfEntry::KeyValue(key, value) if key == "snaptime" && value == "1764532648")
    );
    assert!(matches!(&entries[25], ConfEntry::KeyValue(key, value) if key == "swap" && value == "512"));
    assert!(matches!(&entries[26], ConfEntry::KeyValue(key, value) if key == "unprivileged" && value == "1"));
    assert!(
        matches!(&entries[27], ConfEntry::KeyValue(key, value) if key == "lxc.idmap" && value == "u 0 1000 3000")
    );
    assert!(
        matches!(&entries[28], ConfEntry::KeyValue(key, value) if key == "lxc.idmap" && value == "g 0 1000 3000")
    );
}

#[test]
fn config_test_config_to_from_str() {
    let content = SAMPLE_CONFIG;
    let config = Config::from_str(content);

    check_sample_entries(&config);

    let section = config.section(None);
    let idmaps = section.get_all("lxc.idmap");

    assert_eq!(idmaps.len(), 2);
    assert_eq!(idmaps[0], "u 0 6653600 65536");
    assert_eq!(idmaps[1], "g 0 6653600 65536");

    assert_eq!(config.to_string(), content);
}

#[test]
fn lxc_test_config_to_from_str() {
    let content = SAMPLE_CONFIG;
    let config = Config::from_str(content);

    check_sample_entries(&config);

    let idmaps = config.sectionless_idmap();

    assert_eq!(idmaps.len(), 2);
    assert_eq!(idmaps[0], "u 0 6653600 65536");
    assert_eq!(idmaps[1], "g 0 6653600 65536");

    assert_eq!(config.to_string(), content);
}

#[test]
fn test_section_section_view() {
    let config = Config::from_str(SAMPLE_CONFIG);
    let section = config.section(None);

    assert!(section.has_lxc_idmap());
    assert_eq!(section.get("tags"), Some("unprivileged"));
    assert_eq!(section.get_rootfs(), Some("local-zfs:subvol-100-disk-0,size=4G"));
    assert_eq!(section.get_unprivileged(), Some("1"));
    assert_eq!(section.get_lxc_idmaps().len(), 2);

    let keys: Vec<_> = section.keys();

    assert_eq!(keys.len(), 13);
    assert!(keys.contains(&"arch"));
    assert!(keys.contains(&"cores"));
    assert!(keys.contains(&"features"));
    assert!(keys.contains(&"hostname"));
    assert!(keys.contains(&"memory"));
    assert!(keys.contains(&"net0"));
    assert!(keys.contains(&"ostype"));
    assert!(keys.contains(&"parent"));
    assert!(keys.contains(&"rootfs"));
    assert!(keys.contains(&"swap"));
    assert!(keys.contains(&"tags"));
    assert!(keys.contains(&"unprivileged"));
    assert!(keys.contains(&"lxc.idmap"));

    let pre_setup = config.section(Some("pre-setup"));

    assert_eq!(pre_setup.get("snaptime"), Some("1764532648"));
}

#[test]
fn lines_of_every_kind() {
    let config = Config::from_str("  # note \n;other\n\n [ s ] \nkey = v = w\n a : b : c \nbare\nk:\n[x\n");
    let entries = config.entries();

    assert_eq!(entries.len(), 9);
    assert!(matches!(&entries[0], ConfEntry::Comment(c) if c == "# note"));
    assert!(matches!(&entries[1], ConfEntry::Comment(c) if c == ";other"));
    assert!(matches!(&entries[2], ConfEntry::EmptyLine));
    assert!(matches!(&entries[3], ConfEntry::Section(s) if s == " s "));
    assert!(is_pair(&entries[4], "key", "v = w"));
    assert!(is_pair(&entries[5], "a", "b : c"));
    assert!(is_pair(&entries[6], "bare", ""));
    assert!(is_pair(&entries[7], "k", ""));
    assert!(is_pair(&entries[8], "[x", ""));
    assert_eq!(config.to_string(), "# note\n;other\n\n[ s ]\nkey: v = w\na: b : c\nbare: \nk: \n[x: ");
}

#[test]
fn colon_wins_over_equals() {
    let config = Config::from_str("a=b:c");
    assert!(is_pair(&config.entries()[0], "a=b", "c"));
}

#[test]
fn empty_text_has_no_lines() {
    let config = Config::from_str("");
    assert_eq!(config.entries().len(), 0);
    assert_eq!(config.to_string(), "");
    assert_eq!(Config::new().to_string(), "");
    assert_eq!(Config::from_str("\n").entries().len(), 1);
    assert_eq!(Config::from_str("a: 1\r\nb: 2\r\n").to_string(), "a: 1\nb: 2");
}

#[test]
fn keys_are_looked_up_by_section() {
    let config = Config::from_str("k: top\n[a]\nk: 1\nk: 2\n[b]\nk: 3\n[a]\nk: 4\nj: 5");
    assert_eq!(config.section(None).get_all("k"), vec!["top"]);
    assert_eq!(config.section(Some("a")).get_all("k"), vec!["1", "2", "4"]);
    assert_eq!(config.section(Some("a")).get("k"), Some("1"));
    assert_eq!(config.section(Some("b")).get_all("k"), vec!["3"]);
    assert_eq!(config.section(Some("c")).get_all("k"), Vec::<&str>::new());
    assert_eq!(config.section(Some("b")).get("j"), None);
    assert!(config.section(Some("a")).has_key("j"));
    assert!(!config.section(None).has_key("j"));
    assert!(!config.section(None).has_lxc_idmap());
}

#[test]
fn round_trip_of_a_canonical_text() {
    for text in [
        "",
        "# c\nkey: value\n\n[s]\nother: 1 2 3",
        "k: ",
        ": ",
        "a b: c : d\n[]\n; x",
        "key: value\n\n\nlast: 1",
        "[a: b]",
    ] {
        assert_eq!(Config::from_str(text).to_string(), text, "{text:?}");
    }
}

#[test]
fn texts_that_are_not_written_back_as_they_were() {
    for (text, written) in [
        ("a = b", "a: b"),
        ("a:b", "a: b"),
        ("a: b\n", "a: b"),
        ("a:  b", "a: b"),
        (" a: b", "a: b"),
        ("a: b\r\nc: d", "a: b\nc: d"),
        ("bare", "bare: "),
        ("k:", "k: "),
        ("\n", ""),
    ] {
        assert_eq!(Config::from_str(text).to_string(), written, "{text:?}");
    }
}

#[test]
fn append_goes_behind_the_last_key_of_the_section() {
    let mut config = Config::from_str("a: 1\n[s]\nb: 2\n\n[t]\nc: 3");
    config.section_mut(Some("s")).append("d", "4");
    assert_eq!(config.to_string(), "a: 1\n[s]\nb: 2\nd: 4\n\n[t]\nc: 3");
    config.section_mut(None).append("a", "5");
    assert_eq!(config.to_string(), "a: 1\na: 5\n[s]\nb: 2\nd: 4\n\n[t]\nc: 3");
    config.section_mut(Some("t")).append("c", "6");
    assert_eq!(config.to_string(), "a: 1\na: 5\n[s]\nb: 2\nd: 4\n\n[t]\nc: 3\nc: 6");
    assert_eq!(config.section(None).get_all("a"), vec!["1", "5"]);
    assert_eq!(config.section(Some("s")).get_all("d"), vec!["4"]);
    assert_eq!(config.section(Some("t")).get_all("c"), vec!["3", "6"]);
}

#[test]
fn append_to_a_section_without_keys() {
    let mut config = Config::from_str("[s]\nb: 2");
    config.section_mut(None).append("k", "v");
    assert_eq!(config.to_string(), "k: v\n[s]\nb: 2");
    assert_eq!(config.section(None).get("k"), Some("v"));
    assert_eq!(config.section(Some("s")).get("k"), None);

    let mut config = Config::from_str("# top\n\n[s]\n# none yet\n[t]\nc: 3");
    config.section_mut(Some("s")).append("k", "v");
    assert_eq!(config.to_string(), "# top\n\n[s]\n# none yet\nk: v\n[t]\nc: 3");
    config.section_mut(None).append("k", "w");
    assert_eq!(config.to_string(), "# top\n\nk: w\n[s]\n# none yet\nk: v\n[t]\nc: 3");
    assert_eq!(config.section(Some("s")).get_all("k"), vec!["v"]);
    assert_eq!(config.section(None).get_all("k"), vec!["w"]);
    assert_eq!(config.section(Some("t")).get_all("k"), Vec::<&str>::new());
}

#[test]
fn append_starts_a_section_that_is_not_there() {
    let mut config = Config::from_str("a: 1");
    config.section_mut(Some("new")).append("k", "v");
    assert_eq!(config.to_string(), "a: 1\n[new]\nk: v");
    assert_eq!(config.section(Some("new")).get("k"), Some("v"));
    assert_eq!(config.section(None).get("k"), None);

    let mut empty = Config::new();
    empty.section_mut(None).append("k", "v");
    assert_eq!(empty.to_string(), "k: v");
    let mut empty = Config::new();
    empty.section_mut(Some("s")).append("k", "v");
    assert_eq!(empty.to_string(), "[s]\nk: v");
}

#[test]
fn remove_all_takes_the_key_out_of_one_section() {
    let mut config = Config::from_str("k: 0\n[a]\nk: 1\nj: 2\nk: 3\n[b]\nk: 4\n[a]\nk: 5");
    config.section_mut(Some("a")).remove_all("k");
    assert_eq!(config.to_string(), "k: 0\n[a]\nj: 2\n[b]\nk: 4\n[a]");
    assert!(!config.section(Some("a")).has_key("k"));
    assert_eq!(config.section(Some("a")).keys(), vec!["j"]);
    assert_eq!(config.section(None).get_all("k"), vec!["0"]);
    assert_eq!(config.section(Some("b")).get_all("k"), vec!["4"]);
    config.section_mut(Some("a")).remove_all("missing");
    assert_eq!(config.to_string(), "k: 0\n[a]\nj: 2\n[b]\nk: 4\n[a]");
    config.section_mut(None).remove_all("k");
    assert_eq!(config.to_string(), "[a]\nj: 2\n[b]\nk: 4\n[a]");
    assert!(config.section(None).keys().is_empty());
}

#[test]
fn set_replaces_every_value() {
    let mut config = Config::from_str("lxc.idmap: u 0 1 2\narch: amd64\nlxc.idmap: g 0 1 2\n\n[snap]\nlxc.idmap: u 0 3 4");
    config.section_mut(None).set("lxc.idmap", "u 0 100000 65536");
    assert_eq!(config.to_string(), "arch: amd64\nlxc.idmap: u 0 100000 65536\n\n[snap]\nlxc.idmap: u 0 3 4");
    assert_eq!(config.section(None).get_lxc_idmaps(), vec!["u 0 100000 65536"]);
    assert_eq!(config.section(Some("snap")).get_lxc_idmaps(), vec!["u 0 3 4"]);
    let mut view = config.section_mut(Some("snap"));
    view.set("new", "1");
    view.append("new", "2");
    assert_eq!(config.section(Some("snap")).get_all("new"), vec!["1", "2"]);
}

#[test]
fn a_clone_holds_the_same_lines() {
    let config = Config::from_str("a: 1\n[s]\nb: 2");
    let mut copy = config.clone();
    copy.section_mut(Some("s")).append("c", "3");
    assert_eq!(config.to_string(), "a: 1\n[s]\nb: 2");
    assert_eq!(copy.to_string(), "a: 1\n[s]\nb: 2\nc: 3");
    assert_eq!(copy.section(Some("s")).get("b"), Some("2"));
}

#[test]
fn lines_above_the_first_section() {
    let config = Config::from_str(SAMPLE_CONFIG);
    assert!(config.sectionlesss_is_unprivileged());
    assert_eq!(config.sectionless_rootfs(), Some("local-zfs:subvol-100-disk-0,size=4G"));
    assert_eq!(config.sectionless_idmap(), vec!["u 0 6653600 65536", "g 0 6653600 65536"]);

    let config = Config::from_str("unprivileged: 0\nrootfs2: b\nlxc.idmap.x: 1\nunprivileged: 1\nrootfs: a\n[s]\nlxc.idmap: 2");
    assert!(config.sectionlesss_is_unprivileged());
    assert_eq!(config.sectionless_rootfs(), Some("b"));
    assert_eq!(config.sectionless_idmap(), vec!["1"]);
    // The views of sections go by the whole key, and by the first value.
    assert_eq!(config.section(None).get_unprivileged(), Some("0"));
    assert_eq!(config.section(None).get_rootfs(), Some("a"));
    assert!(!config.section(None).has_lxc_idmap());

    let config = Config::from_str("arch: amd64\n[s]\nunprivileged: 1\nrootfs: a\nlxc.idmap: 2");
    assert!(!config.sectionlesss_is_unprivileged());
    assert_eq!(config.sectionless_rootfs(), None);
    assert!(config.sectionless_idmap().is_empty());
    assert!(!Config::new().sectionlesss_is_unprivileged());
}
