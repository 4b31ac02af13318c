use lxcidman::monitor::{file_name_of, is_container_conf_name, is_valid_file};

#[test]
fn host_files_are_valid() {
    assert!(is_valid_file("/etc/subuid"));
    assert!(is_valid_file("/etc/subgid"));
    assert!(!is_valid_file("/etc/passwd"));
    assert!(!is_valid_file("/etc/subuid-"));
}

#[test]
fn container_configs_are_valid() {
    assert!(is_valid_file("/etc/pve/lxc/100.conf"));
    assert!(is_valid_file("7.conf"));
    assert!(is_valid_file("/tmp/x/0123456789.conf"));
    assert!(!is_valid_file("/etc/pve/lxc/.conf"));
    assert!(!is_valid_file("/etc/pve/lxc/100.conf.bak"));
    assert!(!is_valid_file("/etc/pve/lxc/10a.conf"));
    assert!(!is_valid_file("/etc/pve/lxc/test.conf"));
    assert!(!is_valid_file("/etc/pve/lxc/100.conf/"));
    assert!(!is_valid_file("/etc/pve/lxc/١٢٣.conf"));
    assert!(!is_valid_file(""));
}

#[test]
fn file_name_is_what_follows_the_last_slash() {
    assert_eq!(file_name_of("/etc/pve/lxc/100.conf"), "100.conf");
    assert_eq!(file_name_of("100.conf"), "100.conf");
    assert_eq!(file_name_of("/a/b/"), "");
    assert!(is_container_conf_name("42.conf"));
    assert!(!is_container_conf_name("conf"));
}
