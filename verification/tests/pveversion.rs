use lxcidman::proxmox::pveversion::{PVEVersion, PVEVersionError};

#[test]
fn test_pveversion_parser() {
    let s = "pve-manager/8.1-2/ab0d52b8 (running kernel: 6.5.11-4-pve)";
    let result = PVEVersion::from_str(s).unwrap();

    assert_eq!(result.major, 8);
}

#[test]
fn pveversion_errors() {
    assert_eq!(PVEVersion::from_str("pve/8.1"), Err(PVEVersionError::InvalidTitle));
    assert_eq!(PVEVersion::from_str(""), Err(PVEVersionError::InvalidTitle));
    assert_eq!(PVEVersion::from_str("pve-manager"), Err(PVEVersionError::MissingVersion));
    assert_eq!(PVEVersion::from_str("pve-manager/"), Err(PVEVersionError::InvalidMajor));
    assert_eq!(PVEVersion::from_str("pve-manager/x.1"), Err(PVEVersionError::InvalidMajor));
    assert_eq!(PVEVersion::from_str("pve-manager/256.1"), Err(PVEVersionError::InvalidMajor));
    assert_eq!(PVEVersion::from_str("pve-manager/255-1.2"), Ok(PVEVersion { major: 255 }));
    assert_eq!(PVEVersion::from_str("pve-manager/+7"), Ok(PVEVersion { major: 7 }));
    assert_eq!(PVEVersion::from_str("pve-manager/09.3/x"), Ok(PVEVersion { major: 9 }));
}
