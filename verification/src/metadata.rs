//! What is known of the host before anything is watched.

use vstd::prelude::*;

verus! {

/// Where Proxmox VE keeps its container configurations.
pub const PVE_CONF_DIR: &'static str = "/etc/pve/lxc";

/// What is known of the host.
#[derive(Clone, Debug, Default)]
pub struct Metadata {
    /// The directory that holds the container configurations.
    pub lxc_config_dir: String,
    /// Whether the host runs Proxmox VE. There a name may have one grant
    /// only, and the grants are examined for names that have several.
    pub is_pve: bool,
}

/// Why the host's metadata could not be put together.
#[derive(Clone, Copy, Debug, PartialEq, Eq, Structural)]
pub enum MetadataError {
    /// No directory was named and the default one does not exist.
    ConfigDirNotFound,
}

impl Metadata {
    /// Puts the metadata together. The directory that the caller names is
    /// taken as it is; without one the default directory is taken, if
    /// `default_exists` says that it is there.
    pub fn collect(
        lxc_config_dir: Option<String>,
        default_exists: bool,
        is_pve: bool,
    ) -> (r: Result<Metadata, MetadataError>)
        ensures
            match r {
                Ok(m) => m.is_pve == is_pve && match lxc_config_dir {
                    Some(dir) => m.lxc_config_dir@ == dir@,
                    None => default_exists && m.lxc_config_dir@ == PVE_CONF_DIR@,
                },
                Err(e) => e == MetadataError::ConfigDirNotFound && lxc_config_dir.is_none()
                    && !default_exists,
            },
    {
        match lxc_config_dir {
            Some(dir) => Ok(Metadata { lxc_config_dir: dir, is_pve }),
            None => if default_exists {
                Ok(Metadata { lxc_config_dir: PVE_CONF_DIR.to_owned(), is_pve })
            } else {
                Err(MetadataError::ConfigDirNotFound)
            },
        }
    }
}

} // verus!
