//! Auditing of the user and group ID mappings of unprivileged LXC containers
//! against the host's sub-ID grants.

pub mod evaluate;
pub mod event;
pub mod findings;
pub mod identity;
pub mod keys;
pub mod lxc;
pub mod metadata;
pub mod monitor;
pub mod proxmox;
pub mod rootfs;
pub mod state;
pub mod subid;
pub mod text;
pub mod theorems;
pub mod transitions;
