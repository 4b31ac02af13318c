//! What is specific to Proxmox VE hosts.

pub mod pveversion;
