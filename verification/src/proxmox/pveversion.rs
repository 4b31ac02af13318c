//! The version of the Proxmox VE manager, as `pveversion` reports it.

use vstd::prelude::*;
use crate::text::{
    chars_of, decimal_u32, find_from, first_index, parse_u32, same_chars, split, split_on, subvec,
    views,
};

verus! {

/// The version of the Proxmox VE manager.
#[derive(Clone, Copy, Debug, PartialEq, Eq, Structural)]
pub struct PVEVersion {
    pub major: u8,
}

/// Why a version report could not be read.
#[derive(Clone, Copy, Debug, PartialEq, Eq, Structural)]
pub enum PVEVersionError {
    /// What stands in front of the first `/` is not `pve-manager`.
    InvalidTitle,
    /// Nothing follows the title.
    MissingVersion,
    /// The major version is no number from 0 to 255.
    InvalidMajor,
}

/// The text of a version in front of its first `-` or `.`.
pub open spec fn major_field(version: Seq<char>) -> Seq<char> {
    let dash = first_index(version, '-');
    let dot = first_index(version, '.');
    version.take(if dash <= dot {
        dash
    } else {
        dot
    })
}

/// What a version report says. A report is `pve-manager`, a `/`, a version
/// and whatever follows the next `/`; the major version is the number in
/// front of the version's first `-` or `.`.
pub open spec fn version_of(report: Seq<char>) -> Result<PVEVersion, PVEVersionError> {
    let parts = split(report, '/');
    if parts[0] != "pve-manager"@ {
        Err(PVEVersionError::InvalidTitle)
    } else if parts.len() < 2 {
        Err(PVEVersionError::MissingVersion)
    } else {
        match decimal_u32(major_field(parts[1])) {
            Some(n) => if n <= 255 {
                Ok(PVEVersion { major: n as u8 })
            } else {
                Err(PVEVersionError::InvalidMajor)
            },
            None => Err(PVEVersionError::InvalidMajor),
        }
    }
}

impl PVEVersion {
    /// Reads a version report.
    pub fn from_str(s: &str) -> (r: Result<PVEVersion, PVEVersionError>)
        ensures
            r == version_of(s@),
    {
        let report = chars_of(s);
        let parts = split_on(&report, '/');
        let title = chars_of("pve-manager");
        assert(views(parts@)[0] == parts@[0]@);
        if !same_chars(&parts[0], &title) {
            return Err(PVEVersionError::InvalidTitle);
        }
        if parts.len() < 2 {
            return Err(PVEVersionError::MissingVersion);
        }
        assert(views(parts@)[1] == parts@[1]@);
        let version = &parts[1];
        assert(version@.skip(0) =~= version@);
        let dash = find_from(version, 0, '-');
        let dot = find_from(version, 0, '.');
        let end = if dash <= dot {
            dash
        } else {
            dot
        };
        let field = subvec(version, 0, end);
        assert(field@ =~= major_field(version@));
        match parse_u32(&field) {
            Some(n) => if n <= 255 {
                Ok(PVEVersion { major: n as u8 })
            } else {
                Err(PVEVersionError::InvalidMajor)
            },
            None => Err(PVEVersionError::InvalidMajor),
        }
    }
}

} // verus!
