//! What an evaluation reports.

use vstd::prelude::*;
use crate::subid::SubID;

verus! {

/// The messages of the findings.
pub const DUPLICATE_USER: &'static str = "Cannot have multiple entries for the same user";

pub const DUPLICATE_GROUP: &'static str = "Cannot have multiple entries for the same group";

pub const NO_DUPLICATES: &'static str = "No duplicate ids found in subuid/subgid mappings";

pub const UID_OUT_OF_RANGE: &'static str =
    "LXC config's host sub uid range outside of host mapping range";

pub const GID_OUT_OF_RANGE: &'static str =
    "LXC config's host sub gid range outside of host mapping range";

pub const UID_NOT_SET: &'static str = "lxc.idmap for uid is not set in config";

pub const GID_NOT_SET: &'static str = "lxc.idmap for gid is not set in config";

pub const ROOTFS_UID_MISMATCH: &'static str = "Rootfs uid does not match host mapping";

pub const ROOTFS_GID_MISMATCH: &'static str = "Rootfs gid does not match host mapping";

/// Whether a finding reports that something is in order, or that it is not.
#[derive(Clone, Copy, Debug, PartialEq, Eq, Structural)]
pub enum FindingKind {
    Good,
    Bad,
}

/// One result of an evaluation, with what it is about: grants of the host,
/// by name and kind; ID mappings of containers, by the configuration's file
/// name and kind; root filesystems, by descriptor.
#[derive(Debug)]
pub struct Finding {
    pub kind: FindingKind,
    pub message: &'static str,
    pub host_mapping_highlights: Vec<(String, SubID)>,
    pub lxc_config_mapping_highlights: Vec<(String, SubID)>,
    pub rootfs_highlights: Vec<String>,
}

/// What a `Finding` holds, as plain values.
pub struct FindingView {
    pub kind: FindingKind,
    pub message: Seq<char>,
    pub host_mapping_highlights: Seq<(Seq<char>, SubID)>,
    pub lxc_config_mapping_highlights: Seq<(Seq<char>, SubID)>,
    pub rootfs_highlights: Seq<Seq<char>>,
}

/// The views of a sequence of highlights.
pub open spec fn highlight_views(v: Seq<(String, SubID)>) -> Seq<(Seq<char>, SubID)> {
    v.map_values(|h: (String, SubID)| (h.0@, h.1))
}

impl View for Finding {
    type V = FindingView;

    open spec fn view(&self) -> FindingView {
        FindingView {
            kind: self.kind,
            message: self.message@,
            host_mapping_highlights: highlight_views(self.host_mapping_highlights@),
            lxc_config_mapping_highlights: highlight_views(self.lxc_config_mapping_highlights@),
            rootfs_highlights: self.rootfs_highlights@.map_values(|s: String| s@),
        }
    }
}

/// The views of a sequence of findings.
pub open spec fn finding_views(v: Seq<Finding>) -> Seq<FindingView> {
    v.map_values(|f: Finding| f@)
}

/// A name has more than one grant of one kind.
pub open spec fn duplicate_finding(name: Seq<char>, kind: SubID) -> FindingView {
    FindingView {
        kind: FindingKind::Bad,
        message: match kind {
            SubID::UID => DUPLICATE_USER@,
            SubID::GID => DUPLICATE_GROUP@,
        },
        host_mapping_highlights: seq![(name, kind)],
        lxc_config_mapping_highlights: Seq::empty(),
        rootfs_highlights: Seq::empty(),
    }
}

/// No name has more than one grant of one kind.
pub open spec fn no_duplicates_finding() -> FindingView {
    FindingView {
        kind: FindingKind::Good,
        message: NO_DUPLICATES@,
        host_mapping_highlights: Seq::empty(),
        lxc_config_mapping_highlights: Seq::empty(),
        rootfs_highlights: Seq::empty(),
    }
}

/// An ID mapping of the configuration `filename` leaves the range that the
/// host grants to `name`.
pub open spec fn out_of_range_finding(
    filename: Seq<char>,
    name: Seq<char>,
    kind: SubID,
) -> FindingView {
    FindingView {
        kind: FindingKind::Bad,
        message: match kind {
            SubID::UID => UID_OUT_OF_RANGE@,
            SubID::GID => GID_OUT_OF_RANGE@,
        },
        host_mapping_highlights: seq![(name, kind)],
        lxc_config_mapping_highlights: seq![(filename, kind)],
        rootfs_highlights: Seq::empty(),
    }
}

/// The configuration `filename` has no ID mapping of one kind.
pub open spec fn not_set_finding(filename: Seq<char>, kind: SubID) -> FindingView {
    FindingView {
        kind: FindingKind::Bad,
        message: match kind {
            SubID::UID => UID_NOT_SET@,
            SubID::GID => GID_NOT_SET@,
        },
        host_mapping_highlights: Seq::empty(),
        lxc_config_mapping_highlights: seq![(filename, kind)],
        rootfs_highlights: Seq::empty(),
    }
}

/// The root filesystem of the container `filename` belongs to another ID
/// than the one its ID mapping starts at.
pub open spec fn rootfs_mismatch_finding(filename: Seq<char>, kind: SubID) -> FindingView {
    FindingView {
        kind: FindingKind::Bad,
        message: match kind {
            SubID::UID => ROOTFS_UID_MISMATCH@,
            SubID::GID => ROOTFS_GID_MISMATCH@,
        },
        host_mapping_highlights: Seq::empty(),
        lxc_config_mapping_highlights: seq![(filename, kind)],
        rootfs_highlights: Seq::empty(),
    }
}

/// A list with one highlight.
fn one_highlight(name: &str, kind: SubID) -> (r: Vec<(String, SubID)>)
    ensures
        highlight_views(r@) == seq![(name@, kind)],
{
    let mut r: Vec<(String, SubID)> = Vec::new();
    r.push((name.to_owned(), kind));
    assert(highlight_views(r@) =~= seq![(name@, kind)]);
    r
}

/// A list without highlights.
fn no_highlights() -> (r: Vec<(String, SubID)>)
    ensures
        highlight_views(r@) == Seq::<(Seq<char>, SubID)>::empty(),
{
    let r: Vec<(String, SubID)> = Vec::new();
    assert(highlight_views(r@) =~= Seq::<(Seq<char>, SubID)>::empty());
    r
}

/// A list without descriptors.
fn no_rootfs() -> (r: Vec<String>)
    ensures
        r@.map_values(|s: String| s@) == Seq::<Seq<char>>::empty(),
{
    let r: Vec<String> = Vec::new();
    assert(r@.map_values(|s: String| s@) =~= Seq::<Seq<char>>::empty());
    r
}

impl Finding {
    /// The finding that `name` has more than one grant of one kind.
    pub fn duplicate(name: &str, kind: SubID) -> (f: Finding)
        ensures
            f@ == duplicate_finding(name@, kind),
    {
        Finding {
            kind: FindingKind::Bad,
            message: match kind {
                SubID::UID => DUPLICATE_USER,
                SubID::GID => DUPLICATE_GROUP,
            },
            host_mapping_highlights: one_highlight(name, kind),
            lxc_config_mapping_highlights: no_highlights(),
            rootfs_highlights: no_rootfs(),
        }
    }

    /// The finding that no name has more than one grant of one kind.
    pub fn no_duplicates() -> (f: Finding)
        ensures
            f@ == no_duplicates_finding(),
    {
        Finding {
            kind: FindingKind::Good,
            message: NO_DUPLICATES,
            host_mapping_highlights: no_highlights(),
            lxc_config_mapping_highlights: no_highlights(),
            rootfs_highlights: no_rootfs(),
        }
    }

    /// The finding that an ID mapping of `filename` leaves the range that
    /// the host grants to `name`.
    pub fn out_of_range(filename: &str, name: &str, kind: SubID) -> (f: Finding)
        ensures
            f@ == out_of_range_finding(filename@, name@, kind),
    {
        Finding {
            kind: FindingKind::Bad,
            message: match kind {
                SubID::UID => UID_OUT_OF_RANGE,
                SubID::GID => GID_OUT_OF_RANGE,
            },
            host_mapping_highlights: one_highlight(name, kind),
            lxc_config_mapping_highlights: one_highlight(filename, kind),
            rootfs_highlights: no_rootfs(),
        }
    }

    /// The finding that `filename` has no ID mapping of one kind.
    pub fn not_set(filename: &str, kind: SubID) -> (f: Finding)
        ensures
            f@ == not_set_finding(filename@, kind),
    {
        Finding {
            kind: FindingKind::Bad,
            message: match kind {
                SubID::UID => UID_NOT_SET,
                SubID::GID => GID_NOT_SET,
            },
            host_mapping_highlights: no_highlights(),
            lxc_config_mapping_highlights: one_highlight(filename, kind),
            rootfs_highlights: no_rootfs(),
        }
    }

    /// The finding that the root filesystem of `filename` belongs to
    /// another ID than the one its ID mapping starts at.
    pub fn rootfs_mismatch(filename: &str, kind: SubID) -> (f: Finding)
        ensures
            f@ == rootfs_mismatch_finding(filename@, kind),
    {
        Finding {
            kind: FindingKind::Bad,
            message: match kind {
                SubID::UID => ROOTFS_UID_MISMATCH,
                SubID::GID => ROOTFS_GID_MISMATCH,
            },
            host_mapping_highlights: no_highlights(),
            lxc_config_mapping_highlights: one_highlight(filename, kind),
            rootfs_highlights: no_rootfs(),
        }
    }

    /// The finding's message.
    pub fn to_string(&self) -> (s: String)
        ensures
            s@ == self.message@,
    {
        self.message.to_owned()
    }
}

} // verus!
