//! Root-filesystem descriptors: the value of a container's `rootfs` key,
//! `storage-id:volume-id[,option=value...]`, and its resolution to a path.

use vstd::prelude::*;
use crate::subid::SubID;
use crate::text::{
    chars_of, ends_with, has_suffix, lines, lines_of, same_text, split, split_on, string_of,
    trim_end, trim_trailing, views,
};

verus! {

/// Why a root-filesystem descriptor could not be resolved to a path.
#[derive(Clone, Copy, Debug, PartialEq, Eq, Structural)]
pub enum RootfsError {
    /// The descriptor has no `:` between storage and volume.
    InvalidValue,
    /// The storage is not one whose volumes can be located.
    UnsupportedStorage,
    /// No mountpoint in the listing belongs to the volume.
    MountpointNotFound,
}

/// What is known of a container's root filesystem: where it lies and whom
/// it belongs to.
#[derive(Debug)]
pub struct RootfsInfo {
    pub path: String,
    pub uid: u32,
    pub gid: u32,
}

/// What a `RootfsInfo` holds, as plain values.
pub struct RootfsInfoView {
    pub path: Seq<char>,
    pub uid: u32,
    pub gid: u32,
}

impl RootfsInfoView {
    /// The owner of one kind: the user's ID or the group's.
    pub open spec fn owner(self, kind: SubID) -> u32 {
        match kind {
            SubID::UID => self.uid,
            SubID::GID => self.gid,
        }
    }
}

impl View for RootfsInfo {
    type V = RootfsInfoView;

    open spec fn view(&self) -> RootfsInfoView {
        RootfsInfoView { path: self.path@, uid: self.uid, gid: self.gid }
    }
}

impl Clone for RootfsInfo {
    fn clone(&self) -> (r: Self)
        ensures
            r == *self,
    {
        RootfsInfo { path: self.path.clone(), uid: self.uid, gid: self.gid }
    }
}

impl RootfsInfo {
    /// The owner of one kind.
    pub fn owner(&self, kind: SubID) -> (id: u32)
        ensures
            id == self@.owner(kind),
    {
        match kind {
            SubID::UID => self.uid,
            SubID::GID => self.gid,
        }
    }
}

/// Storage and volume of a descriptor: the text before the first `:`, and
/// the text between the first `:` and whichever of `:` and `,` comes next.
/// A descriptor without `:` has neither.
pub open spec fn rootfs_parts(value: Seq<char>) -> Option<(Seq<char>, Seq<char>)> {
    let pieces = split(value, ':');
    if pieces.len() >= 2 {
        Some((pieces[0], split(pieces[1], ',')[0]))
    } else {
        None
    }
}

/// The first line of `lines` that, trailing whitespace removed, ends with
/// `volume`; the line is given without that whitespace.
pub open spec fn first_mountpoint(lines: Seq<Seq<char>>, volume: Seq<char>) -> Option<Seq<char>>
    decreases lines.len(),
{
    if lines.len() == 0 {
        None
    } else if has_suffix(trim_end(lines[0]), volume) {
        Some(trim_end(lines[0]))
    } else {
        first_mountpoint(lines.drop_first(), volume)
    }
}

/// The path that a descriptor resolves to, given the listing of ZFS
/// mountpoints, or the reason why there is none.
pub open spec fn rootfs_path(value: Seq<char>, listing: Seq<char>) -> Result<
    Seq<char>,
    RootfsError,
> {
    match rootfs_parts(value) {
        None => Err(RootfsError::InvalidValue),
        Some((storage, volume)) => if storage == "local-zfs"@ {
            match first_mountpoint(lines(listing), volume) {
                Some(path) => Ok(path),
                None => Err(RootfsError::MountpointNotFound),
            }
        } else {
            Err(RootfsError::UnsupportedStorage)
        },
    }
}

/// Splits a descriptor into storage and volume.
pub fn parse_rootfs_value(value: &str) -> (r: Option<(String, String)>)
    ensures
        match r {
            Some((storage, volume)) => rootfs_parts(value@) == Some((storage@, volume@)),
            None => rootfs_parts(value@).is_none(),
        },
{
    let chars = chars_of(value);
    let pieces = split_on(&chars, ':');
    if pieces.len() < 2 {
        return None;
    }
    let fields = split_on(&pieces[1], ',');
    assert(views(pieces@)[0] == pieces@[0]@);
    assert(views(pieces@)[1] == pieces@[1]@);
    assert(views(fields@)[0] == fields@[0]@);
    Some((string_of(&pieces[0]), string_of(&fields[0])))
}

/// Looks a volume up in a listing of ZFS mountpoints, one per line.
pub fn zfs_volume_to_mountpoint(listing: &str, volume: &str) -> (r: Option<String>)
    ensures
        match r {
            Some(path) => first_mountpoint(lines(listing@), volume@) == Some(path@),
            None => first_mountpoint(lines(listing@), volume@).is_none(),
        },
{
    let text = chars_of(listing);
    let wanted = chars_of(volume);
    let all = lines_of(&text);
    let mut i: usize = 0;
    assert(views(all@).skip(0) =~= views(all@));
    while i < all.len()
        invariant
            i <= all.len(),
            wanted@ == volume@,
            views(all@) == lines(listing@),
            first_mountpoint(lines(listing@), volume@) == first_mountpoint(
                views(all@).skip(i as int),
                volume@,
            ),
        decreases all.len() - i,
    {
        let line = trim_trailing(&all[i]);
        assert(views(all@).skip(i as int)[0] == all@[i as int]@);
        assert(views(all@).skip(i as int).drop_first() =~= views(all@).skip(i + 1));
        if ends_with(&line, &wanted) {
            return Some(string_of(&line));
        }
        i = i + 1;
    }
    None
}

/// Resolves a descriptor to the path of its root filesystem. Only the
/// `local-zfs` storage is known; its volumes are looked up in `listing`, the
/// mountpoints of the host's ZFS datasets, one per line.
pub fn rootfs_value_to_path(value: &str, listing: &str) -> (r: Result<String, RootfsError>)
    ensures
        match r {
            Ok(path) => rootfs_path(value@, listing@) == Ok::<Seq<char>, RootfsError>(path@),
            Err(e) => rootfs_path(value@, listing@) == Err::<Seq<char>, RootfsError>(e),
        },
{
    match parse_rootfs_value(value) {
        None => Err(RootfsError::InvalidValue),
        Some((storage, volume)) => {
            if same_text(storage.as_str(), "local-zfs") {
                match zfs_volume_to_mountpoint(listing, volume.as_str()) {
                    Some(path) => Ok(path),
                    None => Err(RootfsError::MountpointNotFound),
                }
            } else {
                Err(RootfsError::UnsupportedStorage)
            }
        },
    }
}

} // verus!
