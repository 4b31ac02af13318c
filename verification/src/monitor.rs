//! Which files are watched, and what a change to one of them asks for.

use vstd::prelude::*;
use crate::event::{event_views, AppEvent, AppEventView, ChangeView, FileSystemChangeKind};
use crate::rootfs::{RootfsInfo, RootfsInfoView};
use crate::subid::{ETC_SUBGID, ETC_SUBUID};
use crate::text::{
    all_digits, chars_of, ends_with, has_suffix, is_digit, same_text, split, split_on, string_of,
    string_views, views,
};

verus! {

/// The last component of a path: what follows its last `/`.
pub open spec fn file_name(path: Seq<char>) -> Seq<char> {
    split(path, '/').last()
}

/// A container configuration's file name: one or more ASCII digits and
/// the extension `.conf`.
pub open spec fn is_container_conf(name: Seq<char>) -> bool {
    &&& has_suffix(name, ".conf"@)
    &&& name.len() > ".conf"@.len()
    &&& all_digits(name.take(name.len() - ".conf"@.len()))
}

/// The files whose changes matter: the two host files and every container
/// configuration, wherever it lies.
pub open spec fn is_watched(path: Seq<char>) -> bool {
    path == ETC_SUBGID@ || path == ETC_SUBUID@ || is_container_conf(file_name(path))
}

/// The last component of a path.
pub fn file_name_of(path: &str) -> (name: String)
    ensures
        name@ == file_name(path@),
{
    let chars = chars_of(path);
    let pieces = split_on(&chars, '/');
    let last = pieces.len() - 1;
    assert(views(pieces@).last() == pieces@[last as int]@);
    string_of(&pieces[last])
}

/// Tells whether `name` names a container configuration.
pub fn is_container_conf_name(name: &str) -> (r: bool)
    ensures
        r == is_container_conf(name@),
{
    let chars = chars_of(name);
    let ext = chars_of(".conf");
    proof {
        reveal_strlit(".conf");
    }
    if !ends_with(&chars, &ext) || chars.len() <= ext.len() {
        return false;
    }
    let stem = chars.len() - ext.len();
    let mut i: usize = 0;
    while i < stem
        invariant
            i <= stem < chars.len(),
            chars@ == name@,
            stem == chars@.len() - ".conf"@.len(),
            forall|j: int| 0 <= j < i ==> is_digit(chars@[j]),
        decreases stem - i,
    {
        let c = chars[i];
        if !('0' <= c && c <= '9') {
            assert(!is_digit(chars@.take(stem as int)[i as int]));
            return false;
        }
        i = i + 1;
    }
    assert forall|j: int| 0 <= j < stem implies is_digit(
        #[trigger] chars@.take(stem as int)[j],
    ) by {
        assert(chars@.take(stem as int)[j] == chars@[j]);
    }
    true
}

/// Tells whether a change to `path` matters.
pub fn is_valid_file(path: &str) -> (r: bool)
    ensures
        r == is_watched(path@),
{
    if same_text(path, ETC_SUBGID) || same_text(path, ETC_SUBUID) {
        return true;
    }
    let name = file_name_of(path);
    is_container_conf_name(name.as_str())
}

/// What happened to a file, as far as it matters here.
#[derive(Clone, Copy, Debug, PartialEq, Eq, Structural)]
pub enum ChangeKind {
    /// A file was created.
    CreateFile,
    /// The content of a file was changed.
    ModifyData,
    /// A file was given another name.
    ModifyName,
    /// A file was removed.
    RemoveFile,
    /// Anything else.
    Other,
}

impl ChangeKind {
    /// A change after which the file is to be read.
    pub open spec fn asks_for_read(self) -> bool {
        self == ChangeKind::CreateFile || self == ChangeKind::ModifyData
    }

    /// A change after which the file is gone.
    pub open spec fn tells_removal(self) -> bool {
        self == ChangeKind::ModifyName || self == ChangeKind::RemoveFile
    }
}

/// The files to read after a change of `kind` to the first `n` of `paths`:
/// those that are watched, in their order.
pub open spec fn read_requests(kind: ChangeKind, paths: Seq<Seq<char>>, n: int) -> Seq<Seq<char>>
    decreases n,
{
    if n <= 0 || n > paths.len() {
        Seq::empty()
    } else if kind.asks_for_read() && is_watched(paths[n - 1]) {
        read_requests(kind, paths, n - 1).push(paths[n - 1])
    } else {
        read_requests(kind, paths, n - 1)
    }
}

/// The removals to report after a change of `kind` to the first `n` of
/// `paths`: one for each that is watched, in their order.
pub open spec fn removal_events(kind: ChangeKind, paths: Seq<Seq<char>>, n: int) -> Seq<
    AppEventView,
>
    decreases n,
{
    if n <= 0 || n > paths.len() {
        Seq::empty()
    } else if kind.tells_removal() && is_watched(paths[n - 1]) {
        removal_events(kind, paths, n - 1).push(
            AppEventView::FileSystemChanged(ChangeView::Remove(paths[n - 1])),
        )
    } else {
        removal_events(kind, paths, n - 1)
    }
}

/// Sorts the changes that the file system reports into files to read and
/// removals to tell the application of. Both are queued here, for the
/// caller to send on.
#[derive(Debug)]
pub struct FileEventHandler {
    app_tx: Vec<AppEvent>,
    file_tx: Vec<String>,
}

impl FileEventHandler {
    /// The events that wait to be sent to the application.
    pub closed spec fn app_events(&self) -> Seq<AppEventView> {
        event_views(self.app_tx@)
    }

    /// The paths that wait to be sent to the reader.
    pub closed spec fn file_requests(&self) -> Seq<Seq<char>> {
        string_views(self.file_tx@)
    }

    /// A handler that queues behind what `app_tx` and `file_tx` hold.
    pub fn new(app_tx: Vec<AppEvent>, file_tx: Vec<String>) -> (handler: Self)
        ensures
            handler.app_events() == event_views(app_tx@),
            handler.file_requests() == string_views(file_tx@),
    {
        Self { app_tx, file_tx }
    }

    /// Takes in one report: a change of `kind` to each of `paths`. Paths
    /// that are not watched are passed over. A watched file that was
    /// created or written is queued for reading; for one that was removed
    /// or renamed a removal is queued; other changes ask for nothing.
    pub fn handle_event(&mut self, kind: ChangeKind, paths: &Vec<String>)
        ensures
            final(self).file_requests() == old(self).file_requests() + read_requests(
                kind,
                string_views(paths@),
                paths@.len() as int,
            ),
            final(self).app_events() == old(self).app_events() + removal_events(
                kind,
                string_views(paths@),
                paths@.len() as int,
            ),
    {
        let ghost files = string_views(self.file_tx@);
        let ghost events = event_views(self.app_tx@);
        let ghost changed = string_views(paths@);
        let mut i: usize = 0;
        assert(string_views(self.file_tx@) =~= files + read_requests(kind, changed, 0));
        assert(event_views(self.app_tx@) =~= events + removal_events(kind, changed, 0));
        while i < paths.len()
            invariant
                i <= paths.len(),
                changed == string_views(paths@),
                string_views(self.file_tx@) == files + read_requests(kind, changed, i as int),
                event_views(self.app_tx@) == events + removal_events(kind, changed, i as int),
            decreases paths.len() - i,
        {
            let path = &paths[i];
            assert(changed[i as int] == path@);
            let ghost queued = self.file_tx@;
            let ghost told = self.app_tx@;
            if is_valid_file(path.as_str()) {
                match kind {
                    ChangeKind::CreateFile | ChangeKind::ModifyData => {
                        self.file_tx.push(path.clone());
                        assert(string_views(self.file_tx@) =~= string_views(queued).push(path@));
                    },
                    ChangeKind::ModifyName | ChangeKind::RemoveFile => {
                        let event = AppEvent::FileSystemChanged(
                            FileSystemChangeKind::Remove(path.clone()),
                        );
                        self.app_tx.push(event);
                        assert(event_views(self.app_tx@) =~= event_views(told).push(event@));
                    },
                    ChangeKind::Other => {},
                }
            }
            assert(string_views(self.file_tx@) =~= files + read_requests(kind, changed, i + 1));
            assert(event_views(self.app_tx@) =~= events + removal_events(kind, changed, i + 1));
            i = i + 1;
        }
    }

    /// Hands out the paths that wait to be sent to the reader.
    pub fn take_file_requests(&mut self) -> (requests: Vec<String>)
        ensures
            string_views(requests@) == old(self).file_requests(),
            final(self).file_requests() == Seq::<Seq<char>>::empty(),
            final(self).app_events() == old(self).app_events(),
    {
        let mut requests: Vec<String> = Vec::new();
        core::mem::swap(&mut self.file_tx, &mut requests);
        assert(string_views(self.file_tx@) =~= Seq::<Seq<char>>::empty());
        requests
    }

    /// Hands out the events that wait to be sent to the application.
    pub fn take_app_events(&mut self) -> (events: Vec<AppEvent>)
        ensures
            event_views(events@) == old(self).app_events(),
            final(self).app_events() == Seq::<AppEventView>::empty(),
            final(self).file_requests() == old(self).file_requests(),
    {
        let mut events: Vec<AppEvent> = Vec::new();
        core::mem::swap(&mut self.app_tx, &mut events);
        assert(event_views(self.app_tx@) =~= Seq::<AppEventView>::empty());
        events
    }
}

/// A root filesystem whose owner is watched: its descriptor, and what was
/// known of it when it was last looked at.
#[derive(Debug)]
pub struct WatchedRootfs {
    pub descriptor: String,
    pub info: RootfsInfo,
}

/// What a `WatchedRootfs` holds, as plain values.
pub struct WatchedView {
    pub descriptor: Seq<char>,
    pub info: RootfsInfoView,
}

impl View for WatchedRootfs {
    type V = WatchedView;

    open spec fn view(&self) -> WatchedView {
        WatchedView { descriptor: self.descriptor@, info: self.info@ }
    }
}

/// The root filesystems whose owners are watched. The file system reports
/// no change of owner, so each is looked at from time to time, and what is
/// found is held against what was found before.
#[derive(Debug)]
pub struct OwnershipWatch {
    watched: Vec<WatchedRootfs>,
}

/// The place of the root filesystem at `path` among the first `n` watched,
/// or `n`.
pub open spec fn place_of(watched: Seq<WatchedView>, path: Seq<char>, n: int) -> int
    decreases n,
{
    if n <= 0 || n > watched.len() {
        0
    } else if place_of(watched, path, n - 1) < n - 1 {
        place_of(watched, path, n - 1)
    } else if watched[n - 1].info.path == path {
        n - 1
    } else {
        n
    }
}

/// What is watched after a root filesystem was registered: it stands in
/// the place of the one that was watched at its path, or behind the others
/// if its path was not watched.
pub open spec fn registered(watched: Seq<WatchedView>, entry: WatchedView) -> Seq<WatchedView> {
    let at = place_of(watched, entry.info.path, watched.len() as int);
    if 0 <= at < watched.len() {
        watched.update(at, entry)
    } else {
        watched.push(entry)
    }
}

/// What is known of a watched root filesystem after it was found to
/// belong to `uid` and `gid`.
pub open spec fn found_owner(watched: WatchedView, uid: u32, gid: u32) -> WatchedView {
    WatchedView {
        descriptor: watched.descriptor,
        info: RootfsInfoView { path: watched.info.path, uid, gid },
    }
}

/// The views of a sequence of watched root filesystems.
pub open spec fn watched_views(watched: Seq<WatchedRootfs>) -> Seq<WatchedView> {
    watched.map_values(|w: WatchedRootfs| w@)
}

impl View for OwnershipWatch {
    type V = Seq<WatchedView>;

    /// The root filesystems that are watched, in the order in which their
    /// paths were first registered.
    closed spec fn view(&self) -> Seq<WatchedView> {
        watched_views(self.watched@)
    }
}

impl OwnershipWatch {
    /// Nothing is watched.
    pub fn new() -> (watch: Self)
        ensures
            watch@ == Seq::<WatchedView>::empty(),
    {
        let watch = OwnershipWatch { watched: Vec::new() };
        assert(watched_views(watch.watched@) =~= Seq::<WatchedView>::empty());
        watch
    }

    /// The number of root filesystems that are watched.
    pub fn len(&self) -> (n: usize)
        ensures
            n == self@.len(),
    {
        self.watched.len()
    }

    /// The path of the root filesystem at place `at`, if there is one.
    pub fn path(&self, at: usize) -> (path: Option<&str>)
        ensures
            match path {
                Some(p) => at < self@.len() && p@ == self@[at as int].info.path,
                None => at >= self@.len(),
            },
    {
        if at < self.watched.len() {
            Some(self.watched[at].info.path.as_str())
        } else {
            None
        }
    }

    /// Starts to watch a root filesystem, or notes what it is now known as
    /// if its path is watched already. Returns the change that the
    /// application is to be told of.
    pub fn watch_rootfs(&mut self, descriptor: &str, info: RootfsInfo) -> (change:
        FileSystemChangeKind)
        ensures
            change@ == ChangeView::UpdateDir(descriptor@, info@),
            final(self)@ == registered(
                old(self)@,
                WatchedView { descriptor: descriptor@, info: info@ },
            ),
    {
        let ghost before = watched_views(self.watched@);
        let mut at: usize = 0;
        while at < self.watched.len() && !same_text(
            self.watched[at].info.path.as_str(),
            info.path.as_str(),
        )
            invariant
                at <= self.watched.len(),
                before == watched_views(self.watched@),
                place_of(before, info.path@, at as int) == at,
            decreases self.watched.len() - at,
        {
            at = at + 1;
        }
        proof {
            lemma_place_found(before, info.path@, at as int, before.len() as int);
        }
        let entry = WatchedRootfs { descriptor: descriptor.to_owned(), info: info.clone() };
        if at < self.watched.len() {
            self.watched.remove(at);
            self.watched.insert(at, entry);
            assert(watched_views(self.watched@) =~= before.update(at as int, entry@));
        } else {
            self.watched.push(entry);
            assert(watched_views(self.watched@) =~= before.push(entry@));
        }
        FileSystemChangeKind::UpdateDir(descriptor.to_owned(), info)
    }

    /// Holds the owner that was found for the root filesystem at place `at`
    /// against the owner that was found before. If user or group differ,
    /// the new owner is noted and the change is returned for the
    /// application to be told of. Where nothing is watched at `at`, nothing
    /// happens.
    pub fn observe(&mut self, at: usize, uid: u32, gid: u32) -> (change: Option<
        FileSystemChangeKind,
    >)
        ensures
            final(self)@ == if at < old(self)@.len() {
                old(self)@.update(at as int, found_owner(old(self)@[at as int], uid, gid))
            } else {
                old(self)@
            },
            match change {
                None => at >= old(self)@.len() || (old(self)@[at as int].info.uid == uid && old(
                    self,
                )@[at as int].info.gid == gid),
                Some(c) => at < old(self)@.len() && (old(self)@[at as int].info.uid != uid || old(
                    self,
                )@[at as int].info.gid != gid) && c@ == ChangeView::UpdateDir(
                    old(self)@[at as int].descriptor,
                    found_owner(old(self)@[at as int], uid, gid).info,
                ),
            },
    {
        if at >= self.watched.len() {
            return None;
        }
        let ghost before = watched_views(self.watched@);
        assert(before[at as int] == self.watched@[at as int]@);
        if self.watched[at].info.uid == uid && self.watched[at].info.gid == gid {
            assert(before =~= before.update(at as int, found_owner(before[at as int], uid, gid)));
            return None;
        }
        let seen = self.watched.remove(at);
        let info = RootfsInfo { path: seen.info.path, uid, gid };
        let change = FileSystemChangeKind::UpdateDir(seen.descriptor.clone(), info.clone());
        let entry = WatchedRootfs { descriptor: seen.descriptor, info };
        self.watched.insert(at, entry);
        assert(watched_views(self.watched@) =~= before.update(at as int, entry@));
        Some(change)
    }
}

/// Once a path is found at a place, that is its place.
pub proof fn lemma_place_found(watched: Seq<WatchedView>, path: Seq<char>, at: int, n: int)
    requires
        0 <= at <= n <= watched.len(),
        place_of(watched, path, at) == at,
        at < watched.len() ==> watched[at].info.path == path,
    ensures
        place_of(watched, path, n) == at,
    decreases n - at,
{
    if n > at {
        lemma_place_found(watched, path, at, n - 1);
    }
}

} // verus!
