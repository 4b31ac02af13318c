//! How the state follows the files: what a change to a watched file does
//! to the host's grants, to the container configurations and to what is
//! known of the root filesystems.

use vstd::prelude::*;
use vstd::seq_lib::{to_multiset_contains, to_multiset_len};
use crate::event::{ChangeView, FileSystemChangeKind};
use crate::lxc::config::{parse_text, ConfLine, Config};
use crate::metadata::Metadata;
use crate::monitor::{file_name, file_name_of};
use crate::rootfs::{RootfsInfo, RootfsInfoView};
use crate::state::{
    config_entries, config_views, configs_insert, configs_shift_remove, configs_sort_keys,
    key_index, lemma_key_index_bounds, rootfs_descriptor, rootfs_entries, rootfs_insert,
    rootfs_shift_remove, rootfs_views, same_entries, sorted_by_key, text_le, unique_keys,
    upserted, value_of, without, State,
};
use crate::subid::{
    parse_grants, parse_subid_map, Grant, SubID, SubIDError, ETC_SUBGID, ETC_SUBUID,
};
use crate::text::{chars_of, has_prefix, lines, same_text, starts_with};

verus! {

/// Why a change could not be taken in.
#[derive(Clone, Copy, Debug, PartialEq, Eq, Structural)]
pub enum StateError {
    /// The path ends in `/` or is empty: it names no file.
    InvalidFileName,
    /// A file of grants could not be read.
    SubID(SubIDError),
}

/// What became of a configuration that was to be unloaded.
#[derive(Clone, Copy, Debug, PartialEq, Eq, Structural)]
pub enum Unloaded {
    /// No configuration of that name was loaded; nothing has changed.
    NotLoaded,
    /// The configuration was removed, and with it what was known of its
    /// root filesystem, if it names one.
    Removed,
    /// The configuration was removed; it names a root filesystem of which
    /// nothing was known.
    RemovedWithoutRootfs,
}

/// What a change did to the state.
#[derive(Debug, PartialEq, Eq)]
pub enum Outcome {
    /// A configuration was loaded; where it names a root filesystem, this
    /// is its descriptor, whose owner is to be watched.
    Loaded(Option<String>),
    Unloaded(Unloaded),
    /// The grants of one kind were replaced.
    HostUpdated(SubID),
    /// What is known of a root filesystem was noted.
    RootfsUpdated,
    /// The change is to a file that the state does not follow.
    Ignored,
}

/// Tells whether `path` lies in the directory `dir`, or is `dir`.
pub open spec fn is_under(path: Seq<char>, dir: Seq<char>) -> bool {
    dir.len() == 0 || (has_prefix(path, dir) && (path.len() == dir.len() || dir.last() == '/'
        || path[dir.len() as int] == '/'))
}

/// The view of an optional descriptor.
pub open spec fn descriptor_view(descriptor: Option<String>) -> Option<Seq<char>> {
    match descriptor {
        Some(d) => Some(d@),
        None => None,
    }
}

/// Sequences with the same keys in the same places find a key in the same
/// place.
pub proof fn lemma_same_keys_index<V, W>(
    a: Seq<(Seq<char>, V)>,
    b: Seq<(Seq<char>, W)>,
    key: Seq<char>,
)
    requires
        a.len() == b.len(),
        forall|i: int| 0 <= i < a.len() ==> a[i].0 == b[i].0,
    ensures
        key_index(a, key) == key_index(b, key),
    decreases a.len(),
{
    if a.len() > 0 {
        assert(a[0].0 == b[0].0);
        let x = a.drop_first();
        let y = b.drop_first();
        assert forall|i: int| 0 <= i < x.len() implies x[i].0 == y[i].0 by {
            assert(x[i] == a[i + 1]);
            assert(y[i] == b[i + 1]);
        }
        lemma_same_keys_index(x, y, key);
    }
}

/// What `key_index` returns: the first place of the key.
pub proof fn lemma_key_index<V>(entries: Seq<(Seq<char>, V)>, key: Seq<char>)
    ensures
        0 <= key_index(entries, key) <= entries.len(),
        key_index(entries, key) < entries.len() ==> entries[key_index(entries, key)].0 == key,
        forall|i: int| 0 <= i < key_index(entries, key) ==> entries[i].0 != key,
    decreases entries.len(),
{
    if entries.len() > 0 && entries[0].0 != key {
        let rest = entries.drop_first();
        lemma_key_index(rest, key);
        assert forall|i: int| 0 <= i < key_index(entries, key) implies entries[i].0 != key by {
            if i > 0 {
                assert(entries[i] == rest[i - 1]);
            }
        }
    }
}

/// The views of configurations after one was put in are the views before
/// with its view put in.
pub proof fn lemma_config_views_upserted(
    entries: Seq<(Seq<char>, Config)>,
    key: Seq<char>,
    value: Config,
)
    ensures
        config_views(upserted(entries, key, value)) == upserted(config_views(entries), key, value@),
{
    lemma_same_keys_index(entries, config_views(entries), key);
    lemma_key_index(entries, key);
    assert(config_views(upserted(entries, key, value)) =~= upserted(
        config_views(entries),
        key,
        value@,
    ));
}

/// The views of configurations after one was taken out are the views
/// before with its view taken out.
pub proof fn lemma_config_views_without(entries: Seq<(Seq<char>, Config)>, key: Seq<char>)
    ensures
        config_views(without(entries, key)) == without(config_views(entries), key),
        match value_of(entries, key) {
            Some(config) => value_of(config_views(entries), key) == Some(config@),
            None => value_of(config_views(entries), key).is_none(),
        },
{
    lemma_same_keys_index(entries, config_views(entries), key);
    lemma_key_index(entries, key);
    assert(config_views(without(entries, key)) =~= without(config_views(entries), key));
}

/// The views of root filesystems after one was put in are the views before
/// with its view put in.
pub proof fn lemma_rootfs_views_upserted(
    entries: Seq<(Seq<char>, RootfsInfo)>,
    key: Seq<char>,
    value: RootfsInfo,
)
    ensures
        rootfs_views(upserted(entries, key, value)) == upserted(rootfs_views(entries), key, value@),
{
    lemma_same_keys_index(entries, rootfs_views(entries), key);
    lemma_key_index(entries, key);
    assert(rootfs_views(upserted(entries, key, value)) =~= upserted(
        rootfs_views(entries),
        key,
        value@,
    ));
}

/// The views of root filesystems after one was taken out are the views
/// before with its view taken out.
pub proof fn lemma_rootfs_views_without(entries: Seq<(Seq<char>, RootfsInfo)>, key: Seq<char>)
    ensures
        rootfs_views(without(entries, key)) == without(rootfs_views(entries), key),
        value_of(entries, key).is_some() == value_of(rootfs_views(entries), key).is_some(),
{
    lemma_same_keys_index(entries, rootfs_views(entries), key);
    lemma_key_index(entries, key);
    assert(rootfs_views(without(entries, key)) =~= without(rootfs_views(entries), key));
}

/// Configurations that are the same as a multiset give the same views,
/// in whatever order, and as many.
pub proof fn lemma_same_configs(a: Seq<(Seq<char>, Config)>, b: Seq<(Seq<char>, Config)>)
    requires
        a.to_multiset() == b.to_multiset(),
    ensures
        same_entries(config_views(a), config_views(b)),
        a.len() == b.len(),
{
    to_multiset_len(a);
    to_multiset_len(b);
    assert forall|e: (Seq<char>, Seq<ConfLine>)| config_views(a).contains(e) == config_views(
        b,
    ).contains(e) by {
        if config_views(a).contains(e) {
            let i = choose|i: int| 0 <= i < config_views(a).len() && config_views(a)[i] == e;
            to_multiset_contains(a, a[i]);
            to_multiset_contains(b, a[i]);
            assert(a.contains(a[i]));
            let j = choose|j: int| 0 <= j < b.len() && b[j] == a[i];
            assert(config_views(b)[j] == e);
        }
        if config_views(b).contains(e) {
            let i = choose|i: int| 0 <= i < config_views(b).len() && config_views(b)[i] == e;
            to_multiset_contains(a, b[i]);
            to_multiset_contains(b, b[i]);
            assert(b.contains(b[i]));
            let j = choose|j: int| 0 <= j < a.len() && a[j] == b[i];
            assert(config_views(a)[j] == e);
        }
    }
}

/// Tells whether `path` lies in the directory `dir`, or is `dir`.
pub fn path_is_under(path: &str, dir: &str) -> (r: bool)
    ensures
        r == is_under(path@, dir@),
{
    let p = chars_of(path);
    let d = chars_of(dir);
    if d.len() == 0 {
        return true;
    }
    if !starts_with(&p, &d) {
        return false;
    }
    p.len() == d.len() || d[d.len() - 1] == '/' || p[d.len()] == '/'
}

impl State {
    /// Tells whether everything but the container configurations is as it
    /// is in `before`.
    pub open spec fn only_configs_differ(&self, before: State) -> bool {
        &&& self.is_running == before.is_running
        &&& self.findings == before.findings
        &&& self.selected_finding == before.selected_finding
        &&& self.host_mapping == before.host_mapping
        &&& self.rootfs_info == before.rootfs_info
        &&& self.show_fix_popup == before.show_fix_popup
        &&& self.show_settings_page == before.show_settings_page
        &&& self.show_logs_page == before.show_logs_page
    }

    /// Tells whether everything but the container configurations and what
    /// is known of the root filesystems is as it is in `before`.
    pub open spec fn only_containers_differ(&self, before: State) -> bool {
        &&& self.is_running == before.is_running
        &&& self.findings == before.findings
        &&& self.selected_finding == before.selected_finding
        &&& self.host_mapping == before.host_mapping
        &&& self.show_fix_popup == before.show_fix_popup
        &&& self.show_settings_page == before.show_settings_page
        &&& self.show_logs_page == before.show_logs_page
    }

    /// Tells whether everything but the host's grants is as it is in
    /// `before`.
    pub open spec fn only_host_differs(&self, before: State) -> bool {
        &&& self.is_running == before.is_running
        &&& self.findings == before.findings
        &&& self.selected_finding == before.selected_finding
        &&& self.lxc_configs == before.lxc_configs
        &&& self.rootfs_info == before.rootfs_info
        &&& self.show_fix_popup == before.show_fix_popup
        &&& self.show_settings_page == before.show_settings_page
        &&& self.show_logs_page == before.show_logs_page
    }

    /// Tells whether this state holds the configurations of `before` and
    /// the configuration `lines` under `name`, in the order of the names.
    pub open spec fn has_loaded(
        &self,
        before: State,
        name: Seq<char>,
        lines: Seq<ConfLine>,
    ) -> bool {
        &&& same_entries(self.configs(), upserted(before.configs(), name, lines))
        &&& self.configs().len() == upserted(before.configs(), name, lines).len()
        &&& sorted_by_key(self.configs())
        &&& unique_keys(self.configs())
        &&& self.only_configs_differ(before)
    }

    /// What `load_container_id_map` does: a path that names no file is
    /// refused and nothing changes; otherwise the configuration is loaded
    /// and its root-filesystem descriptor returned.
    pub open spec fn after_load(
        &self,
        before: State,
        path: Seq<char>,
        content: Seq<char>,
        r: Result<Option<String>, StateError>,
    ) -> bool {
        match r {
            Ok(watch) => file_name(path).len() > 0 && self.has_loaded(
                before,
                file_name(path),
                parse_text(content),
            ) && descriptor_view(watch) == rootfs_descriptor(parse_text(content)),
            Err(e) => e == StateError::InvalidFileName && file_name(path).len() == 0 && *self
                == before,
        }
    }

    /// What `unload_container_id_map` does: a path that names no file is
    /// refused and nothing changes; otherwise the configuration of that
    /// name leaves, and with it what is known of the root filesystem that
    /// it names. The outcome tells which of these were there.
    pub open spec fn after_unload(
        &self,
        before: State,
        path: Seq<char>,
        r: Result<Unloaded, StateError>,
    ) -> bool {
        &&& self.only_containers_differ(before)
        &&& match r {
            Err(e) => e == StateError::InvalidFileName && file_name(path).len() == 0 && *self
                == before,
            Ok(outcome) => file_name(path).len() > 0 && self.configs() == without(
                before.configs(),
                file_name(path),
            ) && match value_of(before.configs(), file_name(path)) {
                None => outcome == Unloaded::NotLoaded && self.rootfs() == before.rootfs(),
                Some(lines) => match rootfs_descriptor(lines) {
                    None => outcome == Unloaded::Removed && self.rootfs() == before.rootfs(),
                    Some(descriptor) => self.rootfs() == without(before.rootfs(), descriptor)
                        && outcome == if value_of(before.rootfs(), descriptor).is_some() {
                        Unloaded::Removed
                    } else {
                        Unloaded::RemovedWithoutRootfs
                    },
                },
            },
        }
    }

    /// What `load_subid` does: content that can be read replaces the grants
    /// of one kind; content that cannot changes nothing, and its error is
    /// returned.
    pub open spec fn after_load_subid(
        &self,
        before: State,
        content: Seq<char>,
        subid: SubID,
        r: Result<(), SubIDError>,
    ) -> bool {
        &&& self.only_host_differs(before)
        &&& match r {
            Ok(_) => parse_grants(lines(content)) == Ok::<Seq<Grant>, SubIDError>(
                self.host_mapping@.grants(subid),
            ) && match subid {
                SubID::UID => self.host_mapping.subgid == before.host_mapping.subgid,
                SubID::GID => self.host_mapping.subuid == before.host_mapping.subuid,
            },
            Err(e) => parse_grants(lines(content)) == Err::<Seq<Grant>, SubIDError>(e) && *self
                == before,
        }
    }

    /// What `update_rootfs` does: what is known of the root filesystem is
    /// held under its descriptor.
    pub open spec fn after_update_rootfs(
        &self,
        before: State,
        descriptor: Seq<char>,
        info: RootfsInfoView,
    ) -> bool {
        &&& self.rootfs() == upserted(before.rootfs(), descriptor, info)
        &&& self.lxc_configs == before.lxc_configs
        &&& self.only_containers_differ(before)
    }

    /// What `handle_change` does. A file that is gone is unloaded as a
    /// container's configuration. A file that was written is loaded as a
    /// container's configuration if it lies in the directory of the
    /// configurations, and as the grants of users or groups if it is the
    /// file of these; any other file is passed over. What is known of a
    /// root filesystem is noted.
    pub open spec fn after_change(
        &self,
        before: State,
        metadata: Metadata,
        change: ChangeView,
        r: Result<Outcome, StateError>,
    ) -> bool {
        match change {
            ChangeView::Remove(path) => match r {
                Ok(Outcome::Unloaded(outcome)) => self.after_unload(before, path, Ok(outcome)),
                Err(e) => self.after_unload(before, path, Err(e)),
                _ => false,
            },
            ChangeView::Update(path, content) => if is_under(path, metadata.lxc_config_dir@) {
                match r {
                    Ok(Outcome::Loaded(watch)) => self.after_load(before, path, content, Ok(watch)),
                    Err(e) => self.after_load(before, path, content, Err(e)),
                    _ => false,
                }
            } else if path == ETC_SUBUID@ || path == ETC_SUBGID@ {
                let subid = if path == ETC_SUBUID@ {
                    SubID::UID
                } else {
                    SubID::GID
                };
                match r {
                    Ok(Outcome::HostUpdated(kind)) => kind == subid && self.after_load_subid(
                        before,
                        content,
                        subid,
                        Ok(()),
                    ),
                    Err(StateError::SubID(e)) => self.after_load_subid(
                        before,
                        content,
                        subid,
                        Err(e),
                    ),
                    _ => false,
                }
            } else {
                r == Ok::<Outcome, StateError>(Outcome::Ignored) && *self == before
            },
            ChangeView::UpdateDir(descriptor, info) => r == Ok::<Outcome, StateError>(
                Outcome::RootfsUpdated,
            ) && self.after_update_rootfs(before, descriptor, info),
        }
    }

    /// Takes in a change to a watched file or to a root filesystem.
    pub fn handle_change(
        &mut self,
        metadata: &Metadata,
        change: FileSystemChangeKind,
    ) -> (r: Result<Outcome, StateError>)
        ensures
            final(self).after_change(*old(self), *metadata, change@, r),
    {
        match change {
            FileSystemChangeKind::Remove(path) => {
                match self.unload_container_id_map(path.as_str()) {
                    Ok(outcome) => Ok(Outcome::Unloaded(outcome)),
                    Err(e) => Err(e),
                }
            },
            FileSystemChangeKind::Update(path, content) => {
                if path_is_under(path.as_str(), metadata.lxc_config_dir.as_str()) {
                    match self.load_container_id_map(path.as_str(), content.as_str()) {
                        Ok(watch) => Ok(Outcome::Loaded(watch)),
                        Err(e) => Err(e),
                    }
                } else if same_text(path.as_str(), ETC_SUBUID) {
                    match self.load_subid(content.as_str(), SubID::UID) {
                        Ok(_) => Ok(Outcome::HostUpdated(SubID::UID)),
                        Err(e) => Err(StateError::SubID(e)),
                    }
                } else if same_text(path.as_str(), ETC_SUBGID) {
                    match self.load_subid(content.as_str(), SubID::GID) {
                        Ok(_) => Ok(Outcome::HostUpdated(SubID::GID)),
                        Err(e) => Err(StateError::SubID(e)),
                    }
                } else {
                    Ok(Outcome::Ignored)
                }
            },
            FileSystemChangeKind::UpdateDir(descriptor, info) => {
                self.update_rootfs(descriptor.as_str(), info);
                Ok(Outcome::RootfsUpdated)
            },
        }
    }

    /// Takes in the configuration of a container: the file at `path` with
    /// the content `content`. It is held under the file's name, in the
    /// place of the configuration that was held under this name, if one
    /// was, and the configurations are put in the order of their names.
    /// Returns the configuration's root-filesystem descriptor, if it has
    /// one.
    pub fn load_container_id_map(&mut self, path: &str, content: &str) -> (r: Result<
        Option<String>,
        StateError,
    >)
        ensures
            final(self).after_load(*old(self), path@, content@, r),
    {
        let filename = file_name_of(path);
        if filename.as_str().is_empty() {
            return Err(StateError::InvalidFileName);
        }
        let config = Config::from_str(content);
        let watch = match config.section(None).get_rootfs() {
            Some(descriptor) => Some(descriptor.to_owned()),
            None => None,
        };
        let ghost before = config_entries(self.lxc_configs);
        proof {
            lemma_config_views_upserted(before, filename@, config);
        }
        configs_insert(&mut self.lxc_configs, filename, config);
        let ghost inserted = config_entries(self.lxc_configs);
        configs_sort_keys(&mut self.lxc_configs);
        proof {
            let sorted = config_entries(self.lxc_configs);
            lemma_same_configs(sorted, inserted);
            assert(sorted_by_key(config_views(sorted))) by {
                assert forall|i: int, j: int| 0 <= i < j < sorted.len() implies text_le(
                    (#[trigger] config_views(sorted)[i]).0,
                    (#[trigger] config_views(sorted)[j]).0,
                ) by {
                    assert(text_le(sorted[i].0, sorted[j].0));
                }
            }
            assert(unique_keys(config_views(sorted))) by {
                assert forall|i: int, j: int| 0 <= i < j < sorted.len() implies (
                #[trigger] config_views(sorted)[i]).0 != (#[trigger] config_views(sorted)[j]).0 by {
                    assert(sorted[i].0 != sorted[j].0);
                }
            }
        }
        Ok(watch)
    }

    /// Forgets the configuration of the container whose file was at
    /// `path`, and what is known of the root filesystem that it names.
    pub fn unload_container_id_map(&mut self, path: &str) -> (r: Result<Unloaded, StateError>)
        ensures
            final(self).after_unload(*old(self), path@, r),
    {
        let filename = file_name_of(path);
        if filename.as_str().is_empty() {
            return Err(StateError::InvalidFileName);
        }
        proof {
            lemma_config_views_without(config_entries(self.lxc_configs), filename@);
            lemma_key_index_bounds(config_entries(self.lxc_configs), filename@);
            lemma_key_index_bounds(config_views(config_entries(self.lxc_configs)), filename@);
        }
        let config = match configs_shift_remove(&mut self.lxc_configs, filename.as_str()) {
            Some(config) => config,
            None => {
                return Ok(Unloaded::NotLoaded);
            },
        };
        let section = config.section(None);
        match section.get_rootfs() {
            Some(descriptor) => {
                proof {
                    lemma_rootfs_views_without(rootfs_entries(self.rootfs_info), descriptor@);
                }
                match rootfs_shift_remove(&mut self.rootfs_info, descriptor) {
                    Some(_) => Ok(Unloaded::Removed),
                    None => Ok(Unloaded::RemovedWithoutRootfs),
                }
            },
            None => Ok(Unloaded::Removed),
        }
    }

    /// Replaces the grants of one kind by those that `content` holds. If
    /// the content cannot be read, the grants stay as they are.
    pub fn load_subid(&mut self, content: &str, subid: SubID) -> (r: Result<(), SubIDError>)
        ensures
            final(self).after_load_subid(*old(self), content@, subid, r),
    {
        match parse_subid_map(content) {
            Ok(id_map) => {
                match subid {
                    SubID::UID => {
                        self.host_mapping.subuid = id_map;
                    },
                    SubID::GID => {
                        self.host_mapping.subgid = id_map;
                    },
                }
                Ok(())
            },
            Err(e) => Err(e),
        }
    }

    /// Notes what is known of the root filesystem `descriptor`, in the
    /// place of what was known of it before.
    pub fn update_rootfs(&mut self, descriptor: &str, info: RootfsInfo)
        ensures
            final(self).after_update_rootfs(*old(self), descriptor@, info@),
    {
        proof {
            lemma_rootfs_views_upserted(rootfs_entries(self.rootfs_info), descriptor@, info);
        }
        rootfs_insert(&mut self.rootfs_info, descriptor.to_owned(), info);
    }

    /// Ends the application's loop.
    pub fn quit(&mut self)
        ensures
            !final(self).is_running,
            final(self).findings == old(self).findings,
            final(self).selected_finding == old(self).selected_finding,
            final(self).host_mapping == old(self).host_mapping,
            final(self).lxc_configs == old(self).lxc_configs,
            final(self).rootfs_info == old(self).rootfs_info,
            final(self).show_fix_popup == old(self).show_fix_popup,
            final(self).show_settings_page == old(self).show_settings_page,
            final(self).show_logs_page == old(self).show_logs_page,
    {
        self.is_running = false;
    }
}

} // verus!
