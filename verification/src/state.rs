//! The state that findings are computed from: the host's grants, the
//! container configurations by file name, and what is known of the
//! containers' root filesystems; and the findings themselves.

use vstd::prelude::*;
use ahash::RandomState;
use indexmap::IndexMap;
use crate::evaluate::{
    bad_before_good, bad_first, config_findings, evaluate_config, evaluate_host, host_findings,
    option_info_view, sort_bad_first,
};
use crate::findings::{finding_views, Finding, FindingView};
use crate::identity::{Identities, IdentitiesView};
use crate::lxc::config::{values_of, ConfLine, Config};
use crate::metadata::Metadata;
use crate::rootfs::{RootfsInfo, RootfsInfoView};
use crate::subid::{HostMapping, HostView};

verus! {

/// `indexmap::IndexMap`, a map that keeps its entries in an order. What a
/// map holds is known through `config_entries` and `rootfs_entries` only.
#[verifier::external_type_specification]
#[verifier::external_body]
#[verifier::reject_recursive_types(K)]
#[verifier::reject_recursive_types(V)]
#[verifier::reject_recursive_types(S)]
pub struct ExIndexMap<K, V, S>(IndexMap<K, V, S>);

/// `ahash::RandomState`, the hasher of the maps. Nothing is known of it.
#[verifier::external_type_specification]
#[verifier::external_body]
pub struct ExRandomState(RandomState);

/// What a map of configurations holds: file names and configurations, in
/// the map's order.
pub uninterp spec fn config_entries(map: IndexMap<String, Config, RandomState>) -> Seq<
    (Seq<char>, Config),
>;

/// What a map of root filesystems holds: descriptors and what is known of
/// each, in the map's order.
pub uninterp spec fn rootfs_entries(map: IndexMap<String, RootfsInfo, RandomState>) -> Seq<
    (Seq<char>, RootfsInfo),
>;

/// The position of the first entry with `key`, or the number of entries
/// when there is none.
pub open spec fn key_index<V>(entries: Seq<(Seq<char>, V)>, key: Seq<char>) -> int
    decreases entries.len(),
{
    if entries.len() == 0 {
        0
    } else if entries[0].0 == key {
        0
    } else {
        1 + key_index(entries.drop_first(), key)
    }
}

/// The value of `key`, if an entry has this key.
pub open spec fn value_of<V>(entries: Seq<(Seq<char>, V)>, key: Seq<char>) -> Option<V> {
    let at = key_index(entries, key);
    if 0 <= at < entries.len() {
        Some(entries[at].1)
    } else {
        None
    }
}

/// The entries after `key` was given `value`: in the place of the entry
/// that had this key, or at the end when there was none.
pub open spec fn upserted<V>(entries: Seq<(Seq<char>, V)>, key: Seq<char>, value: V) -> Seq<
    (Seq<char>, V),
> {
    let at = key_index(entries, key);
    if 0 <= at < entries.len() {
        entries.update(at, (key, value))
    } else {
        entries.push((key, value))
    }
}

/// The entries without the entry of `key`; the entries behind it move up.
pub open spec fn without<V>(entries: Seq<(Seq<char>, V)>, key: Seq<char>) -> Seq<(Seq<char>, V)> {
    let at = key_index(entries, key);
    if 0 <= at < entries.len() {
        entries.remove(at)
    } else {
        entries
    }
}

/// The order of texts: by the first character in which they differ, that
/// with the smaller code point first, and a text before its extensions.
pub open spec fn text_le(a: Seq<char>, b: Seq<char>) -> bool
    decreases a.len(),
{
    if a.len() == 0 {
        true
    } else if b.len() == 0 {
        false
    } else if a[0] != b[0] {
        (a[0] as u32) < (b[0] as u32)
    } else {
        text_le(a.drop_first(), b.drop_first())
    }
}

/// Tells whether the entries stand in the order of their keys.
pub open spec fn sorted_by_key<V>(entries: Seq<(Seq<char>, V)>) -> bool {
    forall|i: int, j: int|
        0 <= i < j < entries.len() ==> text_le((#[trigger] entries[i]).0, (#[trigger] entries[j]).0)
}

/// No two entries have the same key.
pub open spec fn unique_keys<V>(entries: Seq<(Seq<char>, V)>) -> bool {
    forall|i: int, j: int|
        0 <= i < j < entries.len() ==> (#[trigger] entries[i]).0 != (#[trigger] entries[j]).0
}

/// Two sequences hold the same entries, in whatever order.
pub open spec fn same_entries<V>(a: Seq<(Seq<char>, V)>, b: Seq<(Seq<char>, V)>) -> bool {
    forall|e: (Seq<char>, V)| a.contains(e) <==> b.contains(e)
}

/// `IndexMap::with_hasher` on `RandomState::new()`: a map without entries.
#[verifier::external_body]
pub(crate) fn configs_new() -> (map: IndexMap<String, Config, RandomState>)
    ensures
        config_entries(map) == Seq::<(Seq<char>, Config)>::empty(),
{
    IndexMap::with_hasher(RandomState::new())
}

/// `IndexMap::len`: the number of entries.
#[verifier::external_body]
pub(crate) fn configs_len(map: &IndexMap<String, Config, RandomState>) -> (n: usize)
    ensures
        n == config_entries(*map).len(),
{
    map.len()
}

/// `IndexMap::get_index`: the entry at a position of the map's order, and
/// nothing for a position behind the last entry.
#[verifier::external_body]
pub(crate) fn configs_get_index(
    map: &IndexMap<String, Config, RandomState>,
    at: usize,
) -> (r: Option<(&String, &Config)>)
    ensures
        r.is_some() == (at < config_entries(*map).len()),
        r.is_some() ==> (r.unwrap().0)@ == config_entries(*map)[at as int].0,
        r.is_some() ==> *(r.unwrap().1) == config_entries(*map)[at as int].1,
{
    map.get_index(at)
}

/// `IndexMap::insert`: where an entry has the key, it stays in its place
/// and gets the new value, and its old value is returned; otherwise the new
/// entry is added behind the last one and nothing is returned.
#[verifier::external_body]
pub(crate) fn configs_insert(
    map: &mut IndexMap<String, Config, RandomState>,
    key: String,
    value: Config,
) -> (r: Option<Config>)
    ensures
        config_entries(*final(map)) == upserted(config_entries(*old(map)), key@, value),
        r == value_of(config_entries(*old(map)), key@),
{
    map.insert(key, value)
}

/// `IndexMap::shift_remove`: the entry of the key leaves, those behind it
/// move up one place, and its value is returned; where no entry has the
/// key, nothing changes and nothing is returned.
#[verifier::external_body]
pub(crate) fn configs_shift_remove(
    map: &mut IndexMap<String, Config, RandomState>,
    key: &str,
) -> (r: Option<Config>)
    ensures
        config_entries(*final(map)) == without(config_entries(*old(map)), key@),
        r == value_of(config_entries(*old(map)), key@),
{
    map.shift_remove(key)
}

/// `IndexMap::sort_unstable_keys`: the same entries, in the order of their
/// keys, which for `String` is that of `text_le`. As in every map, no two
/// entries have the same key.
#[verifier::external_body]
pub(crate) fn configs_sort_keys(map: &mut IndexMap<String, Config, RandomState>)
    ensures
        config_entries(*final(map)).to_multiset() == config_entries(*old(map)).to_multiset(),
        sorted_by_key(config_entries(*final(map))),
        unique_keys(config_entries(*final(map))),
{
    map.sort_unstable_keys()
}

/// `IndexMap::with_hasher` on `RandomState::new()`: a map without entries.
#[verifier::external_body]
pub(crate) fn rootfs_new() -> (map: IndexMap<String, RootfsInfo, RandomState>)
    ensures
        rootfs_entries(map) == Seq::<(Seq<char>, RootfsInfo)>::empty(),
{
    IndexMap::with_hasher(RandomState::new())
}

/// `IndexMap::get`: the value of the entry that has the key.
#[verifier::external_body]
pub(crate) fn rootfs_get<'a>(
    map: &'a IndexMap<String, RootfsInfo, RandomState>,
    key: &str,
) -> (r: Option<&'a RootfsInfo>)
    ensures
        r.is_some() == value_of(rootfs_entries(*map), key@).is_some(),
        r.is_some() ==> *r.unwrap() == value_of(rootfs_entries(*map), key@).unwrap(),
{
    map.get(key)
}

/// `IndexMap::insert`: where an entry has the key, it stays in its place
/// and gets the new value, and its old value is returned; otherwise the new
/// entry is added behind the last one and nothing is returned.
#[verifier::external_body]
pub(crate) fn rootfs_insert(
    map: &mut IndexMap<String, RootfsInfo, RandomState>,
    key: String,
    value: RootfsInfo,
) -> (r: Option<RootfsInfo>)
    ensures
        rootfs_entries(*final(map)) == upserted(rootfs_entries(*old(map)), key@, value),
        r == value_of(rootfs_entries(*old(map)), key@),
{
    map.insert(key, value)
}

/// `IndexMap::shift_remove`: the entry of the key leaves, those behind it
/// move up one place, and its value is returned; where no entry has the
/// key, nothing changes and nothing is returned.
#[verifier::external_body]
pub(crate) fn rootfs_shift_remove(
    map: &mut IndexMap<String, RootfsInfo, RandomState>,
    key: &str,
) -> (r: Option<RootfsInfo>)
    ensures
        rootfs_entries(*final(map)) == without(rootfs_entries(*old(map)), key@),
        r == value_of(rootfs_entries(*old(map)), key@),
{
    map.shift_remove(key)
}

/// The root-filesystem descriptor of a configuration: the first `rootfs`
/// of its unnamed section.
pub open spec fn rootfs_descriptor(lines: Seq<ConfLine>) -> Option<Seq<char>> {
    let values = values_of(lines, None, "rootfs"@);
    if values.len() > 0 {
        Some(values[0])
    } else {
        None
    }
}

/// What is known of the root filesystem of a configuration.
pub open spec fn rootfs_of(lines: Seq<ConfLine>, table: Seq<(Seq<char>, RootfsInfoView)>) -> Option<
    RootfsInfoView,
> {
    match rootfs_descriptor(lines) {
        Some(descriptor) => value_of(table, descriptor),
        None => None,
    }
}

/// The findings of the first `n` configurations, in their order.
pub open spec fn all_config_findings(
    configs: Seq<(Seq<char>, Seq<ConfLine>)>,
    host: HostView,
    ids: IdentitiesView,
    table: Seq<(Seq<char>, RootfsInfoView)>,
    n: int,
) -> Seq<FindingView>
    decreases n,
{
    if n <= 0 || n > configs.len() {
        Seq::empty()
    } else {
        all_config_findings(configs, host, ids, table, n - 1) + config_findings(
            configs[n - 1].0,
            configs[n - 1].1,
            host,
            ids,
            rootfs_of(configs[n - 1].1, table),
        )
    }
}

/// The findings of an evaluation: those on the host's grants, then those
/// of each configuration in the order of the configurations; of these the
/// bad ones first.
pub open spec fn evaluation(
    strict: bool,
    host: HostView,
    configs: Seq<(Seq<char>, Seq<ConfLine>)>,
    table: Seq<(Seq<char>, RootfsInfoView)>,
    ids: IdentitiesView,
) -> Seq<FindingView> {
    bad_first(
        host_findings(host, strict) + all_config_findings(
            configs,
            host,
            ids,
            table,
            configs.len() as int,
        ),
    )
}

/// The views of the entries of a map of configurations.
pub open spec fn config_views(entries: Seq<(Seq<char>, Config)>) -> Seq<
    (Seq<char>, Seq<ConfLine>),
> {
    entries.map_values(|e: (Seq<char>, Config)| (e.0, e.1@))
}

/// The views of the entries of a map of root filesystems.
pub open spec fn rootfs_views(entries: Seq<(Seq<char>, RootfsInfo)>) -> Seq<
    (Seq<char>, RootfsInfoView),
> {
    entries.map_values(|e: (Seq<char>, RootfsInfo)| (e.0, e.1@))
}

/// The position of a key does not depend on how the values are viewed.
pub proof fn lemma_key_index_of_views(entries: Seq<(Seq<char>, RootfsInfo)>, key: Seq<char>)
    ensures
        key_index(rootfs_views(entries), key) == key_index(entries, key),
    decreases entries.len(),
{
    if entries.len() > 0 {
        assert(rootfs_views(entries).drop_first() =~= rootfs_views(entries.drop_first()));
        lemma_key_index_of_views(entries.drop_first(), key);
    }
}

/// The position of a key lies within the entries or just behind them.
pub proof fn lemma_key_index_bounds<V>(entries: Seq<(Seq<char>, V)>, key: Seq<char>)
    ensures
        0 <= key_index(entries, key) <= entries.len(),
    decreases entries.len(),
{
    if entries.len() > 0 {
        lemma_key_index_bounds(entries.drop_first(), key);
    }
}

/// The state of the application.
#[derive(Debug)]
pub struct State {
    pub is_running: bool,
    /// The findings of the last evaluation.
    pub findings: Vec<Finding>,
    /// The position of the finding that is selected, if one is.
    pub selected_finding: Option<usize>,
    pub host_mapping: HostMapping,
    /// The container configurations by file name, in the order of the names.
    pub lxc_configs: IndexMap<String, Config, RandomState>,
    /// What is known of the root filesystems, by descriptor.
    pub rootfs_info: IndexMap<String, RootfsInfo, RandomState>,
    pub show_fix_popup: bool,
    pub show_settings_page: bool,
    pub show_logs_page: bool,
}

impl Default for State {
    fn default() -> (state: Self)
        ensures
            state.is_running,
            state.findings@.len() == 0,
            state.selected_finding.is_none(),
            state.host_mapping@.subuid.len() == 0,
            state.host_mapping@.subgid.len() == 0,
            state.configs().len() == 0,
            state.rootfs().len() == 0,
            !state.show_fix_popup,
            !state.show_settings_page,
            !state.show_logs_page,
    {
        State {
            is_running: true,
            findings: Vec::new(),
            selected_finding: None,
            host_mapping: HostMapping::new(),
            lxc_configs: configs_new(),
            rootfs_info: rootfs_new(),
            show_fix_popup: false,
            show_settings_page: false,
            show_logs_page: false,
        }
    }
}

impl State {
    /// The container configurations, as plain values.
    pub open spec fn configs(&self) -> Seq<(Seq<char>, Seq<ConfLine>)> {
        config_views(config_entries(self.lxc_configs))
    }

    /// What is known of the root filesystems, as plain values.
    pub open spec fn rootfs(&self) -> Seq<(Seq<char>, RootfsInfoView)> {
        rootfs_views(rootfs_entries(self.rootfs_info))
    }

    /// The findings that an evaluation of this state gives.
    pub open spec fn evaluated(&self, metadata: Metadata, ids: Identities) -> Seq<FindingView> {
        evaluation(metadata.is_pve, self.host_mapping@, self.configs(), self.rootfs(), ids@)
    }

    /// Tells whether `after` is this state after an evaluation: it holds
    /// the findings of the evaluation, and everything else as it was.
    pub open spec fn evaluates_to(
        &self,
        after: State,
        metadata: Metadata,
        ids: Identities,
    ) -> bool {
        &&& finding_views(after.findings@) == self.evaluated(metadata, ids)
        &&& after.is_running == self.is_running
        &&& after.selected_finding == self.selected_finding
        &&& after.host_mapping == self.host_mapping
        &&& after.lxc_configs == self.lxc_configs
        &&& after.rootfs_info == self.rootfs_info
        &&& after.show_fix_popup == self.show_fix_popup
        &&& after.show_settings_page == self.show_settings_page
        &&& after.show_logs_page == self.show_logs_page
    }

    /// Computes the findings anew from the state as it is. `identities`
    /// says which IDs the names of the host's grants resolved to.
    pub fn evaluate_findings(&mut self, metadata: &Metadata, identities: &Identities)
        ensures
            old(self).evaluates_to(*final(self), *metadata, *identities),
            bad_before_good(finding_views(final(self).findings@)),
    {
        let mut found = evaluate_host(&self.host_mapping, metadata.is_pve);
        let n = configs_len(&self.lxc_configs);
        let ghost entries = config_entries(self.lxc_configs);
        let ghost configs = self.configs();
        let ghost table = self.rootfs();
        let ghost base = finding_views(found@);
        let mut i: usize = 0;
        assert(finding_views(found@) =~= base + all_config_findings(
            configs,
            self.host_mapping@,
            identities@,
            table,
            0,
        ));
        while i < n
            invariant
                i <= n == entries.len(),
                entries == config_entries(self.lxc_configs),
                configs == config_views(entries),
                table == rootfs_views(rootfs_entries(self.rootfs_info)),
                finding_views(found@) == base + all_config_findings(
                    configs,
                    self.host_mapping@,
                    identities@,
                    table,
                    i as int,
                ),
            decreases n - i,
        {
            match configs_get_index(&self.lxc_configs, i) {
                Some((filename, config)) => {
                    let section = config.section(None);
                    let rootfs = match section.get_rootfs() {
                        Some(descriptor) => {
                            proof {
                                lemma_key_index_of_views(
                                    rootfs_entries(self.rootfs_info),
                                    descriptor@,
                                );
                                lemma_key_index_bounds(
                                    rootfs_entries(self.rootfs_info),
                                    descriptor@,
                                );
                            }
                            rootfs_get(&self.rootfs_info, descriptor)
                        },
                        None => None,
                    };
                    assert(option_info_view(rootfs) == rootfs_of(config@, table));
                    let ghost before = found@;
                    let mut part = evaluate_config(
                        filename.as_str(),
                        config,
                        &self.host_mapping,
                        identities,
                        rootfs,
                    );
                    let ghost added = part@;
                    found.append(&mut part);
                    assert(finding_views(found@) =~= finding_views(before) + finding_views(added));
                    assert(configs[i as int] == (filename@, config@));
                },
                None => {},
            }
            assert(finding_views(found@) =~= base + all_config_findings(
                configs,
                self.host_mapping@,
                identities@,
                table,
                i + 1,
            ));
            i = i + 1;
        }
        self.findings = sort_bad_first(found);
    }
}

} // verus!
