//! What holds of every evaluation, proved from the rules.

use vstd::prelude::*;
use crate::evaluate::{
    bad_first, config_findings, count_name, duplicate_findings, has_kind, host_findings,
    idmap_findings, idmap_of, idmap_values, is_mapping_of, is_unprivileged, lemma_only_kind,
    not_set_findings, only, range_findings, IdMapLine,
};
use crate::findings::{
    duplicate_finding, finding_views, no_duplicates_finding, not_set_finding, FindingKind,
    FindingView,
};
use crate::identity::{Identities, IdentitiesView};
use crate::lxc::config::ConfLine;
use crate::metadata::Metadata;
use crate::rootfs::RootfsInfoView;
use crate::state::{all_config_findings, evaluation, rootfs_of, State};
use crate::subid::{Grant, HostView, SubID};

verus! {

/// Every finding is bad and is about exactly one container's ID mapping.
pub open spec fn all_about_containers(findings: Seq<FindingView>) -> bool {
    forall|i: int|
        0 <= i < findings.len() ==> (#[trigger] findings[i]).kind == FindingKind::Bad
            && findings[i].lxc_config_mapping_highlights.len() == 1
}

/// No two grants are for the same name.
pub open spec fn distinct_names(grants: Seq<Grant>) -> bool {
    forall|i: int, j: int|
        0 <= i < j < grants.len() ==> (#[trigger] grants[i]).name != (#[trigger] grants[j]).name
}

/// Tells whether a finding reports a name with several grants.
pub open spec fn reports_duplicate(finding: FindingView) -> bool {
    exists|name: Seq<char>, kind: SubID| finding == duplicate_finding(name, kind)
}

/// Putting the bad findings first loses no finding and adds none.
pub proof fn lemma_bad_first_same_findings(findings: Seq<FindingView>, finding: FindingView)
    ensures
        bad_first(findings).contains(finding) == findings.contains(finding),
{
    let n = findings.len() as int;
    lemma_only_kind(findings, FindingKind::Bad, n);
    lemma_only_kind(findings, FindingKind::Good, n);
    let bad = only(findings, FindingKind::Bad, n);
    let good = only(findings, FindingKind::Good, n);
    let sorted = bad_first(findings);
    if findings.contains(finding) {
        let i = choose|i: int| 0 <= i < findings.len() && findings[i] == finding;
        if finding.kind == FindingKind::Bad {
            assert(bad.contains(findings[i]));
            let at = choose|at: int| 0 <= at < bad.len() && bad[at] == finding;
            assert(sorted[at] == finding);
        } else {
            assert(good.contains(findings[i]));
            let at = choose|at: int| 0 <= at < good.len() && good[at] == finding;
            assert(sorted[bad.len() + at] == finding);
        }
    }
    if sorted.contains(finding) {
        let i = choose|i: int| 0 <= i < sorted.len() && sorted[i] == finding;
        if i < bad.len() {
            assert(sorted[i] == bad[i]);
        } else {
            assert(sorted[i] == good[i - bad.len()]);
        }
    }
}

/// The findings of one kind among findings put together are those of the
/// parts put together.
pub proof fn lemma_only_of_concat(
    a: Seq<FindingView>,
    b: Seq<FindingView>,
    kind: FindingKind,
    n: int,
)
    requires
        0 <= n <= b.len(),
    ensures
        only(a + b, kind, a.len() + n) == only(a, kind, a.len() as int) + only(b, kind, n),
    decreases n,
{
    if n == 0 {
        lemma_only_prefix(a + b, a, kind, a.len() as int);
        assert(only(a, kind, a.len() as int) + only(b, kind, 0) =~= only(a, kind, a.len() as int));
    } else {
        lemma_only_of_concat(a, b, kind, n - 1);
        assert((a + b)[a.len() + n - 1] == b[n - 1]);
        assert(only(a + b, kind, a.len() + n) =~= only(a, kind, a.len() as int) + only(b, kind, n));
    }
}

/// The findings of one kind among the first `n` depend on these only.
pub proof fn lemma_only_prefix(a: Seq<FindingView>, b: Seq<FindingView>, kind: FindingKind, n: int)
    requires
        0 <= n <= a.len(),
        n <= b.len(),
        forall|i: int| 0 <= i < n ==> a[i] == b[i],
    ensures
        only(a, kind, n) == only(b, kind, n),
    decreases n,
{
    if n > 0 {
        lemma_only_prefix(a, b, kind, n - 1);
    }
}

/// Of findings that are all of one kind, those of that kind are all of
/// them, and none is of another kind.
pub proof fn lemma_only_of_uniform(
    findings: Seq<FindingView>,
    kind: FindingKind,
    other: FindingKind,
    n: int,
)
    requires
        0 <= n <= findings.len(),
        other != kind,
        forall|i: int| 0 <= i < findings.len() ==> (#[trigger] findings[i]).kind == kind,
    ensures
        only(findings, kind, n) == findings.take(n),
        only(findings, other, n) == Seq::<FindingView>::empty(),
    decreases n,
{
    if n > 0 {
        lemma_only_of_uniform(findings, kind, other, n - 1);
        assert(findings.take(n) =~= findings.take(n - 1).push(findings[n - 1]));
    } else {
        assert(findings.take(0) =~= Seq::<FindingView>::empty());
    }
}

/// The findings of an ID mapping against the grants are about containers.
pub proof fn lemma_range_findings_shape(
    filename: Seq<char>,
    line: IdMapLine,
    grants: Seq<Grant>,
    ids: Seq<(Seq<char>, u32)>,
    n: int,
)
    ensures
        all_about_containers(range_findings(filename, line, grants, ids, n)),
    decreases n,
{
    if 0 < n <= grants.len() {
        lemma_range_findings_shape(filename, line, grants, ids, n - 1);
    }
}

/// The findings of the values of `lxc.idmap` are about containers.
pub proof fn lemma_idmap_findings_shape(
    filename: Seq<char>,
    values: Seq<Seq<char>>,
    host: HostView,
    ids: IdentitiesView,
    rootfs: Option<RootfsInfoView>,
    n: int,
)
    ensures
        all_about_containers(idmap_findings(filename, values, host, ids, rootfs, n)),
    decreases n,
{
    if 0 < n <= values.len() {
        lemma_idmap_findings_shape(filename, values, host, ids, rootfs, n - 1);
        match idmap_of(values[n - 1]) {
            Some(line) => {
                lemma_range_findings_shape(
                    filename,
                    line,
                    host.grants(line.kind),
                    ids.table(line.kind),
                    host.grants(line.kind).len() as int,
                );
            },
            None => {},
        }
    }
}

/// The findings of a configuration are about containers.
pub proof fn lemma_config_findings_shape(
    filename: Seq<char>,
    lines: Seq<ConfLine>,
    host: HostView,
    ids: IdentitiesView,
    rootfs: Option<RootfsInfoView>,
)
    ensures
        all_about_containers(config_findings(filename, lines, host, ids, rootfs)),
{
    let values = idmap_values(lines);
    lemma_idmap_findings_shape(filename, values, host, ids, rootfs, values.len() as int);
}

/// The findings of the configurations are about containers.
pub proof fn lemma_all_config_findings_shape(
    configs: Seq<(Seq<char>, Seq<ConfLine>)>,
    host: HostView,
    ids: IdentitiesView,
    table: Seq<(Seq<char>, RootfsInfoView)>,
    n: int,
)
    ensures
        all_about_containers(all_config_findings(configs, host, ids, table, n)),
    decreases n,
{
    if 0 < n <= configs.len() {
        lemma_all_config_findings_shape(configs, host, ids, table, n - 1);
        lemma_config_findings_shape(
            configs[n - 1].0,
            configs[n - 1].1,
            host,
            ids,
            rootfs_of(configs[n - 1].1, table),
        );
    }
}

/// Among grants with distinct names no name is counted before its grant.
pub proof fn lemma_distinct_names_count(grants: Seq<Grant>, at: int, n: int)
    requires
        distinct_names(grants),
        0 <= n <= at < grants.len(),
    ensures
        count_name(grants, grants[at].name, n) == 0,
    decreases n,
{
    if n > 0 {
        lemma_distinct_names_count(grants, at, n - 1);
    }
}

/// Grants with distinct names give no finding on several grants.
pub proof fn lemma_distinct_names_no_duplicates(grants: Seq<Grant>, kind: SubID, n: int)
    requires
        distinct_names(grants),
    ensures
        duplicate_findings(grants, kind, n) == Seq::<FindingView>::empty(),
    decreases n,
{
    if 0 < n <= grants.len() {
        lemma_distinct_names_no_duplicates(grants, kind, n - 1);
        lemma_distinct_names_count(grants, n - 1, n - 1);
    }
}

/// Where no name has several grants of one kind, an evaluation gives the
/// findings of the configurations, none of which reports a name with
/// several grants, and after them the one good finding that there are no
/// such names, or nothing where the host is not held to one grant a name.
pub proof fn lemma_distinct_names_baseline(
    strict: bool,
    host: HostView,
    configs: Seq<(Seq<char>, Seq<ConfLine>)>,
    table: Seq<(Seq<char>, RootfsInfoView)>,
    ids: IdentitiesView,
)
    requires
        distinct_names(host.subuid),
        distinct_names(host.subgid),
    ensures
        evaluation(strict, host, configs, table, ids) == all_config_findings(
            configs,
            host,
            ids,
            table,
            configs.len() as int,
        ) + if strict {
            seq![no_duplicates_finding()]
        } else {
            Seq::<FindingView>::empty()
        },
        forall|i: int|
            0 <= i < evaluation(strict, host, configs, table, ids).len() ==> !reports_duplicate(
                #[trigger] evaluation(strict, host, configs, table, ids)[i],
            ),
        only(
            evaluation(strict, host, configs, table, ids),
            FindingKind::Good,
            evaluation(strict, host, configs, table, ids).len() as int,
        ) == if strict {
            seq![no_duplicates_finding()]
        } else {
            Seq::<FindingView>::empty()
        },
{
    let baseline = if strict {
        seq![no_duplicates_finding()]
    } else {
        Seq::<FindingView>::empty()
    };
    let of_configs = all_config_findings(configs, host, ids, table, configs.len() as int);
    lemma_distinct_names_no_duplicates(host.subuid, SubID::UID, host.subuid.len() as int);
    lemma_distinct_names_no_duplicates(host.subgid, SubID::GID, host.subgid.len() as int);
    assert(host_findings(host, strict) =~= baseline);
    lemma_all_config_findings_shape(configs, host, ids, table, configs.len() as int);
    let all = baseline + of_configs;
    let result = evaluation(strict, host, configs, table, ids);
    assert(result == bad_first(all));
    lemma_only_of_concat(baseline, of_configs, FindingKind::Bad, of_configs.len() as int);
    lemma_only_of_concat(baseline, of_configs, FindingKind::Good, of_configs.len() as int);
    lemma_only_of_uniform(
        of_configs,
        FindingKind::Bad,
        FindingKind::Good,
        of_configs.len() as int,
    );
    lemma_only_of_uniform(baseline, FindingKind::Good, FindingKind::Bad, baseline.len() as int);
    assert(of_configs.take(of_configs.len() as int) =~= of_configs);
    assert(baseline.take(baseline.len() as int) =~= baseline);
    assert(only(of_configs, FindingKind::Good, of_configs.len() as int) == Seq::<
        FindingView,
    >::empty());
    assert(only(baseline, FindingKind::Bad, baseline.len() as int) == Seq::<FindingView>::empty());
    assert(result =~= of_configs + baseline);
    assert forall|i: int| 0 <= i < result.len() implies !reports_duplicate(
        #[trigger] result[i],
    ) by {
        if reports_duplicate(result[i]) {
            let (name, kind) = choose|name: Seq<char>, kind: SubID|
                result[i] == duplicate_finding(name, kind);
            if i < of_configs.len() {
                assert(result[i] == of_configs[i]);
                assert(of_configs[i].lxc_config_mapping_highlights.len() == 1);
            } else {
                assert(result[i] == baseline[i - of_configs.len()]);
            }
            assert(false);
        }
    }
    lemma_only_of_concat(of_configs, baseline, FindingKind::Good, baseline.len() as int);
    assert(only(result, FindingKind::Good, result.len() as int) =~= baseline);
}

/// The findings of a configuration are among those of all configurations.
pub proof fn lemma_config_findings_included(
    configs: Seq<(Seq<char>, Seq<ConfLine>)>,
    host: HostView,
    ids: IdentitiesView,
    table: Seq<(Seq<char>, RootfsInfoView)>,
    at: int,
    n: int,
    finding: FindingView,
)
    requires
        0 <= at < n <= configs.len(),
        config_findings(
            configs[at].0,
            configs[at].1,
            host,
            ids,
            rootfs_of(configs[at].1, table),
        ).contains(finding),
    ensures
        all_config_findings(configs, host, ids, table, n).contains(finding),
    decreases n,
{
    let before = all_config_findings(configs, host, ids, table, n - 1);
    let last = config_findings(
        configs[n - 1].0,
        configs[n - 1].1,
        host,
        ids,
        rootfs_of(configs[n - 1].1, table),
    );
    if at < n - 1 {
        lemma_config_findings_included(configs, host, ids, table, at, n - 1, finding);
        let i = choose|i: int| 0 <= i < before.len() && before[i] == finding;
        assert((before + last)[i] == finding);
    } else {
        let i = choose|i: int| 0 <= i < last.len() && last[i] == finding;
        assert((before + last)[before.len() + i] == finding);
    }
}

/// An unprivileged container without any ID mapping of one kind is
/// reported for it, whatever else is reported.
pub proof fn lemma_missing_idmap_reported(
    strict: bool,
    host: HostView,
    configs: Seq<(Seq<char>, Seq<ConfLine>)>,
    table: Seq<(Seq<char>, RootfsInfoView)>,
    ids: IdentitiesView,
    at: int,
    kind: SubID,
)
    requires
        0 <= at < configs.len(),
        is_unprivileged(configs[at].1),
        forall|i: int|
            0 <= i < idmap_values(configs[at].1).len() ==> !is_mapping_of(
                #[trigger] idmap_values(configs[at].1)[i],
                kind,
            ),
    ensures
        evaluation(strict, host, configs, table, ids).contains(
            not_set_finding(configs[at].0, kind),
        ),
{
    let filename = configs[at].0;
    let lines = configs[at].1;
    let values = idmap_values(lines);
    let rootfs = rootfs_of(lines, table);
    let finding = not_set_finding(filename, kind);
    let missing = not_set_findings(filename, values);
    let mapped = idmap_findings(filename, values, host, ids, rootfs, values.len() as int);
    lemma_has_kind(values, kind, values.len() as int);
    match kind {
        SubID::UID => {
            assert(missing[0] == finding);
        },
        SubID::GID => {
            assert(missing[missing.len() - 1] == finding);
        },
    }
    let at_missing = choose|i: int| 0 <= i < missing.len() && missing[i] == finding;
    assert((mapped + missing)[mapped.len() + at_missing] == finding);
    lemma_config_findings_included(configs, host, ids, table, at, configs.len() as int, finding);
    let of_configs = all_config_findings(configs, host, ids, table, configs.len() as int);
    let i = choose|i: int| 0 <= i < of_configs.len() && of_configs[i] == finding;
    let all = host_findings(host, strict) + of_configs;
    assert(all[host_findings(host, strict).len() + i] == finding);
    lemma_bad_first_same_findings(all, finding);
}

/// A container has an ID mapping of `kind` exactly if one of the values of
/// its `lxc.idmap` is one.
pub proof fn lemma_has_kind(values: Seq<Seq<char>>, kind: SubID, n: int)
    requires
        0 <= n <= values.len(),
    ensures
        has_kind(values, kind, n) == exists|i: int|
            0 <= i < n && is_mapping_of(#[trigger] values[i], kind),
    decreases n,
{
    if n > 0 {
        lemma_has_kind(values, kind, n - 1);
        if has_kind(values, kind, n - 1) {
            let i = choose|i: int| 0 <= i < n - 1 && is_mapping_of(#[trigger] values[i], kind);
            assert(0 <= i < n && is_mapping_of(values[i], kind));
        }
        if is_mapping_of(values[n - 1], kind) {
            assert(0 <= n - 1 < n && is_mapping_of(values[n - 1], kind));
        }
    }
}

/// An evaluation of a state that was just evaluated, with nothing changed
/// in between, gives the same findings in the same order.
pub proof fn lemma_evaluation_idempotent(
    before: State,
    once: State,
    twice: State,
    metadata: Metadata,
    ids: Identities,
)
    requires
        before.evaluates_to(once, metadata, ids),
        once.evaluates_to(twice, metadata, ids),
    ensures
        finding_views(twice.findings@) == finding_views(once.findings@),
{
}

} // verus!
