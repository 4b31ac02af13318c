//! The rules that findings come from: what the host's grants and a
//! container's ID mappings have to do with each other.
//!
//! Each rule is a spec function from plain values to the findings it
//! yields, and an executable function that is proved to compute it.

use vstd::prelude::*;
use crate::findings::{
    duplicate_finding, finding_views, no_duplicates_finding, not_set_finding, out_of_range_finding,
    rootfs_mismatch_finding, Finding, FindingKind, FindingView,
};
use crate::identity::{lookup_id, Identities, IdentitiesView};
use crate::lxc::config::{str_views, values_of, ConfLine, Config};
use crate::rootfs::{RootfsInfo, RootfsInfoView};
use crate::subid::{grant_views, Grant, HostMapping, HostView, IdMapEntry, SubID};
use crate::text::{
    chars_of, decimal_u32, parse_u32, same_chars, same_text, split, split_on, trim, trimmed, views,
};

verus! {

/// One ID mapping of a container: the container's IDs of one kind, counted
/// from the host ID `container_id`, are the host's sub-IDs from
/// `host_sub_id` on, `host_sub_id_count` of them.
#[derive(Clone, Copy, Debug, PartialEq, Eq, Structural)]
pub struct IdMapLine {
    pub kind: SubID,
    pub container_id: u32,
    pub host_sub_id: u32,
    pub host_sub_id_count: u32,
}

/// The kind that the first field of an ID mapping names.
pub open spec fn kind_of(field: Seq<char>) -> Option<SubID> {
    if field == "u"@ {
        Some(SubID::UID)
    } else if field == "g"@ {
        Some(SubID::GID)
    } else {
        None
    }
}

/// How the value of `lxc.idmap` is read: trimmed, then four fields with one
/// space between each two, `u` or `g` and three decimal numbers. Further
/// fields are not looked at. Any other value is no ID mapping.
pub open spec fn idmap_of(value: Seq<char>) -> Option<IdMapLine> {
    let fields = split(trimmed(value), ' ');
    if fields.len() < 4 {
        None
    } else {
        match (
            kind_of(fields[0]),
            decimal_u32(fields[1]),
            decimal_u32(fields[2]),
            decimal_u32(fields[3]),
        ) {
            (Some(kind), Some(container_id), Some(host_sub_id), Some(host_sub_id_count)) => Some(
                IdMapLine { kind, container_id, host_sub_id, host_sub_id_count },
            ),
            _ => None,
        }
    }
}

/// The number of the first `n` grants that are for `name`.
pub open spec fn count_name(grants: Seq<Grant>, name: Seq<char>, n: int) -> nat
    decreases n,
{
    if n <= 0 || n > grants.len() {
        0
    } else {
        count_name(grants, name, n - 1) + if grants[n - 1].name == name {
            1nat
        } else {
            0nat
        }
    }
}

/// The findings on names with several grants among the first `n`: one for
/// each name, where its second grant stands.
pub open spec fn duplicate_findings(grants: Seq<Grant>, kind: SubID, n: int) -> Seq<FindingView>
    decreases n,
{
    if n <= 0 || n > grants.len() {
        Seq::empty()
    } else {
        let before = duplicate_findings(grants, kind, n - 1);
        if count_name(grants, grants[n - 1].name, n - 1) == 1 {
            before.push(duplicate_finding(grants[n - 1].name, kind))
        } else {
            before
        }
    }
}

/// The findings on the host's grants. Where a name may have one grant only
/// (`strict`), each name with several grants is reported, users before
/// groups, and if there is none, that is reported. Elsewhere the grants
/// give no finding.
pub open spec fn host_findings(host: HostView, strict: bool) -> Seq<FindingView> {
    let found = duplicate_findings(host.subuid, SubID::UID, host.subuid.len() as int)
        + duplicate_findings(host.subgid, SubID::GID, host.subgid.len() as int);
    if !strict {
        Seq::empty()
    } else if found.len() == 0 {
        seq![no_duplicates_finding()]
    } else {
        found
    }
}

/// Tells whether an ID mapping stays within a grant: it starts inside the
/// granted range and does not reach beyond its end.
pub open spec fn within(line: IdMapLine, grant: Grant) -> bool {
    &&& grant.start <= line.host_sub_id
    &&& line.host_sub_id < grant.start + grant.count
    &&& line.host_sub_id + line.host_sub_id_count <= grant.start + grant.count
}

/// The findings of an ID mapping against the first `n` grants of its kind:
/// one for each grant whose name resolves to the mapping's host ID and whose
/// range the mapping leaves.
pub open spec fn range_findings(
    filename: Seq<char>,
    line: IdMapLine,
    grants: Seq<Grant>,
    ids: Seq<(Seq<char>, u32)>,
    n: int,
) -> Seq<FindingView>
    decreases n,
{
    if n <= 0 || n > grants.len() {
        Seq::empty()
    } else {
        let before = range_findings(filename, line, grants, ids, n - 1);
        let grant = grants[n - 1];
        if lookup_id(ids, grant.name) == Some(line.container_id) && !within(line, grant) {
            before.push(out_of_range_finding(filename, grant.name, line.kind))
        } else {
            before
        }
    }
}

/// The finding of an ID mapping against the owner of the container's root
/// filesystem, where that is known: the owner has to be the sub-ID that the
/// mapping starts at.
pub open spec fn ownership_findings(
    filename: Seq<char>,
    line: IdMapLine,
    rootfs: Option<RootfsInfoView>,
) -> Seq<FindingView> {
    match rootfs {
        Some(info) => if info.owner(line.kind) != line.host_sub_id {
            seq![rootfs_mismatch_finding(filename, line.kind)]
        } else {
            Seq::empty()
        },
        None => Seq::empty(),
    }
}

/// The findings of one value of `lxc.idmap`. A value that is no ID mapping
/// gives none.
pub open spec fn line_findings(
    filename: Seq<char>,
    value: Seq<char>,
    host: HostView,
    ids: IdentitiesView,
    rootfs: Option<RootfsInfoView>,
) -> Seq<FindingView> {
    match idmap_of(value) {
        None => Seq::empty(),
        Some(line) => ownership_findings(filename, line, rootfs) + range_findings(
            filename,
            line,
            host.grants(line.kind),
            ids.table(line.kind),
            host.grants(line.kind).len() as int,
        ),
    }
}

/// The findings of the first `n` values of `lxc.idmap`.
pub open spec fn idmap_findings(
    filename: Seq<char>,
    values: Seq<Seq<char>>,
    host: HostView,
    ids: IdentitiesView,
    rootfs: Option<RootfsInfoView>,
    n: int,
) -> Seq<FindingView>
    decreases n,
{
    if n <= 0 || n > values.len() {
        Seq::empty()
    } else {
        idmap_findings(filename, values, host, ids, rootfs, n - 1) + line_findings(
            filename,
            values[n - 1],
            host,
            ids,
            rootfs,
        )
    }
}

/// Tells whether a value is an ID mapping of `kind`.
pub open spec fn is_mapping_of(value: Seq<char>, kind: SubID) -> bool {
    idmap_of(value) matches Some(line) && line.kind == kind
}

/// Tells whether one of the first `n` values is an ID mapping of `kind`.
pub open spec fn has_kind(values: Seq<Seq<char>>, kind: SubID, n: int) -> bool
    decreases n,
{
    if n <= 0 || n > values.len() {
        false
    } else {
        has_kind(values, kind, n - 1) || is_mapping_of(values[n - 1], kind)
    }
}

/// The findings on kinds without any ID mapping, users before groups.
pub open spec fn not_set_findings(filename: Seq<char>, values: Seq<Seq<char>>) -> Seq<FindingView> {
    (if has_kind(values, SubID::UID, values.len() as int) {
        Seq::empty()
    } else {
        seq![not_set_finding(filename, SubID::UID)]
    }) + (if has_kind(values, SubID::GID, values.len() as int) {
        Seq::empty()
    } else {
        seq![not_set_finding(filename, SubID::GID)]
    })
}

/// Tells whether a configuration is that of an unprivileged container: the
/// first `unprivileged` of its unnamed section is `1`.
pub open spec fn is_unprivileged(lines: Seq<ConfLine>) -> bool {
    let values = values_of(lines, None, "unprivileged"@);
    values.len() > 0 && values[0] == "1"@
}

/// The ID mappings of a configuration: the values of `lxc.idmap` in its
/// unnamed section.
pub open spec fn idmap_values(lines: Seq<ConfLine>) -> Seq<Seq<char>> {
    values_of(lines, None, "lxc.idmap"@)
}

/// The findings of one configuration. A container that is not unprivileged
/// gives none. Every ID mapping of an unprivileged one is held against the
/// owner of the root filesystem and against the grants, in the order of the
/// mappings; then the kinds without any mapping are reported.
pub open spec fn config_findings(
    filename: Seq<char>,
    lines: Seq<ConfLine>,
    host: HostView,
    ids: IdentitiesView,
    rootfs: Option<RootfsInfoView>,
) -> Seq<FindingView> {
    if !is_unprivileged(lines) {
        Seq::empty()
    } else {
        let values = idmap_values(lines);
        idmap_findings(filename, values, host, ids, rootfs, values.len() as int)
            + not_set_findings(filename, values)
    }
}

/// The findings of `kind` among the first `n`, in their order.
pub open spec fn only(findings: Seq<FindingView>, kind: FindingKind, n: int) -> Seq<FindingView>
    decreases n,
{
    if n <= 0 || n > findings.len() {
        Seq::empty()
    } else if findings[n - 1].kind == kind {
        only(findings, kind, n - 1).push(findings[n - 1])
    } else {
        only(findings, kind, n - 1)
    }
}

/// The findings with the bad ones in front: the bad ones in their order,
/// then the good ones in theirs.
pub open spec fn bad_first(findings: Seq<FindingView>) -> Seq<FindingView> {
    only(findings, FindingKind::Bad, findings.len() as int) + only(
        findings,
        FindingKind::Good,
        findings.len() as int,
    )
}

/// No good finding stands in front of a bad one.
pub open spec fn bad_before_good(findings: Seq<FindingView>) -> bool {
    forall|i: int, j: int|
        0 <= i < j < findings.len() && (#[trigger] findings[j]).kind == FindingKind::Bad
            ==> (#[trigger] findings[i]).kind == FindingKind::Bad
}

/// The findings of one kind are of that kind, and each of them is one of
/// the findings.
pub proof fn lemma_only_kind(findings: Seq<FindingView>, kind: FindingKind, n: int)
    requires
        0 <= n <= findings.len(),
    ensures
        forall|i: int|
            0 <= i < only(findings, kind, n).len() ==> (#[trigger] only(findings, kind, n)[i]).kind
                == kind,
        forall|i: int|
            0 <= i < only(findings, kind, n).len() ==> findings.contains(
                #[trigger] only(findings, kind, n)[i],
            ),
        forall|i: int|
            0 <= i < n && findings[i].kind == kind ==> only(findings, kind, n).contains(
                #[trigger] findings[i],
            ),
    decreases n,
{
    if n > 0 {
        lemma_only_kind(findings, kind, n - 1);
        let before = only(findings, kind, n - 1);
        let now = only(findings, kind, n);
        assert forall|i: int| 0 <= i < n && findings[i].kind == kind implies now.contains(
            #[trigger] findings[i],
        ) by {
            if i < n - 1 {
                let at = choose|at: int| 0 <= at < before.len() && before[at] == findings[i];
                assert(now[at] == findings[i]);
            } else {
                assert(now[now.len() - 1] == findings[i]);
            }
        }
    }
}

/// In the order of an evaluation all bad findings come before all good
/// ones.
pub proof fn lemma_bad_first_ordered(findings: Seq<FindingView>)
    ensures
        bad_before_good(bad_first(findings)),
{
    let n = findings.len() as int;
    lemma_only_kind(findings, FindingKind::Bad, n);
    lemma_only_kind(findings, FindingKind::Good, n);
    let bad = only(findings, FindingKind::Bad, n);
    let good = only(findings, FindingKind::Good, n);
    let sorted = bad_first(findings);
    assert forall|i: int, j: int|
        0 <= i < j < sorted.len() && (#[trigger] sorted[j]).kind == FindingKind::Bad implies (
    #[trigger] sorted[i]).kind == FindingKind::Bad by {
        if j >= bad.len() {
            assert(sorted[j] == good[j - bad.len()]);
        }
        assert(sorted[i] == bad[i]);
    }
}

/// Adds a finding at the end.
fn push_finding(out: &mut Vec<Finding>, finding: Finding)
    ensures
        finding_views(final(out)@) == finding_views(old(out)@).push(finding@),
{
    let ghost before = out@;
    out.push(finding);
    assert(finding_views(out@) =~= finding_views(before).push(finding@));
}

/// Reads the value of an `lxc.idmap` key.
pub fn parse_idmap(value: &str) -> (r: Option<IdMapLine>)
    ensures
        r == idmap_of(value@),
{
    let text = trim(&chars_of(value));
    let fields = split_on(&text, ' ');
    if fields.len() < 4 {
        return None;
    }
    assert(views(fields@)[0] == fields@[0]@);
    assert(views(fields@)[1] == fields@[1]@);
    assert(views(fields@)[2] == fields@[2]@);
    assert(views(fields@)[3] == fields@[3]@);
    let kind = if same_chars(&fields[0], &chars_of("u")) {
        SubID::UID
    } else if same_chars(&fields[0], &chars_of("g")) {
        SubID::GID
    } else {
        return None;
    };
    let container_id = match parse_u32(&fields[1]) {
        Some(n) => n,
        None => {
            return None;
        },
    };
    let host_sub_id = match parse_u32(&fields[2]) {
        Some(n) => n,
        None => {
            return None;
        },
    };
    let host_sub_id_count = match parse_u32(&fields[3]) {
        Some(n) => n,
        None => {
            return None;
        },
    };
    Some(IdMapLine { kind, container_id, host_sub_id, host_sub_id_count })
}

/// Tells whether an ID mapping stays within a grant.
pub fn is_within(line: &IdMapLine, grant: &IdMapEntry) -> (r: bool)
    ensures
        r == within(*line, grant@),
{
    let end: u64 = grant.host_sub_id as u64 + grant.host_sub_id_count as u64;
    grant.host_sub_id <= line.host_sub_id && (line.host_sub_id as u64) < end
        && line.host_sub_id as u64 + line.host_sub_id_count as u64 <= end
}

/// Counts the grants before position `n` that are for the name of the
/// grant at `n`.
fn count_before(entries: &Vec<IdMapEntry>, n: usize) -> (r: usize)
    requires
        n < entries.len(),
    ensures
        r == count_name(grant_views(entries@), entries@[n as int].host_user_id@, n as int),
{
    let mut count: usize = 0;
    let mut j: usize = 0;
    while j < n
        invariant
            j <= n < entries.len(),
            count <= j,
            count == count_name(grant_views(entries@), entries@[n as int].host_user_id@, j as int),
        decreases n - j,
    {
        if entries[j].host_user_id == entries[n].host_user_id {
            count = count + 1;
        }
        j = j + 1;
    }
    count
}

/// Adds the findings on names with several grants of one kind.
fn add_duplicates(out: &mut Vec<Finding>, entries: &Vec<IdMapEntry>, kind: SubID)
    ensures
        finding_views(final(out)@) == finding_views(old(out)@) + duplicate_findings(
            grant_views(entries@),
            kind,
            entries.len() as int,
        ),
{
    let ghost base = finding_views(out@);
    let ghost grants = grant_views(entries@);
    let mut i: usize = 0;
    assert(finding_views(out@) =~= base + duplicate_findings(grants, kind, 0));
    while i < entries.len()
        invariant
            i <= entries.len(),
            grants == grant_views(entries@),
            finding_views(out@) == base + duplicate_findings(grants, kind, i as int),
        decreases entries.len() - i,
    {
        if count_before(entries, i) == 1 {
            push_finding(out, Finding::duplicate(entries[i].host_user_id.as_str(), kind));
        }
        assert(finding_views(out@) =~= base + duplicate_findings(grants, kind, i + 1));
        i = i + 1;
    }
}

/// The findings on the host's grants.
pub fn evaluate_host(host: &HostMapping, strict: bool) -> (out: Vec<Finding>)
    ensures
        finding_views(out@) == host_findings(host@, strict),
{
    let mut out: Vec<Finding> = Vec::new();
    assert(finding_views(out@) =~= Seq::<FindingView>::empty());
    if strict {
        add_duplicates(&mut out, &host.subuid, SubID::UID);
        add_duplicates(&mut out, &host.subgid, SubID::GID);
        assert(finding_views(out@) =~= duplicate_findings(
            host@.subuid,
            SubID::UID,
            host@.subuid.len() as int,
        ) + duplicate_findings(host@.subgid, SubID::GID, host@.subgid.len() as int));
        if out.len() == 0 {
            push_finding(&mut out, Finding::no_duplicates());
            assert(finding_views(out@) =~= seq![no_duplicates_finding()]);
        }
    }
    out
}

/// Adds the findings of one ID mapping.
fn add_line_findings(
    out: &mut Vec<Finding>,
    filename: &str,
    line: &IdMapLine,
    host: &HostMapping,
    ids: &Identities,
    rootfs: Option<&RootfsInfo>,
)
    ensures
        finding_views(final(out)@) == finding_views(old(out)@) + ownership_findings(
            filename@,
            *line,
            option_info_view(rootfs),
        ) + range_findings(
            filename@,
            *line,
            host@.grants(line.kind),
            ids@.table(line.kind),
            host@.grants(line.kind).len() as int,
        ),
{
    let ghost start = finding_views(out@);
    match rootfs {
        Some(info) => {
            if info.owner(line.kind) != line.host_sub_id {
                push_finding(out, Finding::rootfs_mismatch(filename, line.kind));
            }
        },
        None => {},
    }
    let ghost base = finding_views(out@);
    assert(base =~= start + ownership_findings(filename@, *line, option_info_view(rootfs)));
    let entries = host.entries(line.kind);
    let ghost grants = host@.grants(line.kind);
    let ghost table = ids@.table(line.kind);
    let mut k: usize = 0;
    assert(finding_views(out@) =~= base + range_findings(filename@, *line, grants, table, 0));
    while k < entries.len()
        invariant
            k <= entries.len(),
            grants == grant_views(entries@),
            table == ids@.table(line.kind),
            finding_views(out@) == base + range_findings(filename@, *line, grants, table, k as int),
        decreases entries.len() - k,
    {
        let entry = &entries[k];
        let resolved = ids.resolve(line.kind, entry.host_user_id.as_str());
        let matches = match resolved {
            Some(id) => id == line.container_id,
            None => false,
        };
        if matches && !is_within(line, entry) {
            push_finding(
                out,
                Finding::out_of_range(filename, entry.host_user_id.as_str(), line.kind),
            );
        }
        assert(finding_views(out@) =~= base + range_findings(
            filename@,
            *line,
            grants,
            table,
            k + 1,
        ));
        k = k + 1;
    }
}

/// The values among the first `n` that are no ID mapping, in their order.
pub open spec fn malformed(values: Seq<Seq<char>>, n: int) -> Seq<Seq<char>>
    decreases n,
{
    if n <= 0 || n > values.len() {
        Seq::empty()
    } else if idmap_of(values[n - 1]).is_none() {
        malformed(values, n - 1).push(values[n - 1])
    } else {
        malformed(values, n - 1)
    }
}

/// The values of `lxc.idmap` in a configuration's unnamed section that are
/// no ID mapping. An evaluation passes them over; here they are, for whoever
/// wants to tell the user.
pub fn malformed_idmaps(config: &Config) -> (r: Vec<&str>)
    ensures
        str_views(r@) == malformed(idmap_values(config@), idmap_values(config@).len() as int),
{
    let idmaps = config.section(None).get_lxc_idmaps();
    let ghost values = idmap_values(config@);
    let mut r: Vec<&str> = Vec::new();
    let mut i: usize = 0;
    assert(str_views(r@) =~= malformed(values, 0));
    while i < idmaps.len()
        invariant
            i <= idmaps.len(),
            values == str_views(idmaps@),
            str_views(r@) == malformed(values, i as int),
        decreases idmaps.len() - i,
    {
        assert(values[i as int] == idmaps@[i as int]@);
        if parse_idmap(idmaps[i]).is_none() {
            let ghost before = r@;
            r.push(idmaps[i]);
            assert(str_views(r@) =~= str_views(before).push(idmaps@[i as int]@));
        }
        i = i + 1;
    }
    r
}

/// The view of what may be known of a root filesystem.
pub open spec fn option_info_view(rootfs: Option<&RootfsInfo>) -> Option<RootfsInfoView> {
    match rootfs {
        Some(info) => Some(info@),
        None => None,
    }
}

/// The findings of one configuration, named by its file.
pub fn evaluate_config(
    filename: &str,
    config: &Config,
    host: &HostMapping,
    ids: &Identities,
    rootfs: Option<&RootfsInfo>,
) -> (out: Vec<Finding>)
    ensures
        finding_views(out@) == config_findings(
            filename@,
            config@,
            host@,
            ids@,
            option_info_view(rootfs),
        ),
{
    let mut out: Vec<Finding> = Vec::new();
    assert(finding_views(out@) =~= Seq::<FindingView>::empty());
    let section = config.section(None);
    let unprivileged = match section.get_unprivileged() {
        Some(value) => same_text(value, "1"),
        None => false,
    };
    if !unprivileged {
        return out;
    }
    let idmaps = section.get_lxc_idmaps();
    let ghost values = idmap_values(config@);
    let ghost info = option_info_view(rootfs);
    let mut has_user_idmap = false;
    let mut has_group_idmap = false;
    let mut i: usize = 0;
    assert(finding_views(out@) =~= idmap_findings(filename@, values, host@, ids@, info, 0));
    while i < idmaps.len()
        invariant
            i <= idmaps.len(),
            values == str_views(idmaps@),
            info == option_info_view(rootfs),
            finding_views(out@) == idmap_findings(filename@, values, host@, ids@, info, i as int),
            has_user_idmap == has_kind(values, SubID::UID, i as int),
            has_group_idmap == has_kind(values, SubID::GID, i as int),
        decreases idmaps.len() - i,
    {
        assert(values[i as int] == idmaps@[i as int]@);
        let ghost before = finding_views(out@);
        match parse_idmap(idmaps[i]) {
            Some(line) => {
                match line.kind {
                    SubID::UID => {
                        has_user_idmap = true;
                    },
                    SubID::GID => {
                        has_group_idmap = true;
                    },
                }
                add_line_findings(&mut out, filename, &line, host, ids, rootfs);
            },
            None => {},
        }
        assert(finding_views(out@) =~= before + line_findings(
            filename@,
            values[i as int],
            host@,
            ids@,
            info,
        ));
        i = i + 1;
    }
    let ghost mapped = finding_views(out@);
    if !has_user_idmap {
        push_finding(&mut out, Finding::not_set(filename, SubID::UID));
    }
    if !has_group_idmap {
        push_finding(&mut out, Finding::not_set(filename, SubID::GID));
    }
    assert(finding_views(out@) =~= mapped + not_set_findings(filename@, values));
    out
}

/// Puts the bad findings in front of the good ones, each kind in the order
/// that it had.
pub fn sort_bad_first(findings: Vec<Finding>) -> (out: Vec<Finding>)
    ensures
        finding_views(out@) == bad_first(finding_views(findings@)),
        bad_before_good(finding_views(out@)),
{
    proof {
        lemma_bad_first_ordered(finding_views(findings@));
    }
    let ghost all = finding_views(findings@);
    let mut bad: Vec<Finding> = Vec::new();
    let mut good: Vec<Finding> = Vec::new();
    assert(finding_views(bad@) =~= only(all, FindingKind::Bad, 0));
    assert(finding_views(good@) =~= only(all, FindingKind::Good, 0));
    for finding in it: findings
        invariant
            all == finding_views(it.seq()),
            finding_views(bad@) == only(all, FindingKind::Bad, it.index() as int),
            finding_views(good@) == only(all, FindingKind::Good, it.index() as int),
    {
        assert(all[it.index() as int] == finding@);
        match finding.kind {
            FindingKind::Bad => {
                push_finding(&mut bad, finding);
            },
            FindingKind::Good => {
                push_finding(&mut good, finding);
            },
        }
    }
    let ghost front = bad@;
    let ghost back = good@;
    bad.append(&mut good);
    assert(finding_views(bad@) =~= finding_views(front) + finding_views(back));
    bad
}

} // verus!
