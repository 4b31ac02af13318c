//! The host's sub-ID grants: the lines of `/etc/subuid` and `/etc/subgid`.

use vstd::prelude::*;
use crate::text::{
    chars_of, decimal_u32, lines, lines_of, parse_u32, same_text, split, split_on, string_of, trim,
    trimmed, views,
};

verus! {

/// The file that grants sub-GID ranges.
pub const ETC_SUBGID: &'static str = "/etc/subgid";

/// The file that grants sub-UID ranges.
pub const ETC_SUBUID: &'static str = "/etc/subuid";

/// The two kinds of sub-ID.
#[derive(Clone, Copy, Debug, PartialEq, Eq, Structural)]
pub enum SubID {
    UID,
    GID,
}

/// One grant: the host gives the user or group `host_user_id` the sub-IDs
/// from `host_sub_id` on, `host_sub_id_count` of them.
#[derive(Debug)]
pub struct IdMapEntry {
    pub host_user_id: String,
    pub host_sub_id: u32,
    pub host_sub_id_count: u32,
}

/// What an `IdMapEntry` holds, as plain values.
pub struct Grant {
    pub name: Seq<char>,
    pub start: u32,
    pub count: u32,
}

impl View for IdMapEntry {
    type V = Grant;

    open spec fn view(&self) -> Grant {
        Grant { name: self.host_user_id@, start: self.host_sub_id, count: self.host_sub_id_count }
    }
}

impl Clone for IdMapEntry {
    fn clone(&self) -> (r: Self)
        ensures
            r == *self,
    {
        IdMapEntry {
            host_user_id: self.host_user_id.clone(),
            host_sub_id: self.host_sub_id,
            host_sub_id_count: self.host_sub_id_count,
        }
    }
}

/// The grants of the host, in the order of their lines.
#[derive(Debug)]
pub struct HostMapping {
    pub subuid: Vec<IdMapEntry>,
    pub subgid: Vec<IdMapEntry>,
}

/// The views of a sequence of grants.
pub open spec fn grant_views(entries: Seq<IdMapEntry>) -> Seq<Grant> {
    entries.map_values(|e: IdMapEntry| e@)
}

/// Tells whether `names` lists the names of the grants: every name that
/// has a grant, once.
pub open spec fn lists_names(grants: Seq<Grant>, names: Seq<Seq<char>>) -> bool {
    &&& forall|t: int| 0 <= t < names.len() ==> has_grant(grants, #[trigger] names[t])
    &&& forall|j: int| 0 <= j < grants.len() ==> names.contains((#[trigger] grants[j]).name)
    &&& forall|t: int, u: int| 0 <= t < u < names.len() ==> names[t] != names[u]
}

/// The names of the first `n` grants, each once, in the order in which
/// they first occur.
pub open spec fn first_names(grants: Seq<Grant>, n: int) -> Seq<Seq<char>>
    decreases n,
{
    if n <= 0 || n > grants.len() {
        Seq::empty()
    } else if first_names(grants, n - 1).contains(grants[n - 1].name) {
        first_names(grants, n - 1)
    } else {
        first_names(grants, n - 1).push(grants[n - 1].name)
    }
}

/// The list of first occurrences holds every name that has a grant, once.
pub proof fn lemma_first_names(grants: Seq<Grant>, n: int)
    requires
        0 <= n <= grants.len(),
    ensures
        lists_names(grants.take(n), first_names(grants, n)),
    decreases n,
{
    let names = first_names(grants, n);
    if n > 0 {
        lemma_first_names(grants, n - 1);
        let before = first_names(grants, n - 1);
        let earlier = grants.take(n - 1);
        let now = grants.take(n);
        assert forall|t: int| 0 <= t < names.len() implies has_grant(now, #[trigger] names[t]) by {
            if t < before.len() {
                assert(has_grant(earlier, before[t]));
                let j = choose|j: int| 0 <= j < earlier.len() && (#[trigger] earlier[j]).name
                    == before[t];
                assert(now[j].name == names[t]);
            } else {
                assert(now[n - 1].name == names[t]);
            }
        }
        assert forall|j: int| 0 <= j < now.len() implies names.contains(
            (#[trigger] now[j]).name,
        ) by {
            if j < n - 1 {
                assert(before.contains(earlier[j].name));
                let t = choose|t: int| 0 <= t < before.len() && before[t] == earlier[j].name;
                assert(names[t] == now[j].name);
            } else if before.contains(grants[n - 1].name) {
                let t = choose|t: int| 0 <= t < before.len() && before[t] == grants[n - 1].name;
                assert(names[t] == now[j].name);
            } else {
                assert(names[names.len() - 1] == now[j].name);
            }
        }
    }
}

/// Tells whether `name` has a grant.
pub open spec fn has_grant(grants: Seq<Grant>, name: Seq<char>) -> bool {
    exists|j: int| 0 <= j < grants.len() && (#[trigger] grants[j]).name == name
}

/// The views of a sequence of names.
pub open spec fn name_views(names: Seq<&str>) -> Seq<Seq<char>> {
    names.map_values(|name: &str| name@)
}

/// What a `HostMapping` holds, as plain values.
pub struct HostView {
    pub subuid: Seq<Grant>,
    pub subgid: Seq<Grant>,
}

impl HostView {
    /// The grants of one kind.
    pub open spec fn grants(self, kind: SubID) -> Seq<Grant> {
        match kind {
            SubID::UID => self.subuid,
            SubID::GID => self.subgid,
        }
    }
}

impl View for HostMapping {
    type V = HostView;

    open spec fn view(&self) -> HostView {
        HostView { subuid: grant_views(self.subuid@), subgid: grant_views(self.subgid@) }
    }
}

impl HostMapping {
    /// A host without grants.
    pub fn new() -> (r: HostMapping)
        ensures
            r@.subuid == Seq::<Grant>::empty(),
            r@.subgid == Seq::<Grant>::empty(),
    {
        let r = HostMapping { subuid: Vec::new(), subgid: Vec::new() };
        assert(grant_views(r.subuid@) =~= Seq::<Grant>::empty());
        assert(grant_views(r.subgid@) =~= Seq::<Grant>::empty());
        r
    }

    /// The names that have grants of one kind, each once, in the order in
    /// which they first occur. These are the names whose IDs an evaluation
    /// asks for.
    pub fn names(&self, kind: SubID) -> (names: Vec<&str>)
        ensures
            name_views(names@) == first_names(
                self@.grants(kind),
                self@.grants(kind).len() as int,
            ),
    {
        let entries = self.entries(kind);
        let ghost grants = grant_views(entries@);
        let mut names: Vec<&str> = Vec::new();
        let mut i: usize = 0;
        assert(name_views(names@) =~= first_names(grants, 0));
        while i < entries.len()
            invariant
                i <= entries.len(),
                grants == grant_views(entries@),
                name_views(names@) == first_names(grants, i as int),
            decreases entries.len() - i,
        {
            let name = entries[i].host_user_id.as_str();
            let mut seen = false;
            let mut j: usize = 0;
            while j < names.len() && !seen
                invariant
                    j <= names.len(),
                    seen ==> name_views(names@).contains(name@),
                    !seen ==> forall|t: int| 0 <= t < j ==> name_views(names@)[t] != name@,
                decreases names.len() - j + if seen { 0int } else { 1int },
            {
                if same_text(names[j], name) {
                    seen = true;
                    assert(name_views(names@)[j as int] == name@);
                } else {
                    j = j + 1;
                }
            }
            if !seen {
                let ghost before = names@;
                names.push(name);
                assert(name_views(names@) =~= name_views(before).push(name@));
            }
            i = i + 1;
        }
        names
    }

    /// The grants of one kind.
    pub fn entries(&self, kind: SubID) -> (r: &Vec<IdMapEntry>)
        ensures
            grant_views(r@) == self@.grants(kind),
    {
        match kind {
            SubID::UID => &self.subuid,
            SubID::GID => &self.subgid,
        }
    }
}

/// What is wrong with a line of grants.
#[derive(Clone, Copy, Debug, PartialEq, Eq, Structural)]
pub enum SubIDError {
    /// Nothing follows the name.
    MissingSubID,
    /// The first sub-ID is no number.
    InvalidSubID,
    /// Nothing follows the first sub-ID.
    MissingCount,
    /// The count is no number.
    InvalidCount,
}

/// How one line, trimmed and not empty, is read: `name:first:count`, with
/// both numbers in decimal. What follows a third `:` is not looked at.
pub open spec fn parse_grant(line: Seq<char>) -> Result<Grant, SubIDError> {
    let fields = split(line, ':');
    if fields.len() < 2 {
        Err(SubIDError::MissingSubID)
    } else {
        match decimal_u32(fields[1]) {
            None => Err(SubIDError::InvalidSubID),
            Some(start) => if fields.len() < 3 {
                Err(SubIDError::MissingCount)
            } else {
                match decimal_u32(fields[2]) {
                    None => Err(SubIDError::InvalidCount),
                    Some(count) => Ok(Grant { name: fields[0], start, count }),
                }
            },
        }
    }
}

/// How the lines of a file of grants are read: blank lines are passed over,
/// every other line gives one grant, and the first line that cannot be read
/// fails the whole file with its error.
pub open spec fn parse_grants(lines: Seq<Seq<char>>) -> Result<Seq<Grant>, SubIDError>
    decreases lines.len(),
{
    if lines.len() == 0 {
        Ok(Seq::empty())
    } else {
        match parse_grants(lines.drop_last()) {
            Err(e) => Err(e),
            Ok(grants) => if trimmed(lines.last()).len() == 0 {
                Ok(grants)
            } else {
                match parse_grant(trimmed(lines.last())) {
                    Err(e) => Err(e),
                    Ok(grant) => Ok(grants.push(grant)),
                }
            },
        }
    }
}

/// Reads one line of grants, trimmed and not empty.
pub fn parse_subid_line(line: &Vec<char>) -> (r: Result<IdMapEntry, SubIDError>)
    ensures
        match r {
            Ok(entry) => parse_grant(line@) == Ok::<Grant, SubIDError>(entry@),
            Err(e) => parse_grant(line@) == Err::<Grant, SubIDError>(e),
        },
{
    let fields = split_on(line, ':');
    if fields.len() < 2 {
        return Err(SubIDError::MissingSubID);
    }
    assert(views(fields@)[0] == fields@[0]@);
    assert(views(fields@)[1] == fields@[1]@);
    let host_sub_id = match parse_u32(&fields[1]) {
        Some(n) => n,
        None => {
            return Err(SubIDError::InvalidSubID);
        },
    };
    if fields.len() < 3 {
        return Err(SubIDError::MissingCount);
    }
    assert(views(fields@)[2] == fields@[2]@);
    let host_sub_id_count = match parse_u32(&fields[2]) {
        Some(n) => n,
        None => {
            return Err(SubIDError::InvalidCount);
        },
    };
    Ok(IdMapEntry { host_user_id: string_of(&fields[0]), host_sub_id, host_sub_id_count })
}

/// Reads a file of grants.
pub fn parse_subid_map(content: &str) -> (r: Result<Vec<IdMapEntry>, SubIDError>)
    ensures
        match r {
            Ok(entries) => parse_grants(lines(content@)) == Ok::<Seq<Grant>, SubIDError>(
                grant_views(entries@),
            ),
            Err(e) => parse_grants(lines(content@)) == Err::<Seq<Grant>, SubIDError>(e),
        },
{
    let text = chars_of(content);
    let all = lines_of(&text);
    let mut id_map: Vec<IdMapEntry> = Vec::new();
    let mut i: usize = 0;
    assert(views(all@).take(0) =~= Seq::<Seq<char>>::empty());
    assert(grant_views(id_map@) =~= Seq::<Grant>::empty());
    while i < all.len()
        invariant
            i <= all.len(),
            views(all@) == lines(content@),
            parse_grants(views(all@).take(i as int)) == Ok::<Seq<Grant>, SubIDError>(
                grant_views(id_map@),
            ),
        decreases all.len() - i,
    {
        let trimmed_line = trim(&all[i]);
        let ghost upto = views(all@).take(i + 1);
        assert(upto.drop_last() =~= views(all@).take(i as int));
        assert(upto.last() == all@[i as int]@);
        if trimmed_line.len() != 0 {
            match parse_subid_line(&trimmed_line) {
                Ok(entry) => {
                    let ghost before = id_map@;
                    id_map.push(entry);
                    assert(grant_views(id_map@) =~= grant_views(before).push(entry@));
                },
                Err(e) => {
                    proof {
                        lemma_parse_grants_fails(views(all@), i + 1, e);
                    }
                    return Err(e);
                },
            }
        }
        i = i + 1;
    }
    assert(views(all@).take(i as int) =~= views(all@));
    Ok(id_map)
}

/// Once a prefix of the lines fails, the whole file fails in the same way.
pub proof fn lemma_parse_grants_fails(lines: Seq<Seq<char>>, n: int, e: SubIDError)
    requires
        0 <= n <= lines.len(),
        parse_grants(lines.take(n)) == Err::<Seq<Grant>, SubIDError>(e),
    ensures
        parse_grants(lines) == Err::<Seq<Grant>, SubIDError>(e),
    decreases lines.len() - n,
{
    if n < lines.len() {
        assert(lines.take(n + 1).drop_last() =~= lines.take(n));
        lemma_parse_grants_fails(lines, n + 1, e);
    } else {
        assert(lines.take(n) =~= lines);
    }
}

} // verus!
