//! The numeric IDs of the host's users and groups.
//!
//! Names are resolved outside this library, by asking the system. What came
//! back is kept here for one evaluation, so that each name is asked for
//! once however many grants and ID mappings mention it.

use vstd::prelude::*;
use crate::subid::SubID;
use crate::text::{chars_of, decimal_u32, parse_u32, trim, trimmed};

verus! {

/// Why a name has no numeric ID.
#[derive(Clone, Copy, Debug, PartialEq, Eq, Structural)]
pub enum ResolutionError {
    /// The lookup ended with an error.
    CommandFailed,
    /// The lookup printed something that is no ID.
    InvalidOutput,
}

/// The ID that a lookup gave: the number that it printed, if it ended
/// without error.
pub open spec fn output_id(success: bool, output: Seq<char>) -> Result<u32, ResolutionError> {
    if !success {
        Err(ResolutionError::CommandFailed)
    } else {
        match decimal_u32(trimmed(output)) {
            Some(id) => Ok(id),
            None => Err(ResolutionError::InvalidOutput),
        }
    }
}

/// Reads what a lookup of a name printed.
pub fn id_from_output(success: bool, output: &str) -> (r: Result<u32, ResolutionError>)
    ensures
        r == output_id(success, output@),
{
    if !success {
        return Err(ResolutionError::CommandFailed);
    }
    let text = trim(&chars_of(output));
    match parse_u32(&text) {
        Some(id) => Ok(id),
        None => Err(ResolutionError::InvalidOutput),
    }
}

/// The ID of `name` in a table of names and IDs: that of the first entry
/// with this name.
pub open spec fn lookup_id(table: Seq<(Seq<char>, u32)>, name: Seq<char>) -> Option<u32>
    decreases table.len(),
{
    if table.len() == 0 {
        None
    } else {
        match lookup_id(table.drop_last(), name) {
            Some(id) => Some(id),
            None => if table.last().0 == name {
                Some(table.last().1)
            } else {
                None
            },
        }
    }
}

/// The views of a table of names and IDs.
pub open spec fn table_view(table: Seq<(String, u32)>) -> Seq<(Seq<char>, u32)> {
    table.map_values(|e: (String, u32)| (e.0@, e.1))
}

/// What was found in a prefix of a table is what the table gives.
pub proof fn lemma_lookup_found(table: Seq<(Seq<char>, u32)>, name: Seq<char>, n: int)
    requires
        0 <= n <= table.len(),
        lookup_id(table.take(n), name).is_some(),
    ensures
        lookup_id(table, name) == lookup_id(table.take(n), name),
    decreases table.len() - n,
{
    if n < table.len() {
        assert(table.take(n + 1).drop_last() =~= table.take(n));
        lemma_lookup_found(table, name, n + 1);
    } else {
        assert(table.take(n) =~= table);
    }
}

/// The IDs that the host's user and group names resolved to. A name that is
/// not listed has no ID.
#[derive(Debug)]
pub struct Identities {
    pub users: Vec<(String, u32)>,
    pub groups: Vec<(String, u32)>,
}

/// What `Identities` holds, as plain values.
pub struct IdentitiesView {
    pub users: Seq<(Seq<char>, u32)>,
    pub groups: Seq<(Seq<char>, u32)>,
}

impl IdentitiesView {
    /// The table of one kind.
    pub open spec fn table(self, kind: SubID) -> Seq<(Seq<char>, u32)> {
        match kind {
            SubID::UID => self.users,
            SubID::GID => self.groups,
        }
    }
}

impl View for Identities {
    type V = IdentitiesView;

    open spec fn view(&self) -> IdentitiesView {
        IdentitiesView { users: table_view(self.users@), groups: table_view(self.groups@) }
    }
}

/// Looks a name up in a table.
fn lookup(table: &Vec<(String, u32)>, name: &str) -> (r: Option<u32>)
    ensures
        r == lookup_id(table_view(table@), name@),
{
    let wanted = name.to_owned();
    let mut i: usize = 0;
    let ghost view = table_view(table@);
    assert(view.take(0) =~= Seq::<(Seq<char>, u32)>::empty());
    while i < table.len()
        invariant
            i <= table.len(),
            view == table_view(table@),
            wanted@ == name@,
            lookup_id(view.take(i as int), name@).is_none(),
        decreases table.len() - i,
    {
        assert(view.take(i + 1).drop_last() =~= view.take(i as int));
        assert(view.take(i + 1).last() == (table@[i as int].0@, table@[i as int].1));
        if table[i].0 == wanted {
            proof {
                lemma_lookup_found(view, name@, i + 1);
            }
            return Some(table[i].1);
        }
        i = i + 1;
    }
    assert(view.take(i as int) =~= view);
    None
}

impl Identities {
    /// No name has an ID.
    pub fn new() -> (r: Identities)
        ensures
            r@.users == Seq::<(Seq<char>, u32)>::empty(),
            r@.groups == Seq::<(Seq<char>, u32)>::empty(),
    {
        let r = Identities { users: Vec::new(), groups: Vec::new() };
        assert(table_view(r.users@) =~= Seq::<(Seq<char>, u32)>::empty());
        assert(table_view(r.groups@) =~= Seq::<(Seq<char>, u32)>::empty());
        r
    }

    /// The ID of the user or group `name`.
    pub fn resolve(&self, kind: SubID, name: &str) -> (r: Option<u32>)
        ensures
            r == lookup_id(self@.table(kind), name@),
    {
        match kind {
            SubID::UID => lookup(&self.users, name),
            SubID::GID => lookup(&self.groups, name),
        }
    }

    /// Notes that the user or group `name` has the ID `id`. The first ID
    /// noted for a name stays.
    pub fn record(&mut self, kind: SubID, name: &str, id: u32)
        ensures
            final(self)@.table(kind) == old(self)@.table(kind).push((name@, id)),
            kind == SubID::UID ==> final(self)@.groups == old(self)@.groups,
            kind == SubID::GID ==> final(self)@.users == old(self)@.users,
    {
        match kind {
            SubID::UID => {
                let ghost before = self.users@;
                self.users.push((name.to_owned(), id));
                assert(table_view(self.users@) =~= table_view(before).push((name@, id)));
            },
            SubID::GID => {
                let ghost before = self.groups@;
                self.groups.push((name.to_owned(), id));
                assert(table_view(self.groups@) =~= table_view(before).push((name@, id)));
            },
        }
    }
}

} // verus!
