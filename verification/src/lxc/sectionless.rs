//! What the lines above the first section header say, read from the lines
//! themselves. Keys are taken by how they begin, so that `lxc.idmap` also
//! stands for keys that go on behind these characters.

use vstd::prelude::*;
use crate::lxc::config::{entry_views, section_at, str_views, ConfEntry, ConfLine, Config};
use crate::text::{chars_of, has_prefix, same_text, starts_with};

verus! {

/// Tells whether the line at `at` stands above every section header and
/// sets a key that begins with `prefix`.
pub open spec fn sets_prefixed(entries: Seq<ConfLine>, at: int, prefix: Seq<char>) -> bool {
    &&& 0 <= at < entries.len()
    &&& entries[at] matches ConfLine::KeyValue(key, _)
    &&& has_prefix(key, prefix)
    &&& section_at(entries, at).is_none()
}

/// The values among the first `n` lines that stand above every section
/// header and belong to a key that begins with `prefix`, in their order.
pub open spec fn prefixed_values(entries: Seq<ConfLine>, prefix: Seq<char>, n: int) -> Seq<
    Seq<char>,
>
    decreases n,
{
    if n <= 0 || n > entries.len() {
        Seq::empty()
    } else if sets_prefixed(entries, n - 1, prefix) {
        prefixed_values(entries, prefix, n - 1).push(entries[n - 1]->KeyValue_1)
    } else {
        prefixed_values(entries, prefix, n - 1)
    }
}

/// Tells whether one of the first `n` lines stands above every section
/// header and sets `unprivileged` to `1`.
pub open spec fn says_unprivileged(entries: Seq<ConfLine>, n: int) -> bool
    decreases n,
{
    if n <= 0 || n > entries.len() {
        false
    } else {
        says_unprivileged(entries, n - 1) || (section_at(entries, n - 1).is_none() && entries[n
            - 1] == ConfLine::KeyValue("unprivileged"@, "1"@))
    }
}

/// Behind a section header every line belongs to a section.
pub proof fn lemma_below_header(entries: Seq<ConfLine>, header: int, at: int)
    requires
        0 <= header < at <= entries.len(),
        entries[header] is Section,
    ensures
        section_at(entries, at).is_some(),
    decreases at,
{
    if at - 1 > header && !(entries[at - 1] is Section) {
        lemma_below_header(entries, header, at - 1);
    }
}

/// Behind a section header no line adds to what the lines above it say.
pub proof fn lemma_nothing_below_header(
    entries: Seq<ConfLine>,
    prefix: Seq<char>,
    header: int,
    n: int,
)
    requires
        0 <= header <= n <= entries.len(),
        header < entries.len() ==> entries[header] is Section,
    ensures
        prefixed_values(entries, prefix, n) == prefixed_values(entries, prefix, header),
        says_unprivileged(entries, n) == says_unprivileged(entries, header),
    decreases n,
{
    if n > header {
        lemma_nothing_below_header(entries, prefix, header, n - 1);
        if n - 1 > header {
            lemma_below_header(entries, header, n - 1);
        }
    }
}

impl Config {
    /// The values of the keys that begin with `prefix`, of the lines above
    /// the first section header.
    fn sectionless_values(&self, prefix: &str) -> (r: Vec<&str>)
        ensures
            str_views(r@) == prefixed_values(self@, prefix@, self@.len() as int),
    {
        let entries = self.entries();
        let wanted = chars_of(prefix);
        let ghost lines = entry_views(entries@);
        let mut r: Vec<&str> = Vec::new();
        let mut i: usize = 0;
        assert(str_views(r@) =~= prefixed_values(lines, prefix@, 0));
        while i < entries.len()
            invariant
                i <= entries.len(),
                lines == entry_views(entries@),
                lines == self@,
                wanted@ == prefix@,
                section_at(lines, i as int).is_none(),
                str_views(r@) == prefixed_values(lines, prefix@, i as int),
            decreases entries.len() - i,
        {
            assert(lines[i as int] == entries@[i as int]@);
            match &entries[i] {
                ConfEntry::Section(_) => {
                    proof {
                        lemma_nothing_below_header(lines, prefix@, i as int, lines.len() as int);
                    }
                    return r;
                },
                ConfEntry::KeyValue(key, value) => {
                    if starts_with(&chars_of(key.as_str()), &wanted) {
                        let ghost before = r@;
                        r.push(value.as_str());
                        assert(str_views(r@) =~= str_views(before).push(value@));
                    }
                },
                _ => {},
            }
            i = i + 1;
        }
        r
    }

    /// Tells whether a line above the first section header sets
    /// `unprivileged` to `1`.
    pub fn sectionlesss_is_unprivileged(&self) -> (r: bool)
        ensures
            r == says_unprivileged(self@, self@.len() as int),
    {
        let entries = self.entries();
        let ghost lines = entry_views(entries@);
        let mut i: usize = 0;
        while i < entries.len()
            invariant
                i <= entries.len(),
                lines == entry_views(entries@),
                lines == self@,
                section_at(lines, i as int).is_none(),
                !says_unprivileged(lines, i as int),
            decreases entries.len() - i,
        {
            assert(lines[i as int] == entries@[i as int]@);
            match &entries[i] {
                ConfEntry::Section(_) => {
                    proof {
                        lemma_nothing_below_header(
                            lines,
                            Seq::empty(),
                            i as int,
                            lines.len() as int,
                        );
                    }
                    return false;
                },
                ConfEntry::KeyValue(key, value) => {
                    if same_text(key.as_str(), "unprivileged") && same_text(value.as_str(), "1") {
                        proof {
                            lemma_unprivileged_stays(lines, i + 1, lines.len() as int);
                        }
                        return true;
                    }
                },
                _ => {},
            }
            i = i + 1;
        }
        false
    }

    /// The ID mappings above the first section header: the values of the
    /// keys that begin with `lxc.idmap`.
    pub fn sectionless_idmap(&self) -> (r: Vec<&str>)
        ensures
            str_views(r@) == prefixed_values(self@, "lxc.idmap"@, self@.len() as int),
    {
        self.sectionless_values("lxc.idmap")
    }

    /// The root-filesystem descriptor above the first section header: the
    /// first value of a key that begins with `rootfs`.
    pub fn sectionless_rootfs(&self) -> (r: Option<&str>)
        ensures
            match r {
                Some(value) => prefixed_values(self@, "rootfs"@, self@.len() as int).len() > 0
                    && value@ == prefixed_values(self@, "rootfs"@, self@.len() as int)[0],
                None => prefixed_values(self@, "rootfs"@, self@.len() as int).len() == 0,
            },
    {
        let values = self.sectionless_values("rootfs");
        if values.len() > 0 {
            assert(str_views(values@)[0] == values@[0]@);
            Some(values[0])
        } else {
            None
        }
    }
}

/// What the lines say of `unprivileged` is not unsaid by later lines.
pub proof fn lemma_unprivileged_stays(entries: Seq<ConfLine>, from: int, n: int)
    requires
        0 <= from <= n <= entries.len(),
        says_unprivileged(entries, from),
    ensures
        says_unprivileged(entries, n),
    decreases n,
{
    if n > from {
        lemma_unprivileged_stays(entries, from, n - 1);
    }
}

} // verus!
