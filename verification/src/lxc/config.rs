//! A Proxmox LXC container configuration: its lines, kept in full so that
//! the file can be written back, and an index from section and key to the
//! values of that key.

use vstd::prelude::*;
use crate::lxc::section::SectionView;
use crate::lxc::section_mut::SectionViewMut;
use crate::text::{
    chars_of, find_from, first_index, join, lines, lines_of, string_of, string_views, subvec, trim,
    trimmed, views,
};

verus! {

/// One line of a configuration.
#[derive(Debug)]
pub enum ConfEntry {
    /// `[name]`: the lines that follow belong to the section `name`.
    Section(String),
    /// A key and its value. A line without delimiter is a key with an
    /// empty value.
    KeyValue(String, String),
    /// A line that starts with `#` or `;`, with that character.
    Comment(String),
    EmptyLine,
}

/// What a `ConfEntry` holds, as plain text.
pub enum ConfLine {
    Section(Seq<char>),
    KeyValue(Seq<char>, Seq<char>),
    Comment(Seq<char>),
    EmptyLine,
}

impl View for ConfEntry {
    type V = ConfLine;

    open spec fn view(&self) -> ConfLine {
        match *self {
            ConfEntry::Section(name) => ConfLine::Section(name@),
            ConfEntry::KeyValue(key, value) => ConfLine::KeyValue(key@, value@),
            ConfEntry::Comment(text) => ConfLine::Comment(text@),
            ConfEntry::EmptyLine => ConfLine::EmptyLine,
        }
    }
}

impl Clone for ConfEntry {
    fn clone(&self) -> (r: Self)
        ensures
            r == *self,
    {
        match self {
            ConfEntry::Section(name) => ConfEntry::Section(name.clone()),
            ConfEntry::KeyValue(key, value) => ConfEntry::KeyValue(key.clone(), value.clone()),
            ConfEntry::Comment(text) => ConfEntry::Comment(text.clone()),
            ConfEntry::EmptyLine => ConfEntry::EmptyLine,
        }
    }
}

/// A section's name: `None` is the unnamed section that a file starts in.
pub type SectionName = Option<Seq<char>>;

/// How one line of text is read. The line is trimmed first. Nothing left is
/// an empty line; `#` or `;` in front makes a comment; `[` in front and `]`
/// at the end make a section header. Any other line is a key and a value,
/// parted at the first `:` or, if there is none, at the first `=`, both
/// trimmed; without either the whole line is a key with an empty value.
pub open spec fn parse_line(line: Seq<char>) -> ConfLine {
    let t = trimmed(line);
    if t.len() == 0 {
        ConfLine::EmptyLine
    } else if t[0] == '#' || t[0] == ';' {
        ConfLine::Comment(t)
    } else if t[0] == '[' && t.last() == ']' {
        ConfLine::Section(t.subrange(1, t.len() - 1))
    } else {
        let at = delimiter(t);
        if at < t.len() {
            ConfLine::KeyValue(trimmed(t.take(at)), trimmed(t.skip(at + 1)))
        } else {
            ConfLine::KeyValue(t, Seq::empty())
        }
    }
}

/// Where key and value part: the first `:`, else the first `=`, else the
/// line's length.
pub open spec fn delimiter(t: Seq<char>) -> int {
    if first_index(t, ':') < t.len() {
        first_index(t, ':')
    } else {
        first_index(t, '=')
    }
}

/// How a configuration text is read: line by line.
pub open spec fn parse_text(text: Seq<char>) -> Seq<ConfLine> {
    lines(text).map_values(|line: Seq<char>| parse_line(line))
}

/// How one line is written.
pub open spec fn render_line(line: ConfLine) -> Seq<char> {
    match line {
        ConfLine::Section(name) => seq!['['] + name + seq![']'],
        ConfLine::KeyValue(key, value) => key + seq![':', ' '] + value,
        ConfLine::Comment(text) => text,
        ConfLine::EmptyLine => Seq::empty(),
    }
}

/// How a configuration is written: its lines with a line feed between each
/// two, and none at the end.
pub open spec fn render(entries: Seq<ConfLine>) -> Seq<char> {
    join(entries.map_values(|line: ConfLine| render_line(line)), '\n')
}

/// The section that a line at position `at` belongs to: the name in the
/// nearest section header above it, if there is one.
pub open spec fn section_at(entries: Seq<ConfLine>, at: int) -> SectionName
    decreases at,
{
    if at <= 0 || at > entries.len() {
        None
    } else {
        match entries[at - 1] {
            ConfLine::Section(name) => Some(name),
            _ => section_at(entries, at - 1),
        }
    }
}

/// Tells whether the line at `at` sets `key` in `section`.
pub open spec fn sets_key(
    entries: Seq<ConfLine>,
    at: int,
    section: SectionName,
    key: Seq<char>,
) -> bool {
    &&& 0 <= at < entries.len()
    &&& entries[at] matches ConfLine::KeyValue(k, _)
    &&& k == key
    &&& section_at(entries, at) == section
}

/// The values that `key` has in `section`, in the order of their lines.
pub open spec fn values_of(entries: Seq<ConfLine>, section: SectionName, key: Seq<char>) -> Seq<
    Seq<char>,
>
    decreases entries.len(),
{
    if entries.len() == 0 {
        Seq::empty()
    } else {
        let before = values_of(entries.drop_last(), section, key);
        match entries.last() {
            ConfLine::KeyValue(k, v) => if sets_key(entries, entries.len() - 1, section, key) {
                before.push(v)
            } else {
                before
            },
            _ => before,
        }
    }
}

/// The views of a sequence of entries.
pub open spec fn entry_views(entries: Seq<ConfEntry>) -> Seq<ConfLine> {
    entries.map_values(|e: ConfEntry| e@)
}

/// The view of an optional section name.
pub open spec fn name_view(section: Option<String>) -> SectionName {
    match section {
        Some(name) => Some(name@),
        None => None,
    }
}

/// The view of an optional section name given as a string slice.
pub open spec fn str_name_view(section: Option<&str>) -> SectionName {
    match section {
        Some(name) => Some(name@),
        None => None,
    }
}

/// The views of a sequence of string slices.
pub open spec fn str_views(v: Seq<&str>) -> Seq<Seq<char>> {
    v.map_values(|x: &str| x@)
}

/// The values of one key in one section.
#[derive(Debug)]
struct IndexSlot {
    section: Option<String>,
    key: String,
    values: Vec<String>,
}

/// A copy of a slot.
fn copy_slot(slot: &IndexSlot) -> (r: IndexSlot)
    ensures
        r.section == slot.section,
        r.key == slot.key,
        r.values@ == slot.values@,
{
    let mut values: Vec<String> = Vec::new();
    let mut i: usize = 0;
    while i < slot.values.len()
        invariant
            i <= slot.values.len(),
            values@ == slot.values@.take(i as int),
        decreases slot.values.len() - i,
    {
        values.push(slot.values[i].clone());
        assert(values@ =~= slot.values@.take(i + 1));
        i = i + 1;
    }
    assert(slot.values@.take(i as int) =~= slot.values@);
    IndexSlot { section: slot.section.clone(), key: slot.key.clone(), values }
}

/// Tells whether `keys` lists the keys of `section`: each key that has a
/// value in the section, once.
pub open spec fn lists_keys(
    entries: Seq<ConfLine>,
    section: SectionName,
    keys: Seq<Seq<char>>,
) -> bool {
    &&& forall|i: int|
        0 <= i < keys.len() ==> values_of(entries, section, #[trigger] keys[i]).len() > 0
    &&& forall|key: Seq<char>|
        (#[trigger] values_of(entries, section, key)).len() > 0 ==> keys.contains(key)
    &&& forall|i: int, j: int| 0 <= i < j < keys.len() ==> keys[i] != keys[j]
}

/// Tells whether slot `j` is the slot of `key` in `section`.
spec fn slot_is(index: Seq<IndexSlot>, j: int, section: SectionName, key: Seq<char>) -> bool {
    0 <= j < index.len() && name_view(index[j].section) == section && index[j].key@ == key
}

/// Each slot holds the values of its key, and at least one.
spec fn slots_hold_values(entries: Seq<ConfLine>, index: Seq<IndexSlot>) -> bool {
    forall|j: int|
        0 <= j < index.len() ==> (#[trigger] index[j]).values@.len() > 0 && string_views(
            index[j].values@,
        ) == values_of(entries, name_view(index[j].section), index[j].key@)
}

/// No two slots are for the same key of the same section.
spec fn slots_differ(index: Seq<IndexSlot>) -> bool {
    forall|i: int, j: int, section: SectionName, key: Seq<char>|
        #[trigger] slot_is(index, i, section, key) && #[trigger] slot_is(index, j, section, key)
            ==> i == j
}

/// Every key that has a value has a slot.
spec fn slots_cover(entries: Seq<ConfLine>, index: Seq<IndexSlot>) -> bool {
    forall|section: SectionName, key: Seq<char>|
        (#[trigger] values_of(entries, section, key)).len() > 0 ==> exists|j: int|
            slot_is(index, j, section, key)
}

/// The index agrees with the lines.
spec fn consistent(entries: Seq<ConfLine>, index: Seq<IndexSlot>) -> bool {
    &&& slots_hold_values(entries, index)
    &&& slots_differ(index)
    &&& slots_cover(entries, index)
}

/// The section at a position depends only on the lines above it.
pub proof fn lemma_section_at_prefix(a: Seq<ConfLine>, b: Seq<ConfLine>, at: int)
    requires
        0 <= at <= a.len(),
        at <= b.len(),
        a.take(at) == b.take(at),
    ensures
        section_at(a, at) == section_at(b, at),
    decreases at,
{
    if at > 0 {
        assert(a[at - 1] == a.take(at)[at - 1]);
        assert(b[at - 1] == b.take(at)[at - 1]);
        assert(a.take(at - 1) =~= a.take(at).take(at - 1));
        assert(b.take(at - 1) =~= b.take(at).take(at - 1));
        lemma_section_at_prefix(a, b, at - 1);
    }
}

/// A line added at the end adds its value to its own key and section, and
/// changes the values of no other key.
pub proof fn lemma_values_of_push(
    entries: Seq<ConfLine>,
    line: ConfLine,
    section: SectionName,
    key: Seq<char>,
)
    ensures
        values_of(entries.push(line), section, key) == match line {
            ConfLine::KeyValue(k, v) => if k == key && section_at(entries, entries.len() as int)
                == section {
                values_of(entries, section, key).push(v)
            } else {
                values_of(entries, section, key)
            },
            _ => values_of(entries, section, key),
        },
{
    let longer = entries.push(line);
    assert(longer.drop_last() =~= entries);
    assert(longer.take(entries.len() as int) =~= entries.take(entries.len() as int));
    lemma_section_at_prefix(longer, entries, entries.len() as int);
}


/// A container configuration.
///
/// The lines and the index are private, and every value of this type keeps
/// them in agreement: the index holds, for each key of each section, exactly
/// the values that the lines give it, in their order.
#[derive(Debug)]
pub struct Config {
    entries: Vec<ConfEntry>,
    index: Vec<IndexSlot>,
}

impl View for Config {
    type V = Seq<ConfLine>;

    closed spec fn view(&self) -> Seq<ConfLine> {
        entry_views(self.entries@)
    }
}

impl Clone for Config {
    fn clone(&self) -> (r: Self)
        ensures
            r@ == self@,
    {
        proof {
            use_type_invariant(self);
        }
        let mut entries: Vec<ConfEntry> = Vec::new();
        let mut i: usize = 0;
        while i < self.entries.len()
            invariant
                i <= self.entries.len(),
                entries@ == self.entries@.take(i as int),
            decreases self.entries.len() - i,
        {
            entries.push(self.entries[i].clone());
            assert(entries@ =~= self.entries@.take(i + 1));
            i = i + 1;
        }
        assert(self.entries@.take(i as int) =~= self.entries@);
        let mut index: Vec<IndexSlot> = Vec::new();
        let mut j: usize = 0;
        while j < self.index.len()
            invariant
                j <= self.index.len(),
                index@.len() == j,
                forall|t: int|
                    0 <= t < j ==> (#[trigger] index@[t]).section == self.index@[t].section
                        && index@[t].key == self.index@[t].key && index@[t].values@
                        == self.index@[t].values@,
            decreases self.index.len() - j,
        {
            index.push(copy_slot(&self.index[j]));
            j = j + 1;
        }
        proof {
            let lines = entry_views(self.entries@);
            assert forall|t: int, s: SectionName, k: Seq<char>| slot_is(index@, t, s, k)
                == slot_is(self.index@, t, s, k) by {}
            assert forall|t: int| 0 <= t < index@.len() implies (#[trigger] index@[t]).values@.len()
                > 0 && string_views(index@[t].values@) == values_of(
                lines,
                name_view(index@[t].section),
                index@[t].key@,
            ) by {
                assert(slot_is(self.index@, t, name_view(index@[t].section), index@[t].key@));
            }
            assert forall|a: int, b: int, s: SectionName, k: Seq<char>| #[trigger]
                slot_is(index@, a, s, k) && #[trigger] slot_is(index@, b, s, k) implies a == b by {
                assert(slot_is(self.index@, a, s, k) && slot_is(self.index@, b, s, k));
            }
            assert forall|s: SectionName, k: Seq<char>|
                (#[trigger] values_of(lines, s, k)).len() > 0 implies exists|t: int|
                slot_is(index@, t, s, k) by {
                let t = choose|t: int| slot_is(self.index@, t, s, k);
                assert(slot_is(index@, t, s, k));
            }
        }
        Config { entries, index }
    }
}

/// Reads one line.
pub fn parse_entry(line: &Vec<char>) -> (entry: ConfEntry)
    ensures
        entry@ == parse_line(line@),
{
    let t = trim(line);
    let n = t.len();
    if n == 0 {
        ConfEntry::EmptyLine
    } else if t[0] == '#' || t[0] == ';' {
        ConfEntry::Comment(string_of(&t))
    } else if t[0] == '[' && t[n - 1] == ']' {
        let name = subvec(&t, 1, n - 1);
        ConfEntry::Section(string_of(&name))
    } else {
        assert(t@.skip(0) =~= t@);
        let colon = find_from(&t, 0, ':');
        let at = if colon < n {
            colon
        } else {
            find_from(&t, 0, '=')
        };
        if at < n {
            let key = trim(&subvec(&t, 0, at));
            let value = trim(&subvec(&t, at + 1, n));
            assert(t@.subrange(0, at as int) =~= t@.take(at as int));
            assert(t@.subrange(at + 1, n as int) =~= t@.skip(at + 1));
            ConfEntry::KeyValue(string_of(&key), string_of(&value))
        } else {
            ConfEntry::KeyValue(string_of(&t), String::new())
        }
    }
}

/// Tells whether two optional names are the same.
fn same_name(a: &Option<String>, b: &Option<String>) -> (r: bool)
    ensures
        r == (name_view(*a) == name_view(*b)),
{
    match (a, b) {
        (Some(x), Some(y)) => *x == *y,
        (None, None) => true,
        _ => false,
    }
}

/// An owned copy of an optional name.
fn owned_name(section: Option<&str>) -> (r: Option<String>)
    ensures
        name_view(r) == str_name_view(section),
{
    match section {
        Some(name) => Some(name.to_owned()),
        None => None,
    }
}

/// The slot of `key` in `section`, if the index has one.
fn find_slot(index: &Vec<IndexSlot>, section: &Option<String>, key: &String) -> (r: Option<usize>)
    ensures
        match r {
            Some(j) => slot_is(index@, j as int, name_view(*section), key@),
            None => forall|j: int| !slot_is(index@, j, name_view(*section), key@),
        },
{
    let mut j: usize = 0;
    while j < index.len()
        invariant
            j <= index.len(),
            forall|i: int| 0 <= i < j ==> !slot_is(index@, i, name_view(*section), key@),
        decreases index.len() - j,
    {
        if same_name(&index[j].section, section) && index[j].key == *key {
            return Some(j);
        }
        j = j + 1;
    }
    None
}

/// Records in the index one more value of `key` in `section`. `before` are
/// the lines that the index agreed with, `after` the lines that give the
/// key this one value more and leave every other key as it was.
fn index_add(
    index: &mut Vec<IndexSlot>,
    section: &Option<String>,
    key: &String,
    value: &String,
    Ghost(before): Ghost<Seq<ConfLine>>,
    Ghost(after): Ghost<Seq<ConfLine>>,
)
    requires
        consistent(before, old(index)@),
        forall|s: SectionName, k: Seq<char>| #[trigger]
            values_of(after, s, k) == if k == key@ && s == name_view(*section) {
                values_of(before, s, k).push(value@)
            } else {
                values_of(before, s, k)
            },
    ensures
        consistent(after, final(index)@),
{
    let ghost was = index@;
    match find_slot(index, section, key) {
        Some(j) => {
            let mut slot = index.remove(j);
            let ghost old_values = slot.values@;
            slot.values.push(value.clone());
            assert(string_views(slot.values@) =~= string_views(old_values).push(value@));
            index.insert(j, slot);
            assert(index@.len() == was.len());
            assert forall|i: int, s: SectionName, k: Seq<char>| slot_is(index@, i, s, k)
                == slot_is(was, i, s, k) by {}
            assert forall|i: int| 0 <= i < index@.len() implies (#[trigger] index@[i]).values@.len()
                > 0 && string_views(index@[i].values@) == values_of(
                after,
                name_view(index@[i].section),
                index@[i].key@,
            ) by {
                assert(slot_is(was, i, name_view(was[i].section), was[i].key@));
                assert(slot_is(was, j as int, name_view(*section), key@));
                if i != j {
                    assert(index@[i] == was[i]);
                }
            }
            assert forall|s: SectionName, k: Seq<char>|
                (#[trigger] values_of(after, s, k)).len() > 0 implies exists|i: int|
                slot_is(index@, i, s, k) by {
                if k == key@ && s == name_view(*section) {
                    assert(slot_is(index@, j as int, s, k));
                } else {
                    assert(values_of(before, s, k).len() > 0);
                    let i = choose|i: int| slot_is(was, i, s, k);
                    assert(slot_is(index@, i, s, k));
                }
            }
            assert forall|a: int, b: int, s: SectionName, k: Seq<char>| #[trigger]
                slot_is(index@, a, s, k) && #[trigger] slot_is(index@, b, s, k) implies a == b by {
                assert(slot_is(was, a, s, k) && slot_is(was, b, s, k));
            }
        },
        None => {
            let mut values: Vec<String> = Vec::new();
            values.push(value.clone());
            let slot = IndexSlot { section: section.clone(), key: key.clone(), values };
            assert(name_view(slot.section) == name_view(*section));
            assert(values_of(before, name_view(*section), key@).len() == 0) by {
                if values_of(before, name_view(*section), key@).len() > 0 {
                    let i = choose|i: int| slot_is(was, i, name_view(*section), key@);
                    assert(false);
                }
            }
            assert(string_views(slot.values@) =~= Seq::<Seq<char>>::empty().push(value@));
            index.push(slot);
            let ghost last = was.len() as int;
            assert forall|i: int, s: SectionName, k: Seq<char>| 0 <= i < last implies slot_is(
                index@,
                i,
                s,
                k,
            ) == slot_is(was, i, s, k) by {}
            assert forall|i: int| 0 <= i < index@.len() implies (#[trigger] index@[i]).values@.len()
                > 0 && string_views(index@[i].values@) == values_of(
                after,
                name_view(index@[i].section),
                index@[i].key@,
            ) by {
                if i < last {
                    assert(index@[i] == was[i]);
                    assert(slot_is(was, i, name_view(was[i].section), was[i].key@));
                }
            }
            assert forall|a: int, b: int, s: SectionName, k: Seq<char>| #[trigger]
                slot_is(index@, a, s, k) && #[trigger] slot_is(index@, b, s, k) implies a == b by {
                if a < last {
                    assert(slot_is(was, a, s, k));
                }
                if b < last {
                    assert(slot_is(was, b, s, k));
                }
            }
            assert forall|s: SectionName, k: Seq<char>|
                (#[trigger] values_of(after, s, k)).len() > 0 implies exists|i: int|
                slot_is(index@, i, s, k) by {
                if k == key@ && s == name_view(*section) {
                    assert(slot_is(index@, last, s, k));
                } else {
                    assert(values_of(before, s, k).len() > 0);
                    let i = choose|i: int| slot_is(was, i, s, k);
                    assert(slot_is(index@, i, s, k));
                }
            }
        },
    }
}

/// Appends the characters of `s` to `out`.
fn append_str(out: &mut Vec<char>, s: &str)
    ensures
        final(out)@ == old(out)@ + s@,
{
    let mut chars = chars_of(s);
    out.append(&mut chars);
}

impl Config {
    /// The invariant of the type: the index agrees with the lines.
    #[verifier::type_invariant]
    closed spec fn well_formed(self) -> bool {
        consistent(entry_views(self.entries@), self.index@)
    }

    /// A configuration without lines.
    pub fn new() -> (config: Config)
        ensures
            config@ == Seq::<ConfLine>::empty(),
    {
        let config = Config { entries: Vec::new(), index: Vec::new() };
        assert(entry_views(config.entries@) =~= Seq::<ConfLine>::empty());
        config
    }

    /// Reads a configuration. No text is refused: a line that is neither
    /// empty, comment nor section header is kept as a key, with whatever
    /// value can be made out.
    pub fn from_str(content: &str) -> (config: Config)
        ensures
            config@ == parse_text(content@),
    {
        let text = chars_of(content);
        let all = lines_of(&text);
        let mut entries: Vec<ConfEntry> = Vec::new();
        let mut index: Vec<IndexSlot> = Vec::new();
        let mut current: Option<String> = None;
        let mut i: usize = 0;
        assert(entry_views(entries@) =~= parse_text(content@).take(0));
        while i < all.len()
            invariant
                i <= all.len(),
                views(all@) == lines(content@),
                entry_views(entries@) == parse_text(content@).take(i as int),
                consistent(entry_views(entries@), index@),
                name_view(current) == section_at(entry_views(entries@), entries@.len() as int),
            decreases all.len() - i,
        {
            let entry = parse_entry(&all[i]);
            let ghost before = entry_views(entries@);
            let ghost after = before.push(entry@);
            assert(views(all@)[i as int] == all@[i as int]@);
            assert(parse_text(content@)[i as int] == entry@);
            proof {
                assert forall|s: SectionName, k: Seq<char>| #[trigger]
                    values_of(after, s, k) == match entry@ {
                        ConfLine::KeyValue(k0, v0) => if k == k0 && s == name_view(current) {
                            values_of(before, s, k).push(v0)
                        } else {
                            values_of(before, s, k)
                        },
                        _ => values_of(before, s, k),
                    } by {
                    lemma_values_of_push(before, entry@, s, k);
                }
                assert(after.take(before.len() as int) =~= before.take(before.len() as int));
                lemma_section_at_prefix(after, before, before.len() as int);
                assert(after[after.len() - 1] == entry@);
            }
            match &entry {
                ConfEntry::Section(name) => {
                    current = Some(name.clone());
                },
                ConfEntry::KeyValue(key, value) => {
                    index_add(&mut index, &current, key, value, Ghost(before), Ghost(after));
                },
                _ => {},
            }
            entries.push(entry);
            assert(entry_views(entries@) =~= after);
            assert(parse_text(content@).take(i + 1) =~= parse_text(content@).take(i as int).push(
                entry@,
            ));
            i = i + 1;
        }
        assert(parse_text(content@).take(i as int) =~= parse_text(content@));
        Config { entries, index }
    }

    /// The lines of the configuration.
    pub fn entries(&self) -> (entries: &Vec<ConfEntry>)
        ensures
            entry_views(entries@) == self@,
    {
        &self.entries
    }

    /// Writes the configuration as text.
    pub fn to_string(&self) -> (text: String)
        ensures
            text@ == render(self@),
    {
        let mut out: Vec<char> = Vec::new();
        let mut i: usize = 0;
        let ghost rendered = self@.map_values(|line: ConfLine| render_line(line));
        assert(rendered.take(0) =~= Seq::<Seq<char>>::empty());
        while i < self.entries.len()
            invariant
                i <= self.entries.len(),
                rendered == self@.map_values(|line: ConfLine| render_line(line)),
                self@ == entry_views(self.entries@),
                out@ == join(rendered.take(i as int), '\n'),
            decreases self.entries.len() - i,
        {
            let ghost before = out@;
            if i != 0 {
                out.push('\n');
            }
            match &self.entries[i] {
                ConfEntry::Section(name) => {
                    out.push('[');
                    append_str(&mut out, name.as_str());
                    out.push(']');
                },
                ConfEntry::KeyValue(key, value) => {
                    append_str(&mut out, key.as_str());
                    out.push(':');
                    out.push(' ');
                    append_str(&mut out, value.as_str());
                },
                ConfEntry::Comment(text) => {
                    append_str(&mut out, text.as_str());
                },
                ConfEntry::EmptyLine => {},
            }
            proof {
                let line = rendered[i as int];
                assert(line == render_line(self.entries@[i as int]@));
                let upto = rendered.take(i + 1);
                assert(upto.drop_last() =~= rendered.take(i as int));
                assert(upto.last() == line);
                if i == 0 {
                    assert(out@ =~= line);
                } else {
                    assert(out@ =~= before + seq!['\n'] + line);
                }
            }
            i = i + 1;
        }
        assert(rendered.take(i as int) =~= rendered);
        string_of(&out)
    }

    /// The values of `key` in `section`, where it has any.
    pub fn values(&self, section: Option<&str>, key: &str) -> (r: Option<&Vec<String>>)
        ensures
            match r {
                Some(values) => values@.len() > 0 && string_views(values@) == values_of(
                    self@,
                    str_name_view(section),
                    key@,
                ),
                None => values_of(self@, str_name_view(section), key@).len() == 0,
            },
    {
        proof {
            use_type_invariant(self);
        }
        let name = owned_name(section);
        let wanted = key.to_owned();
        match find_slot(&self.index, &name, &wanted) {
            Some(j) => Some(&self.index[j].values),
            None => None,
        }
    }

    /// The keys of `section`, each once, in no particular order.
    pub fn keys(&self, section: Option<&str>) -> (keys: Vec<&str>)
        ensures
            lists_keys(self@, str_name_view(section), str_views(keys@)),
    {
        proof {
            use_type_invariant(self);
        }
        let name = owned_name(section);
        let ghost wanted = str_name_view(section);
        let mut keys: Vec<&str> = Vec::new();
        let ghost mut picked: Seq<int> = Seq::empty();
        let mut j: usize = 0;
        while j < self.index.len()
            invariant
                j <= self.index.len(),
                name_view(name) == wanted,
                consistent(self@, self.index@),
                picked.len() == keys@.len(),
                forall|t: int|
                    0 <= t < picked.len() ==> 0 <= #[trigger] picked[t] < j && slot_is(
                        self.index@,
                        picked[t],
                        wanted,
                        keys@[t]@,
                    ),
                forall|t: int, u: int| 0 <= t < u < picked.len() ==> picked[t] < picked[u],
                forall|i: int|
                    0 <= i < j && name_view(#[trigger] self.index@[i].section) == wanted
                        ==> picked.contains(i),
            decreases self.index.len() - j,
        {
            if same_name(&self.index[j].section, &name) {
                let ghost before = picked;
                keys.push(self.index[j].key.as_str());
                proof {
                    picked = picked.push(j as int);
                    assert forall|i: int|
                        0 <= i < j + 1 && name_view(#[trigger] self.index@[i].section)
                            == wanted implies picked.contains(i) by {
                        if i < j {
                            let t = choose|t: int| 0 <= t < before.len() && before[t] == i;
                            assert(picked[t] == i);
                        } else {
                            assert(picked[before.len() as int] == i);
                        }
                    }
                }
            }
            j = j + 1;
        }
        proof {
            let listed = str_views(keys@);
            assert forall|i: int| 0 <= i < listed.len() implies values_of(
                self@,
                wanted,
                #[trigger] listed[i],
            ).len() > 0 by {
                assert(slot_is(self.index@, picked[i], wanted, keys@[i]@));
                assert(self.index@[picked[i]].values@.len() > 0);
            }
            assert forall|key: Seq<char>|
                (#[trigger] values_of(self@, wanted, key)).len() > 0 implies listed.contains(
                key,
            ) by {
                let i = choose|i: int| slot_is(self.index@, i, wanted, key);
                assert(name_view(self.index@[i].section) == wanted);
                let t = choose|t: int| 0 <= t < picked.len() && picked[t] == i;
                assert(slot_is(self.index@, picked[t], wanted, keys@[t]@));
                assert(listed[t] == key);
            }
            assert forall|t: int, u: int| 0 <= t < u < listed.len() implies listed[t]
                != listed[u] by {
                if listed[t] == listed[u] {
                    assert(slot_is(self.index@, picked[t], wanted, keys@[t]@));
                    assert(slot_is(self.index@, picked[u], wanted, keys@[u]@));
                    assert(picked[t] == picked[u]);
                }
            }
        }
        keys
    }

    /// A read-only view of one section; `None` is the unnamed section that
    /// the file starts in.
    pub fn section<'s>(&self, section: Option<&'s str>) -> (view: SectionView<'s, '_>)
        ensures
            view.lines() == self@,
            view.name() == str_name_view(section),
    {
        SectionView::new(self, section)
    }
}

/// The lines without those among the first `n` that set `key` in `section`.
pub open spec fn without_key_upto(
    entries: Seq<ConfLine>,
    section: SectionName,
    key: Seq<char>,
    n: int,
) -> Seq<ConfLine>
    decreases n,
{
    if n <= 0 || n > entries.len() {
        Seq::empty()
    } else if sets_key(entries, n - 1, section, key) {
        without_key_upto(entries, section, key, n - 1)
    } else {
        without_key_upto(entries, section, key, n - 1).push(entries[n - 1])
    }
}

/// The lines without those that set `key` in `section`.
pub open spec fn without_key(entries: Seq<ConfLine>, section: SectionName, key: Seq<char>) -> Seq<
    ConfLine,
> {
    without_key_upto(entries, section, key, entries.len() as int)
}

/// Tells whether the line at `at` sets some key in `section`.
pub open spec fn sets_in(entries: Seq<ConfLine>, at: int, section: SectionName) -> bool {
    &&& 0 <= at < entries.len()
    &&& entries[at] is KeyValue
    &&& section_at(entries, at) == section
}

/// The position of the last line among the first `n` that sets a key in
/// `section`, or -1.
pub open spec fn last_key_line(entries: Seq<ConfLine>, section: SectionName, n: int) -> int
    decreases n,
{
    if n <= 0 {
        -1
    } else if sets_in(entries, n - 1, section) {
        n - 1
    } else {
        last_key_line(entries, section, n - 1)
    }
}

/// The last position up to `n` at which a line would belong to `section`,
/// or -1.
pub open spec fn last_position_in(entries: Seq<ConfLine>, section: SectionName, n: int) -> int
    decreases n + 1,
{
    if n < 0 {
        -1
    } else if section_at(entries, n) == section {
        n
    } else {
        last_position_in(entries, section, n - 1)
    }
}

/// Where a new line of `section` goes: behind the last line that sets a key
/// in the section; if no line does, to the end of the last stretch of lines
/// that belong to the section; -1 if there is no such stretch, which is so
/// only for a named section without header.
pub open spec fn append_point(entries: Seq<ConfLine>, section: SectionName) -> int {
    let last = last_key_line(entries, section, entries.len() as int);
    if last >= 0 {
        last + 1
    } else {
        last_position_in(entries, section, entries.len() as int)
    }
}

/// The lines with one more value of `key` in `section`, in a new line at
/// the section's append point. A section that does not exist yet is
/// started at the end, and the new line follows its header.
pub open spec fn with_value(
    entries: Seq<ConfLine>,
    section: SectionName,
    key: Seq<char>,
    value: Seq<char>,
) -> Seq<ConfLine> {
    let at = append_point(entries, section);
    if at >= 0 {
        entries.insert(at, ConfLine::KeyValue(key, value))
    } else {
        entries.push(ConfLine::Section(section.unwrap())).push(ConfLine::KeyValue(key, value))
    }
}

/// Lines that are removed take the values of their key with them and leave
/// every other key, and the section at the end, as they were.
pub proof fn lemma_without_key_upto(
    entries: Seq<ConfLine>,
    section: SectionName,
    key: Seq<char>,
    n: int,
    s: SectionName,
    k: Seq<char>,
)
    requires
        0 <= n <= entries.len(),
    ensures
        values_of(without_key_upto(entries, section, key, n), s, k) == if s == section && k
            == key {
            Seq::<Seq<char>>::empty()
        } else {
            values_of(entries.take(n), s, k)
        },
        section_at(
            without_key_upto(entries, section, key, n),
            without_key_upto(entries, section, key, n).len() as int,
        ) == section_at(entries, n),
    decreases n,
{
    if n > 0 {
        lemma_without_key_upto(entries, section, key, n - 1, s, k);
        let kept = without_key_upto(entries, section, key, n - 1);
        let line = entries[n - 1];
        assert(entries.take(n) =~= entries.take(n - 1).push(line));
        assert(entries.take(n - 1).take(n - 1) =~= entries.take(n - 1));
        lemma_section_at_prefix(entries.take(n - 1), entries, n - 1);
        lemma_values_of_push(entries.take(n - 1), line, s, k);
        if !sets_key(entries, n - 1, section, key) {
            lemma_values_of_push(kept, line, s, k);
            assert(kept.push(line).take(kept.len() as int) =~= kept.take(kept.len() as int));
            lemma_section_at_prefix(kept.push(line), kept, kept.len() as int);
        }
    } else {
        assert(entries.take(0) =~= Seq::<ConfLine>::empty());
    }
}

/// After the lines that set a key in a section are removed, the key has no
/// value in the section, and every other key has the values that it had.
pub proof fn lemma_without_key_values(
    entries: Seq<ConfLine>,
    section: SectionName,
    key: Seq<char>,
    s: SectionName,
    k: Seq<char>,
)
    ensures
        values_of(without_key(entries, section, key), s, k) == if s == section && k == key {
            Seq::<Seq<char>>::empty()
        } else {
            values_of(entries, s, k)
        },
{
    lemma_without_key_upto(entries, section, key, entries.len() as int, s, k);
    assert(entries.take(entries.len() as int) =~= entries);
}

/// What `last_key_line` returns: a line that sets a key in the section, with
/// no such line behind it among the first `n`; or -1 if there is none.
pub proof fn lemma_last_key_line(entries: Seq<ConfLine>, section: SectionName, n: int)
    requires
        0 <= n <= entries.len(),
    ensures
        -1 <= last_key_line(entries, section, n) < n,
        last_key_line(entries, section, n) >= 0 ==> sets_in(
            entries,
            last_key_line(entries, section, n),
            section,
        ),
        forall|i: int|
            last_key_line(entries, section, n) < i < n ==> !sets_in(entries, i, section),
    decreases n,
{
    if n > 0 && !sets_in(entries, n - 1, section) {
        lemma_last_key_line(entries, section, n - 1);
    }
}

/// What `last_position_in` returns: a position of the section, or -1.
pub proof fn lemma_last_position_in(entries: Seq<ConfLine>, section: SectionName, n: int)
    requires
        -1 <= n <= entries.len(),
    ensures
        -1 <= last_position_in(entries, section, n) <= n,
        last_position_in(entries, section, n) >= 0 ==> section_at(
            entries,
            last_position_in(entries, section, n),
        ) == section,
        section.is_none() && n >= 0 ==> last_position_in(entries, section, n) >= 0,
    decreases n + 1,
{
    if n >= 0 && section_at(entries, n) != section {
        lemma_last_position_in(entries, section, n - 1);
    }
}

/// A line that is no section header, put in at `at`, moves the lines behind
/// it down and leaves each in its section.
pub proof fn lemma_section_at_insert(entries: Seq<ConfLine>, at: int, line: ConfLine, n: int)
    requires
        0 <= at <= n <= entries.len(),
        !(line is Section),
    ensures
        section_at(entries.insert(at, line), n + 1) == section_at(entries, n),
    decreases n - at,
{
    let longer = entries.insert(at, line);
    if n == at {
        assert(longer[at] == line);
        assert(longer.take(at) =~= entries.take(at));
        lemma_section_at_prefix(longer, entries, at);
    } else {
        assert(longer[n] == entries[n - 1]);
        lemma_section_at_insert(entries, at, line, n - 1);
    }
}

/// A new line of a key, put in where it belongs to `section` and behind
/// every line that sets the key there, adds its value behind the key's
/// values and changes the values of no other key.
pub proof fn lemma_values_of_insert(
    entries: Seq<ConfLine>,
    at: int,
    section: SectionName,
    key: Seq<char>,
    value: Seq<char>,
    n: int,
    s: SectionName,
    k: Seq<char>,
)
    requires
        0 <= at <= n <= entries.len(),
        section_at(entries, at) == section,
        forall|i: int| at <= i < entries.len() ==> !sets_key(entries, i, section, key),
    ensures
        values_of(entries.insert(at, ConfLine::KeyValue(key, value)).take(n + 1), s, k) == if s
            == section && k == key {
            values_of(entries.take(n), s, k).push(value)
        } else {
            values_of(entries.take(n), s, k)
        },
    decreases n - at,
{
    let line = ConfLine::KeyValue(key, value);
    let longer = entries.insert(at, line);
    if n == at {
        assert(longer.take(at + 1) =~= entries.take(at).push(line));
        assert(entries.take(at).take(at) =~= entries.take(at));
        lemma_section_at_prefix(entries.take(at), entries, at);
        lemma_values_of_push(entries.take(at), line, s, k);
    } else {
        lemma_values_of_insert(entries, at, section, key, value, n - 1, s, k);
        let moved = entries[n - 1];
        assert(longer.take(n + 1) =~= longer.take(n).push(moved));
        assert(entries.take(n) =~= entries.take(n - 1).push(moved));
        lemma_values_of_push(longer.take(n), moved, s, k);
        lemma_values_of_push(entries.take(n - 1), moved, s, k);
        assert(longer.take(n).take(n) =~= longer.take(n));
        lemma_section_at_prefix(longer.take(n), longer, n);
        assert(entries.take(n - 1).take(n - 1) =~= entries.take(n - 1));
        lemma_section_at_prefix(entries.take(n - 1), entries, n - 1);
        lemma_section_at_insert(entries, at, line, n - 1);
        assert(!sets_key(entries, n - 1, section, key));
    }
}

/// After a value is appended to a key of a section, the key has its old
/// values and then the new one, and every other key has the values that it
/// had.
pub proof fn lemma_with_value_values(
    entries: Seq<ConfLine>,
    section: SectionName,
    key: Seq<char>,
    value: Seq<char>,
    s: SectionName,
    k: Seq<char>,
)
    ensures
        values_of(with_value(entries, section, key, value), s, k) == if s == section && k
            == key {
            values_of(entries, s, k).push(value)
        } else {
            values_of(entries, s, k)
        },
{
    let n = entries.len() as int;
    let at = append_point(entries, section);
    let last = last_key_line(entries, section, n);
    lemma_last_key_line(entries, section, n);
    lemma_last_position_in(entries, section, n);
    if at >= 0 {
        assert(section_at(entries, at) == section);
        assert forall|i: int| at <= i < entries.len() implies !sets_key(
            entries,
            i,
            section,
            key,
        ) by {
            assert(!sets_in(entries, i, section));
        }
        lemma_values_of_insert(entries, at, section, key, value, n, s, k);
        let longer = entries.insert(at, ConfLine::KeyValue(key, value));
        assert(longer.take(n + 1) =~= longer);
        assert(entries.take(n) =~= entries);
    } else {
        let header = ConfLine::Section(section.unwrap());
        let started = entries.push(header);
        lemma_values_of_push(entries, header, s, k);
        lemma_values_of_push(started, ConfLine::KeyValue(key, value), s, k);
        assert(section_at(started, started.len() as int) == section);
    }
}

/// Takes the slot of `key` in `section` out of the index. `before` are the
/// lines that the index agreed with, `after` the lines that give the key no
/// value and leave every other key as it was.
fn index_remove(
    index: &mut Vec<IndexSlot>,
    section: &Option<String>,
    key: &String,
    Ghost(before): Ghost<Seq<ConfLine>>,
    Ghost(after): Ghost<Seq<ConfLine>>,
)
    requires
        consistent(before, old(index)@),
        forall|s: SectionName, k: Seq<char>| #[trigger]
            values_of(after, s, k) == if k == key@ && s == name_view(*section) {
                Seq::<Seq<char>>::empty()
            } else {
                values_of(before, s, k)
            },
    ensures
        consistent(after, final(index)@),
{
    let ghost was = index@;
    match find_slot(index, section, key) {
        Some(j) => {
            index.remove(j);
            assert forall|i: int, s: SectionName, k: Seq<char>| slot_is(index@, i, s, k) == (if i
                < j {
                slot_is(was, i, s, k)
            } else {
                slot_is(was, i + 1, s, k)
            }) by {}
            assert forall|i: int| 0 <= i < index@.len() implies (#[trigger] index@[i]).values@.len()
                > 0 && string_views(index@[i].values@) == values_of(
                after,
                name_view(index@[i].section),
                index@[i].key@,
            ) by {
                let from = if i < j {
                    i
                } else {
                    i + 1
                };
                assert(index@[i] == was[from]);
                assert(slot_is(was, from, name_view(was[from].section), was[from].key@));
                assert(slot_is(was, j as int, name_view(*section), key@));
            }
            assert forall|a: int, b: int, s: SectionName, k: Seq<char>| #[trigger]
                slot_is(index@, a, s, k) && #[trigger] slot_is(index@, b, s, k) implies a == b by {
                let from_a = if a < j {
                    a
                } else {
                    a + 1
                };
                let from_b = if b < j {
                    b
                } else {
                    b + 1
                };
                assert(slot_is(was, from_a, s, k) && slot_is(was, from_b, s, k));
            }
            assert forall|s: SectionName, k: Seq<char>|
                (#[trigger] values_of(after, s, k)).len() > 0 implies exists|i: int|
                slot_is(index@, i, s, k) by {
                assert(values_of(before, s, k).len() > 0);
                let from = choose|i: int| slot_is(was, i, s, k);
                assert(slot_is(was, j as int, name_view(*section), key@));
                if from < j {
                    assert(slot_is(index@, from, s, k));
                } else {
                    assert(slot_is(index@, from - 1, s, k));
                }
            }
        },
        None => {
            assert(values_of(before, name_view(*section), key@).len() == 0) by {
                if values_of(before, name_view(*section), key@).len() > 0 {
                    let i = choose|i: int| slot_is(was, i, name_view(*section), key@);
                    assert(false);
                }
            }
            assert forall|s: SectionName, k: Seq<char>| #[trigger]
                values_of(after, s, k) == values_of(before, s, k) by {
                if k == key@ && s == name_view(*section) {
                    assert(values_of(before, s, k) =~= Seq::<Seq<char>>::empty());
                }
            }
            assert forall|i: int| 0 <= i < index@.len() implies (#[trigger] index@[i]).values@.len()
                > 0 && string_views(index@[i].values@) == values_of(
                after,
                name_view(index@[i].section),
                index@[i].key@,
            ) by {
                assert(slot_is(was, i, name_view(was[i].section), was[i].key@));
            }
            assert forall|s: SectionName, k: Seq<char>|
                (#[trigger] values_of(after, s, k)).len() > 0 implies exists|i: int|
                slot_is(index@, i, s, k) by {
                assert(values_of(before, s, k).len() > 0);
            }
        },
    }
}

/// Tells whether a header names the section.
fn is_section(section: &Option<String>, header: &String) -> (r: bool)
    ensures
        r == (name_view(*section) == Some(header@)),
{
    match section {
        Some(name) => *name == *header,
        None => false,
    }
}

/// Where a new line of `section` goes.
fn find_append_point(entries: &Vec<ConfEntry>, section: &Option<String>) -> (r: Option<usize>)
    ensures
        match r {
            Some(at) => at == append_point(entry_views(entries@), name_view(*section)) && at
                <= entries.len(),
            None => append_point(entry_views(entries@), name_view(*section)) < 0
                && section.is_some(),
        },
{
    let ghost lines = entry_views(entries@);
    let ghost name = name_view(*section);
    let mut in_section = section.is_none();
    let mut last_key: Option<usize> = None;
    let mut last_in: Option<usize> = if in_section {
        Some(0)
    } else {
        None
    };
    let mut i: usize = 0;
    assert(last_position_in(lines, name, -1) == -1);
    while i < entries.len()
        invariant
            i <= entries.len(),
            lines == entry_views(entries@),
            name == name_view(*section),
            in_section == (section_at(lines, i as int) == name),
            match last_key {
                Some(at) => at == last_key_line(lines, name, i as int),
                None => last_key_line(lines, name, i as int) == -1,
            },
            match last_in {
                Some(at) => at == last_position_in(lines, name, i as int),
                None => last_position_in(lines, name, i as int) == -1,
            },
        decreases entries.len() - i,
    {
        assert(lines[i as int] == entries@[i as int]@);
        match &entries[i] {
            ConfEntry::Section(header) => {
                in_section = is_section(section, header);
            },
            ConfEntry::KeyValue(_, _) => {
                if in_section {
                    last_key = Some(i);
                }
            },
            _ => {},
        }
        if in_section {
            last_in = Some(i + 1);
        }
        i = i + 1;
    }
    proof {
        lemma_last_position_in(lines, name, lines.len() as int);
        lemma_last_key_line(lines, name, lines.len() as int);
    }
    match last_key {
        Some(at) => Some(at + 1),
        None => last_in,
    }
}

impl Config {
    /// A view of one section through which its keys can be set.
    pub fn section_mut<'s>(&mut self, section: Option<&'s str>) -> (view: SectionViewMut<'s, '_>)
        ensures
            view.lines() == old(self)@,
            view.name() == str_name_view(section),
            final(self)@ == final(view.config)@,
    {
        SectionViewMut { config: self, section }
    }

    /// Removes every line that sets `key` in `section`.
    pub fn remove_all(&mut self, section: Option<&str>, key: &str)
        ensures
            final(self)@ == without_key(old(self)@, str_name_view(section), key@),
    {
        proof {
            use_type_invariant(&*self);
        }
        let mut taken = Config::new();
        core::mem::swap(self, &mut taken);
        let Config { entries, mut index } = taken;
        let name = owned_name(section);
        let wanted = key.to_owned();
        let ghost before = entry_views(entries@);
        let ghost all = entries@;
        let mut kept: Vec<ConfEntry> = Vec::new();
        let mut in_section = section.is_none();
        assert(entry_views(kept@) =~= without_key_upto(before, name_view(name), key@, 0));
        for entry in it: entries
            invariant
                all == it.seq(),
                before == entry_views(all),
                wanted@ == key@,
                in_section == (section_at(before, it.index() as int) == name_view(name)),
                entry_views(kept@) == without_key_upto(
                    before,
                    name_view(name),
                    key@,
                    it.index() as int,
                ),
        {
            assert(before[it.index() as int] == entry@);
            let remove = match &entry {
                ConfEntry::Section(header) => {
                    in_section = is_section(&name, header);
                    false
                },
                ConfEntry::KeyValue(k, _) => in_section && *k == wanted,
                _ => false,
            };
            if !remove {
                let ghost so_far = kept@;
                kept.push(entry);
                assert(entry_views(kept@) =~= entry_views(so_far).push(entry@));
            }
        }
        let ghost after = entry_views(kept@);
        proof {
            assert forall|s: SectionName, k: Seq<char>| #[trigger]
                values_of(after, s, k) == if k == key@ && s == name_view(name) {
                    Seq::<Seq<char>>::empty()
                } else {
                    values_of(before, s, k)
                } by {
                lemma_without_key_values(before, name_view(name), key@, s, k);
            }
        }
        index_remove(&mut index, &name, &wanted, Ghost(before), Ghost(after));
        *self = Config { entries: kept, index };
    }

    /// Adds a line that gives `key` one more value in `section`.
    pub fn append(&mut self, section: Option<&str>, key: &str, value: &str)
        ensures
            final(self)@ == with_value(old(self)@, str_name_view(section), key@, value@),
    {
        proof {
            use_type_invariant(&*self);
        }
        let mut taken = Config::new();
        core::mem::swap(self, &mut taken);
        let Config { mut entries, mut index } = taken;
        let name = owned_name(section);
        let new_key = key.to_owned();
        let new_value = value.to_owned();
        let ghost before = entry_views(entries@);
        let ghost was = entries@;
        let entry = ConfEntry::KeyValue(new_key.clone(), new_value.clone());
        match find_append_point(&entries, &name) {
            Some(at) => {
                entries.insert(at, entry);
                assert(entry_views(entries@) =~= before.insert(at as int, entry@));
            },
            None => {
                let header = match &name {
                    Some(text) => text.clone(),
                    None => String::new(),
                };
                entries.push(ConfEntry::Section(header));
                entries.push(entry);
                assert(entry_views(entries@) =~= before.push(
                    ConfLine::Section(name_view(name).unwrap()),
                ).push(entry@));
            },
        }
        let ghost after = entry_views(entries@);
        proof {
            assert forall|s: SectionName, k: Seq<char>| #[trigger]
                values_of(after, s, k) == if k == key@ && s == name_view(name) {
                    values_of(before, s, k).push(value@)
                } else {
                    values_of(before, s, k)
                } by {
                lemma_with_value_values(before, name_view(name), key@, value@, s, k);
            }
        }
        index_add(&mut index, &name, &new_key, &new_value, Ghost(before), Ghost(after));
        *self = Config { entries, index };
    }
}

} // verus!
