//! Which configuration texts are written back exactly as they were read.

use vstd::prelude::*;
use crate::lxc::config::{delimiter, parse_line, parse_text, render, render_line, ConfLine};
use crate::text::{
    first_index, is_space, join, lemma_first_index, lemma_first_index_props, lines, split,
    trim_end, trim_start, trimmed,
};

verus! {

/// A text without whitespace at either end.
pub open spec fn is_trimmed(s: Seq<char>) -> bool {
    s.len() == 0 || (!is_space(s[0]) && !is_space(s.last()))
}

/// A key and a value as they are written: the key, a colon, one space and
/// a value that is not empty, with no whitespace around key or value.
pub open spec fn is_canonical_pair(line: Seq<char>) -> bool {
    let at = first_index(line, ':');
    &&& at + 2 < line.len()
    &&& is_trimmed(line.take(at))
    &&& line[at + 1] == ' '
    &&& !is_space(line[at + 2])
}

/// A key without value as it is written: the key, a colon and one space.
/// The key is without whitespace around it and does not start a comment.
pub open spec fn is_canonical_key(line: Seq<char>) -> bool {
    let at = first_index(line, ':');
    &&& at + 2 == line.len()
    &&& is_trimmed(line.take(at))
    &&& line[at + 1] == ' '
    &&& line[0] != '#'
    &&& line[0] != ';'
}

/// A line as it is written: empty, a comment, a section header or a key
/// with its value, without whitespace at either end; or a key without
/// value.
pub open spec fn is_canonical_line(line: Seq<char>) -> bool {
    ||| is_canonical_key(line)
    ||| (is_trimmed(line) && (line.len() == 0 || line[0] == '#' || line[0] == ';' || (line[0]
        == '[' && line.last() == ']') || is_canonical_pair(line)))
}

/// A text as it is written: lines as they are written with a line feed
/// between each two, and no line feed at the end.
pub open spec fn is_canonical_text(text: Seq<char>) -> bool {
    let pieces = split(text, '\n');
    &&& text.len() == 0 || pieces.last().len() > 0
    &&& forall|i: int| 0 <= i < pieces.len() ==> is_canonical_line(#[trigger] pieces[i])
}

/// Trimming leaves a text without whitespace at its ends as it is.
pub proof fn lemma_trimmed_of_trimmed(s: Seq<char>)
    requires
        is_trimmed(s),
    ensures
        trimmed(s) == s,
{
}

/// A text is split into at least one piece.
pub proof fn lemma_split_len(s: Seq<char>, sep: char)
    ensures
        split(s, sep).len() >= 1,
    decreases s.len(),
{
    let i = first_index(s, sep);
    if 0 <= i < s.len() {
        lemma_split_len(s.skip(i + 1), sep);
    }
}

/// Joining pieces behind a first piece puts the first piece and a
/// separator in front.
pub proof fn lemma_join_first(first: Seq<char>, rest: Seq<Seq<char>>, sep: char)
    requires
        rest.len() >= 1,
    ensures
        join(seq![first] + rest, sep) == first + seq![sep] + join(rest, sep),
    decreases rest.len(),
{
    let all = seq![first] + rest;
    if rest.len() == 1 {
        assert(all.drop_last() =~= seq![first]);
        assert(all.last() == rest[0]);
        assert(join(seq![first], sep) == first);
    } else {
        assert(all.drop_last() =~= seq![first] + rest.drop_last());
        assert(all.last() == rest.last());
        lemma_join_first(first, rest.drop_last(), sep);
        assert(join(all, sep) =~= first + seq![sep] + join(rest, sep));
    }
}

/// Joining the pieces of a text with the separator that it was split at
/// gives the text again.
pub proof fn lemma_join_split(s: Seq<char>, sep: char)
    ensures
        join(split(s, sep), sep) == s,
    decreases s.len(),
{
    let i = first_index(s, sep);
    lemma_first_index_props(s, sep);
    if 0 <= i < s.len() {
        let rest = split(s.skip(i + 1), sep);
        lemma_split_len(s.skip(i + 1), sep);
        lemma_join_split(s.skip(i + 1), sep);
        lemma_join_first(s.take(i), rest, sep);
        assert(s.take(i) + seq![sep] + s.skip(i + 1) =~= s);
    }
}

/// A key without value as it is written is written back as it was read.
pub proof fn lemma_key_round_trip(line: Seq<char>)
    requires
        is_canonical_key(line),
    ensures
        render_line(parse_line(line)) == line,
{
    let at = first_index(line, ':');
    lemma_first_index_props(line, ':');
    let key = line.take(at);
    let t = line.drop_last();
    assert(trim_start(line) == line);
    assert(trim_end(line) == trim_end(t));
    assert(t.last() == ':');
    assert(trimmed(line) == t);
    assert(t[0] == line[0]);
    assert forall|j: int| 0 <= j < at implies t[j] != ':' by {
        assert(t[j] == line[j]);
    }
    lemma_first_index(t, ':', at);
    assert(delimiter(t) == at);
    assert(t.take(at) =~= key);
    assert(t.skip(at + 1) =~= Seq::<char>::empty());
    lemma_trimmed_of_trimmed(key);
    assert(trimmed(Seq::<char>::empty()) =~= Seq::<char>::empty());
    assert(key + seq![':', ' '] + Seq::<char>::empty() =~= line);
}

/// A line as it is written is written back as it was read.
pub proof fn lemma_line_round_trip(line: Seq<char>)
    requires
        is_canonical_line(line),
    ensures
        render_line(parse_line(line)) == line,
{
    if is_canonical_key(line) {
        lemma_key_round_trip(line);
    } else if line.len() == 0 {
    } else if line[0] == '#' || line[0] == ';' {
    } else if line[0] == '[' && line.last() == ']' {
        assert(seq!['['] + line.subrange(1, line.len() - 1) + seq![']'] =~= line);
    } else {
        let at = first_index(line, ':');
        lemma_first_index_props(line, ':');
        assert(delimiter(line) == at);
        let key = line.take(at);
        let after = line.skip(at + 1);
        let value = line.skip(at + 2);
        lemma_trimmed_of_trimmed(key);
        assert(after.drop_first() =~= value);
        assert(is_space(after[0]));
        assert(trim_start(after) == trim_start(value));
        assert(value[0] == line[at + 2]);
        assert(value.last() == line.last());
        assert(trim_start(value) == value);
        assert(trim_end(value) == value);
        assert(trimmed(after) == value);
        assert(key + seq![':', ' '] + value =~= line);
    }
}

/// A text as it is written is written back exactly as it was read, when
/// nothing is changed in between.
pub proof fn lemma_round_trip(text: Seq<char>)
    requires
        is_canonical_text(text),
    ensures
        render(parse_text(text)) == text,
{
    let pieces = split(text, '\n');
    lemma_split_len(text, '\n');
    if text.len() == 0 {
        assert(pieces =~= seq![text]);
        assert(lines(text) =~= Seq::<Seq<char>>::empty());
        assert(parse_text(text) =~= Seq::<ConfLine>::empty());
        assert(parse_text(text).map_values(|line: ConfLine| render_line(line)) =~= Seq::<
            Seq<char>,
        >::empty());
    } else {
        assert(lines(text) == pieces);
        let written = parse_text(text).map_values(|line: ConfLine| render_line(line));
        assert forall|i: int| 0 <= i < pieces.len() implies written[i] == pieces[i] by {
            lemma_line_round_trip(pieces[i]);
        }
        assert(written =~= pieces);
        lemma_join_split(text, '\n');
    }
}

/// Tells whether `s` holds no `c`.
pub open spec fn lacks(s: Seq<char>, c: char) -> bool {
    forall|i: int| 0 <= i < s.len() ==> s[i] != c
}

/// What is left when leading whitespace is removed does not begin with
/// whitespace, and holds no character that was not there.
pub proof fn lemma_trim_start(s: Seq<char>, c: char)
    ensures
        trim_start(s).len() == 0 || !is_space(trim_start(s)[0]),
        lacks(s, c) ==> lacks(trim_start(s), c),
    decreases s.len(),
{
    if s.len() > 0 && is_space(s[0]) {
        let rest = s.drop_first();
        lemma_trim_start(rest, c);
        if lacks(s, c) {
            assert forall|i: int| 0 <= i < rest.len() implies rest[i] != c by {
                assert(rest[i] == s[i + 1]);
            }
        }
    }
}

/// What is left when trailing whitespace is removed does not end with
/// whitespace, and is what the text begins with.
pub proof fn lemma_trim_end(s: Seq<char>)
    ensures
        trim_end(s).len() == 0 || !is_space(trim_end(s).last()),
        trim_end(s).len() <= s.len(),
        trim_end(s) == s.take(trim_end(s).len() as int),
    decreases s.len(),
{
    if s.len() > 0 && is_space(s.last()) {
        let rest = s.drop_last();
        lemma_trim_end(rest);
        assert(rest.take(trim_end(rest).len() as int) =~= s.take(trim_end(rest).len() as int));
    } else {
        assert(s.take(s.len() as int) =~= s);
    }
}

/// A trimmed text has no whitespace at either end, and holds no character
/// that was not there.
pub proof fn lemma_trimmed(s: Seq<char>, c: char)
    ensures
        is_trimmed(trimmed(s)),
        lacks(s, c) ==> lacks(trimmed(s), c),
{
    let u = trim_start(s);
    lemma_trim_start(s, c);
    lemma_trim_end(u);
    let w = trim_end(u);
    if w.len() > 0 {
        assert(w[0] == u[0]);
    }
    if lacks(s, c) {
        assert forall|i: int| 0 <= i < w.len() implies w[i] != c by {
            assert(w[i] == u[i]);
        }
    }
}

/// No piece of a split text holds the separator.
pub proof fn lemma_split_lacks(s: Seq<char>, sep: char)
    ensures
        forall|i: int| 0 <= i < split(s, sep).len() ==> lacks(#[trigger] split(s, sep)[i], sep),
    decreases s.len(),
{
    let at = first_index(s, sep);
    lemma_first_index_props(s, sep);
    if 0 <= at < s.len() {
        lemma_split_lacks(s.skip(at + 1), sep);
        let rest = split(s.skip(at + 1), sep);
        assert forall|i: int| 0 <= i < split(s, sep).len() implies lacks(
            #[trigger] split(s, sep)[i],
            sep,
        ) by {
            if i > 0 {
                assert(split(s, sep)[i] == rest[i - 1]);
            }
        }
    }
}

/// Pieces that hold no separator are the pieces that their joint text is
/// split into.
pub proof fn lemma_split_join(parts: Seq<Seq<char>>, sep: char)
    requires
        parts.len() >= 1,
        forall|i: int| 0 <= i < parts.len() ==> lacks(#[trigger] parts[i], sep),
    ensures
        split(join(parts, sep), sep) == parts,
    decreases parts.len(),
{
    let first = parts[0];
    if parts.len() == 1 {
        lemma_first_index(first, sep, first.len() as int);
        assert(split(first, sep) =~= parts);
    } else {
        let rest = parts.drop_first();
        assert forall|i: int| 0 <= i < rest.len() implies lacks(#[trigger] rest[i], sep) by {
            assert(rest[i] == parts[i + 1]);
        }
        lemma_split_join(rest, sep);
        assert(parts =~= seq![first] + rest);
        lemma_join_first(first, rest, sep);
        let text = join(parts, sep);
        assert(text == first + seq![sep] + join(rest, sep));
        assert forall|j: int| 0 <= j < first.len() implies text[j] != sep by {
            assert(text[j] == first[j]);
        }
        assert(text[first.len() as int] == sep);
        lemma_first_index(text, sep, first.len() as int);
        assert(text.take(first.len() as int) =~= first);
        assert(text.skip(first.len() as int + 1) =~= join(rest, sep));
    }
}

/// A line without line feed is written without line feed.
pub proof fn lemma_render_lacks_newline(line: Seq<char>)
    requires
        lacks(line, '\n'),
    ensures
        lacks(render_line(parse_line(line)), '\n'),
{
    let t = trimmed(line);
    lemma_trimmed(line, '\n');
    if t.len() > 0 && !(t[0] == '#' || t[0] == ';') && !(t[0] == '[' && t.last() == ']') {
        let at = delimiter(t);
        lemma_first_index_props(t, ':');
        lemma_first_index_props(t, '=');
        if at < t.len() {
            lemma_trimmed(t.take(at), '\n');
            lemma_trimmed(t.skip(at + 1), '\n');
        }
    }
}

/// A line that is written back as it was read is a line as it is written.
pub proof fn lemma_line_round_trip_only(line: Seq<char>)
    requires
        render_line(parse_line(line)) == line,
    ensures
        is_canonical_line(line),
{
    let t = trimmed(line);
    lemma_trimmed(line, ':');
    if t.len() == 0 {
    } else if t[0] == '#' || t[0] == ';' {
    } else if t[0] == '[' && t.last() == ']' {
        let written = seq!['['] + t.subrange(1, t.len() - 1) + seq![']'];
        assert(written[0] == '[');
        assert(written.last() == ']');
    } else {
        let at = delimiter(t);
        lemma_first_index_props(t, ':');
        lemma_first_index_props(t, '=');
        if at < t.len() {
            let key = trimmed(t.take(at));
            let value = trimmed(t.skip(at + 1));
            assert(lacks(t.take(at), ':'));
            lemma_trimmed(t.take(at), ':');
            lemma_trimmed(t.skip(at + 1), ':');
            assert(line == key + seq![':', ' '] + value);
            assert forall|j: int| 0 <= j < key.len() implies line[j] != ':' by {
                assert(line[j] == key[j]);
            }
            assert(line[key.len() as int] == ':');
            lemma_first_index(line, ':', key.len() as int);
            assert(line.take(key.len() as int) =~= key);
            assert(line[key.len() as int + 1] == ' ');
            if value.len() > 0 {
                assert(line[key.len() as int + 2] == value[0]);
                assert(line.last() == value.last());
                if key.len() > 0 {
                    assert(line[0] == key[0]);
                }
                assert(is_canonical_pair(line));
            } else {
                if key.len() > 0 {
                    assert(line[0] == key[0]);
                }
                assert(trim_start(line) == line);
                lemma_trim_end(line);
                assert(t[0] == line[0]);
                assert(is_canonical_key(line));
            }
        } else {
            let written = t + seq![':', ' '];
            assert(written[0] == t[0]);
            assert(trim_start(written) == written);
            assert(written.drop_last() =~= t + seq![':']);
            assert((t + seq![':']).last() == ':');
            assert(trim_end(written) == trim_end(written.drop_last()));
            assert(trimmed(written).len() == t.len() + 1);
        }
    }
}

/// A text that is written back exactly as it was read is a text as it is
/// written: no other text comes back unchanged.
pub proof fn lemma_round_trip_only(text: Seq<char>)
    requires
        render(parse_text(text)) == text,
    ensures
        is_canonical_text(text),
{
    let pieces = split(text, '\n');
    let read = lines(text);
    let written = parse_text(text).map_values(|line: ConfLine| render_line(line));
    lemma_split_len(text, '\n');
    lemma_split_lacks(text, '\n');
    if text.len() > 0 {
        assert(written.len() == read.len());
        if read.len() == 0 {
            assert(pieces.len() == 1);
            lemma_join_split(text, '\n');
            assert(join(pieces, '\n') == pieces[0]);
        } else {
            assert forall|i: int| 0 <= i < written.len() implies lacks(
                #[trigger] written[i],
                '\n',
            ) by {
                assert(read[i] == pieces[i]);
                lemma_render_lacks_newline(read[i]);
            }
            lemma_split_join(written, '\n');
            assert(written == pieces);
            assert forall|i: int| 0 <= i < pieces.len() implies is_canonical_line(
                #[trigger] pieces[i],
            ) by {
                assert(written[i] == render_line(parse_line(read[i])));
                lemma_line_round_trip_only(pieces[i]);
            }
        }
    } else {
        assert(pieces =~= seq![text]);
    }
}

} // verus!
