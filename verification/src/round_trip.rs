//! What reading and writing have to do with each other: which documents come
//! back from their own text unchanged, and which texts read as nothing.

use crate::config::{
    after_line, after_lines, initial_state, lines_of, parsed, read_line, section_named, Document,
    Line, ReadState, SectionName,
};
use crate::section::{
    as_map, distinct_keys, has_key, keys_of, lemma_with_entry, with_entry, Entries,
};
use crate::text::{
    after_first, before_first, first_index_of, is_whitespace, lemma_first_index_is,
    lemma_first_index_of, lemma_trim_is_subrange, trim,
};
use crate::writer::{
    banner_lines, document_lines, header_line, joined, section_lines, serialized, setting_line,
};
use vstd::prelude::*;

verus! {

/// An entry that its own line gives back: neither side holds a line feed or
/// has whitespace at its ends, the key holds no `=`, and the line is neither
/// taken for a comment (a key starting with `;`) nor for a header (a key
/// starting with `[` before a value ending with `]`).
pub open spec fn entry_reads_back(key: Seq<char>, value: Seq<char>) -> bool {
    &&& !key.contains('\n')
    &&& !key.contains('=')
    &&& !value.contains('\n')
    &&& trim(key) == key
    &&& trim(value) == value
    &&& key.len() > 0 ==> key[0] != ';'
    &&& !(key.len() > 0 && key[0] == '[' && value.len() > 0 && value.last() == ']')
}

/// A section whose keys are distinct and whose entries all read back.
pub open spec fn section_reads_back(entries: Entries) -> bool {
    &&& distinct_keys(entries)
    &&& forall|i: int| 0 <= i < entries.len() ==> entry_reads_back(entries[i].0, entries[i].1)
}

/// A document of four such sections.
pub open spec fn document_reads_back(doc: Document) -> bool {
    &&& section_reads_back(doc.font)
    &&& section_reads_back(doc.color)
    &&& section_reads_back(doc.layout)
    &&& section_reads_back(doc.format)
}

/// Lines without line feeds are the lines of their joined text.
pub proof fn lemma_lines_of_joined(lines: Seq<Seq<char>>)
    requires
        forall|i: int| 0 <= i < lines.len() ==> !lines[i].contains('\n'),
    ensures
        lines_of(joined(lines)) == lines,
    decreases lines.len(),
{
    if lines.len() == 0 {
        assert(lines_of(joined(lines)) =~= lines);
    } else {
        let text = joined(lines);
        let head = lines[0];
        let rest = lines.drop_first();
        assert(!head.contains('\n'));
        assert forall|i: int| 0 <= i < head.len() implies text[i] != '\n' by {
            assert(text[i] == head[i]);
            assert(head.contains(head[i]));
        }
        assert(text[head.len() as int] == '\n');
        lemma_first_index_is(text, '\n', head.len() as int);
        assert(before_first(text, '\n') =~= head);
        assert(after_first(text, '\n') =~= joined(rest));
        assert forall|i: int| 0 <= i < rest.len() implies !rest[i].contains('\n') by {
            assert(rest[i] == lines[i + 1]);
        }
        lemma_lines_of_joined(rest);
        assert(lines_of(text) =~= lines);
    }
}

/// Reading two runs of lines one after the other is reading their
/// concatenation.
pub proof fn lemma_after_lines_concat(state: ReadState, a: Seq<Seq<char>>, b: Seq<Seq<char>>)
    ensures
        after_lines(state, a + b) == after_lines(after_lines(state, a), b),
    decreases a.len(),
{
    if a.len() == 0 {
        assert(a + b =~= b);
    } else {
        assert((a + b)[0] == a[0]);
        assert((a + b).drop_first() =~= a.drop_first() + b);
        lemma_after_lines_concat(after_line(state, a[0]), a.drop_first(), b);
    }
}

/// A line that is empty or starts with `;` is a comment.
pub proof fn lemma_comment_line(line: Seq<char>)
    requires
        line.len() == 0 || line[0] == ';',
    ensures
        read_line(line) == Line::Comment,
{
    let r = lemma_trim_is_subrange(line);
    if r.0 < r.1 {
        assert(!is_whitespace(line[0]));
        assert(trim(line)[0] == line[r.0]);
    }
}

/// The line written for an entry that reads back is read as that entry.
pub proof fn lemma_setting_line(key: Seq<char>, value: Seq<char>)
    requires
        entry_reads_back(key, value),
    ensures
        read_line(setting_line((key, value))) == Line::Setting(key, value),
        !setting_line((key, value)).contains('\n'),
{
    let line = setting_line((key, value));
    let n = line.len() as int;
    let k = key.len() as int;
    assert(line[k] == '=');
    assert forall|i: int| 0 <= i < k implies line[i] != '=' && line[i] != '\n' by {
        assert(line[i] == key[i]);
        assert(key.contains(key[i]));
    }
    assert forall|i: int| k < i < n implies line[i] != '\n' by {
        assert(line[i] == value[i - k - 1]);
        assert(value.contains(value[i - k - 1]));
    }
    assert(!line.contains('\n'));
    let rk = lemma_trim_is_subrange(key);
    let rv = lemma_trim_is_subrange(value);
    if k > 0 {
        assert(key.subrange(rk.0, rk.1).len() == k);
        assert(line[0] == key[0]);
    }
    if value.len() > 0 {
        assert(value.subrange(rv.0, rv.1).len() == value.len());
        assert(line.last() == value.last());
    }
    assert(!is_whitespace(line[0]));
    assert(!is_whitespace(line.last()));
    assert(trim(line) == line);
    lemma_first_index_is(line, '=', k);
    assert(line.contains('=')) by {
        lemma_first_index_of(line, '=');
    }
    assert(before_first(line, '=') =~= key);
    assert(after_first(line, '=') =~= value);
}

/// The header line of a section is read as a header that opens that section.
pub proof fn lemma_header_line(which: SectionName)
    ensures
        read_line(header_line(which)) == Line::Header(which.label()),
        section_named(which.label()) == Some(which),
        !header_line(which).contains('\n'),
{
    reveal_strlit("Font");
    reveal_strlit("Color");
    reveal_strlit("Layout");
    reveal_strlit("Format");
    let line = header_line(which);
    let label = which.label();
    let n = line.len() as int;
    assert(line[0] == '[');
    assert(line.last() == ']');
    assert(trim(line) == line);
    assert(line.subrange(1, n - 1) =~= label);
    assert("Layout"@[0] == 'L');
    assert("Format"@[0] == 'F');
    assert forall|i: int| 0 <= i < n implies line[i] != '\n' by {
        if 0 < i < n - 1 {
            assert(line[i] == label[i - 1]);
            assert(label[i - 1] != '\n') by {
                lemma_label_chars(which, i - 1);
            }
        }
    }
}

/// No section name holds a line feed.
proof fn lemma_label_chars(which: SectionName, i: int)
    requires
        0 <= i < which.label().len(),
    ensures
        which.label()[i] != '\n',
{
    reveal_strlit("Font");
    reveal_strlit("Color");
    reveal_strlit("Layout");
    reveal_strlit("Format");
    let s = which.label();
    assert(s.len() <= 6);
    if i == 0 {
        assert(s[0] != '\n');
    } else if i == 1 {
        assert(s[1] != '\n');
    } else if i == 2 {
        assert(s[2] != '\n');
    } else if i == 3 {
        assert(s[3] != '\n');
    } else if i == 4 {
        assert(s[4] != '\n');
    } else {
        assert(s[5] != '\n');
    }
}

/// Every banner line is a comment, and none holds a line feed.
pub proof fn lemma_banner_lines()
    ensures
        banner_lines().len() == 4,
        forall|i: int|
            0 <= i < 4 ==> read_line(#[trigger] banner_lines()[i]) == Line::Comment
                && !banner_lines()[i].contains('\n'),
{
    reveal_strlit("; 外観の設定");
    reveal_strlit("; UTF-8で記述する");
    reveal_strlit("; ProgramData\\aviutl2\\style.confで設定を上書き出来る");
    let b = banner_lines();
    assert forall|i: int| 0 <= i < 4 implies read_line(#[trigger] b[i]) == Line::Comment
        && !b[i].contains('\n') by {
        lemma_comment_line(b[i]);
        let line = b[i];
        assert forall|j: int| 0 <= j < line.len() implies line[j] != '\n' by {}
    }
}

/// Reading lines that are all comments changes nothing.
pub proof fn lemma_comments_change_nothing(state: ReadState, lines: Seq<Seq<char>>)
    requires
        forall|i: int| 0 <= i < lines.len() ==> read_line(#[trigger] lines[i]) == Line::Comment,
    ensures
        after_lines(state, lines) == state,
    decreases lines.len(),
{
    if lines.len() > 0 {
        let rest = lines.drop_first();
        assert(read_line(lines[0]) == Line::Comment);
        assert forall|i: int| 0 <= i < rest.len() implies read_line(#[trigger] rest[i])
            == Line::Comment by {
            assert(rest[i] == lines[i + 1]);
        }
        lemma_comments_change_nothing(state, rest);
    }
}

/// Read under an open section that is still empty, the first `n` entry lines
/// of a section that reads back leave its first `n` entries there.
proof fn lemma_entries_read_back(state: ReadState, which: SectionName, entries: Entries, n: int)
    requires
        section_reads_back(entries),
        0 <= n <= entries.len(),
        state.current == Some(which),
        state.doc.section(which) == Entries::empty(),
    ensures
        after_lines(
            state,
            entries.map_values(|e: (Seq<char>, Seq<char>)| setting_line(e)).take(n),
        ) == (ReadState { doc: state.doc.with_section(which, entries.take(n)), current: Some(which) }),
    decreases n,
{
    let lines = entries.map_values(|e: (Seq<char>, Seq<char>)| setting_line(e));
    if n == 0 {
        assert(lines.take(0) =~= Seq::<Seq<char>>::empty());
        assert(entries.take(0) =~= Entries::empty());
        assert(state.doc.with_section(which, entries.take(0)) =~= state.doc);
    } else {
        lemma_entries_read_back(state, which, entries, n - 1);
        let mid = after_lines(state, lines.take(n - 1));
        let last = seq![lines[n - 1]];
        assert(lines.take(n) =~= lines.take(n - 1) + last);
        lemma_after_lines_concat(state, lines.take(n - 1), last);
        assert(after_lines(mid, last) == after_line(mid, lines[n - 1])) by {
            reveal_with_fuel(after_lines, 2);
            assert(last.drop_first().len() == 0);
        }
        let key = entries[n - 1].0;
        let value = entries[n - 1].1;
        lemma_setting_line(key, value);
        assert(lines[n - 1] == setting_line((key, value)));
        let so_far = entries.take(n - 1);
        assert(!has_key(so_far, key)) by {
            if has_key(so_far, key) {
                let j = choose|j: int| 0 <= j < so_far.len() && keys_of(so_far)[j] == key;
                assert(keys_of(entries)[j] == key);
                assert(keys_of(entries)[n - 1] == key);
            }
        }
        assert(with_entry(so_far, key, value) =~= entries.take(n));
        assert(mid.doc.section(which) == so_far);
        assert(mid.doc.set(which, key, value) =~= state.doc.with_section(which, entries.take(n)));
    }
}

/// Read where a section is still empty, the lines written for it leave its
/// entries there and touch no other section.
pub proof fn lemma_section_reads_back(state: ReadState, which: SectionName, entries: Entries)
    requires
        section_reads_back(entries),
        state.doc.section(which) == Entries::empty(),
    ensures
        after_lines(state, section_lines(which, entries)).doc == state.doc.with_section(
            which,
            entries,
        ),
        forall|i: int|
            0 <= i < section_lines(which, entries).len() ==> !(#[trigger] section_lines(
                which,
                entries,
            )[i]).contains('\n'),
{
    let lines = section_lines(which, entries);
    if entries.len() == 0 {
        assert(state.doc.with_section(which, entries) =~= state.doc);
    } else {
        let settings = entries.map_values(|e: (Seq<char>, Seq<char>)| setting_line(e));
        let head = seq![header_line(which)];
        let tail = seq![Seq::<char>::empty()];
        lemma_header_line(which);
        let opened = ReadState { doc: state.doc, current: Some(which) };
        assert(after_lines(state, head) == opened) by {
            reveal_with_fuel(after_lines, 2);
            assert(head.drop_first().len() == 0);
        }
        lemma_entries_read_back(opened, which, entries, entries.len() as int);
        assert(settings.take(entries.len() as int) =~= settings);
        assert(entries.take(entries.len() as int) =~= entries);
        let filled = after_lines(opened, settings);
        lemma_comment_line(Seq::empty());
        lemma_comments_change_nothing(filled, tail);
        lemma_after_lines_concat(state, head, settings);
        lemma_after_lines_concat(state, head + settings, tail);
        assert forall|i: int| 0 <= i < lines.len() implies !(#[trigger] lines[i]).contains(
            '\n',
        ) by {
            if 0 < i <= entries.len() {
                lemma_setting_line(entries[i - 1].0, entries[i - 1].1);
                assert(lines[i] == setting_line(entries[i - 1]));
            }
        }
    }
}

/// A document that reads back is what its own text is read as: entry for
/// entry, in every section, and so with the same value for every key.
pub proof fn lemma_parse_serialize_round_trip(doc: Document)
    requires
        document_reads_back(doc),
    ensures
        parsed(serialized(doc)) == doc,
        as_map(parsed(serialized(doc)).font) == as_map(doc.font),
        as_map(parsed(serialized(doc)).color) == as_map(doc.color),
        as_map(parsed(serialized(doc)).layout) == as_map(doc.layout),
        as_map(parsed(serialized(doc)).format) == as_map(doc.format),
{
    let l0 = banner_lines();
    let l1 = section_lines(SectionName::Font, doc.font);
    let l2 = section_lines(SectionName::Color, doc.color);
    let l3 = section_lines(SectionName::Layout, doc.layout);
    let l4 = section_lines(SectionName::Format, doc.format);
    let s0 = initial_state();
    lemma_banner_lines();
    lemma_comments_change_nothing(s0, l0);
    let s1 = after_lines(s0, l1);
    lemma_section_reads_back(s0, SectionName::Font, doc.font);
    let s2 = after_lines(s1, l2);
    lemma_section_reads_back(s1, SectionName::Color, doc.color);
    let s3 = after_lines(s2, l3);
    lemma_section_reads_back(s2, SectionName::Layout, doc.layout);
    let s4 = after_lines(s3, l4);
    lemma_section_reads_back(s3, SectionName::Format, doc.format);
    lemma_after_lines_concat(s0, l0, l1);
    lemma_after_lines_concat(s0, l0 + l1, l2);
    lemma_after_lines_concat(s0, l0 + l1 + l2, l3);
    lemma_after_lines_concat(s0, l0 + l1 + l2 + l3, l4);
    let lines = document_lines(doc);
    assert(after_lines(s0, lines) == s4);
    assert(s4.doc =~= doc);
    lemma_lines_of_joined(lines);
}

/// A text without a header line reads as the empty document, whatever else
/// its lines hold.
pub proof fn lemma_no_header_parses_empty(text: Seq<char>)
    requires
        forall|i: int|
            0 <= i < lines_of(text).len() ==> !(read_line(#[trigger] lines_of(text)[i]) is Header),
    ensures
        parsed(text) == Document::empty(),
{
    lemma_no_header_opens_nothing(lines_of(text));
}

/// Lines without a header among them leave the initial state as it is.
proof fn lemma_no_header_opens_nothing(lines: Seq<Seq<char>>)
    requires
        forall|i: int| 0 <= i < lines.len() ==> !(read_line(#[trigger] lines[i]) is Header),
    ensures
        after_lines(initial_state(), lines) == initial_state(),
    decreases lines.len(),
{
    if lines.len() > 0 {
        let rest = lines.drop_first();
        assert(!(read_line(lines[0]) is Header));
        assert forall|i: int| 0 <= i < rest.len() implies !(read_line(#[trigger] rest[i])
            is Header) by {
            assert(rest[i] == lines[i + 1]);
        }
        lemma_no_header_opens_nothing(rest);
    }
}

/// No line of a text holds a line feed.
pub proof fn lemma_lines_hold_no_line_feed(text: Seq<char>)
    ensures
        forall|i: int| 0 <= i < lines_of(text).len() ==> !(#[trigger] lines_of(text)[i]).contains('\n'),
    decreases text.len(),
{
    if text.len() > 0 {
        lemma_first_index_of(text, '\n');
        let head = before_first(text, '\n');
        let rest = after_first(text, '\n');
        lemma_lines_hold_no_line_feed(rest);
        assert(!head.contains('\n')) by {
            if head.contains('\n') {
                let j = choose|j: int| 0 <= j < head.len() && head[j] == '\n';
                assert(text[j] == '\n');
            }
        }
        assert forall|i: int| 0 <= i < lines_of(text).len() implies !(#[trigger] lines_of(
            text,
        )[i]).contains('\n') by {
            if i > 0 {
                assert(lines_of(text)[i] == lines_of(rest)[i - 1]);
            }
        }
    }
}

/// A part of a text holds no character that the text does not hold.
proof fn lemma_subrange_holds_less(s: Seq<char>, from: int, to: int, c: char)
    requires
        0 <= from <= to <= s.len(),
        !s.contains(c),
    ensures
        !s.subrange(from, to).contains(c),
{
    let part = s.subrange(from, to);
    if part.contains(c) {
        let j = choose|j: int| 0 <= j < part.len() && part[j] == c;
        assert(s[from + j] == c);
    }
}

/// Trimming a trimmed text changes nothing.
pub proof fn lemma_trim_is_idempotent(s: Seq<char>)
    ensures
        trim(trim(s)) == trim(s),
{
    let r = lemma_trim_is_subrange(s);
    let t = trim(s);
    if t.len() > 0 {
        assert(t[0] == s[r.0]);
        assert(t.last() == s[r.1 - 1]);
    }
}

/// A setting that is read from a line without line feed reads back.
pub proof fn lemma_read_setting_reads_back(line: Seq<char>)
    requires
        !line.contains('\n'),
        read_line(line) is Setting,
    ensures
        entry_reads_back(read_line(line)->Setting_0, read_line(line)->Setting_1),
{
    let r = lemma_trim_is_subrange(line);
    let t = trim(line);
    let n = t.len() as int;
    lemma_subrange_holds_less(line, r.0, r.1, '\n');
    assert(t[0] == line[r.0]);
    assert(t.last() == line[r.1 - 1]);
    lemma_first_index_of(t, '=');
    let p = first_index_of(t, '=');
    let left = before_first(t, '=');
    let right = after_first(t, '=');
    let key = trim(left);
    let value = trim(right);
    let rk = lemma_trim_is_subrange(left);
    let rv = lemma_trim_is_subrange(right);
    lemma_subrange_holds_less(t, 0, p, '\n');
    lemma_subrange_holds_less(t, p + 1, n, '\n');
    lemma_subrange_holds_less(left, rk.0, rk.1, '\n');
    lemma_subrange_holds_less(right, rv.0, rv.1, '\n');
    assert(!left.contains('=')) by {
        if left.contains('=') {
            let j = choose|j: int| 0 <= j < left.len() && left[j] == '=';
            assert(t[j] == '=');
        }
    }
    lemma_subrange_holds_less(left, rk.0, rk.1, '=');
    lemma_trim_is_idempotent(left);
    lemma_trim_is_idempotent(right);
    if key.len() > 0 {
        assert(left[0] == t[0]);
        assert(rk.0 == 0);
        assert(key[0] == left[0]);
    }
    if value.len() > 0 {
        assert(right.last() == t.last());
        assert(rv.1 == right.len());
        assert(value.last() == right[rv.1 - 1]);
    }
}

/// Setting an entry that reads back in a section that reads back leaves a
/// section that reads back.
pub proof fn lemma_with_entry_reads_back(entries: Entries, key: Seq<char>, value: Seq<char>)
    requires
        section_reads_back(entries),
        entry_reads_back(key, value),
    ensures
        section_reads_back(with_entry(entries, key, value)),
{
    lemma_with_entry(entries, key, value);
    lemma_first_index_of(keys_of(entries), key);
    let after = with_entry(entries, key, value);
    assert forall|i: int| 0 <= i < after.len() implies entry_reads_back(
        after[i].0,
        after[i].1,
    ) by {
        if has_key(entries, key) {
            if i != first_index_of(keys_of(entries), key) {
                assert(after[i] == entries[i]);
            }
        } else if i < entries.len() {
            assert(after[i] == entries[i]);
        }
    }
}

/// Reading lines into a document that reads back leaves one that reads back.
pub proof fn lemma_after_lines_reads_back(state: ReadState, lines: Seq<Seq<char>>)
    requires
        document_reads_back(state.doc),
        forall|i: int| 0 <= i < lines.len() ==> !(#[trigger] lines[i]).contains('\n'),
    ensures
        document_reads_back(after_lines(state, lines).doc),
    decreases lines.len(),
{
    if lines.len() > 0 {
        let line = lines[0];
        let rest = lines.drop_first();
        let next = after_line(state, line);
        assert(!line.contains('\n'));
        if read_line(line) is Setting && state.current is Some {
            lemma_read_setting_reads_back(line);
            let key = read_line(line)->Setting_0;
            let value = read_line(line)->Setting_1;
            let which = state.current->0;
            lemma_with_entry_reads_back(state.doc.section(which), key, value);
        }
        assert(document_reads_back(next.doc));
        assert forall|i: int| 0 <= i < rest.len() implies !(#[trigger] rest[i]).contains(
            '\n',
        ) by {
            assert(rest[i] == lines[i + 1]);
        }
        lemma_after_lines_reads_back(next, rest);
    }
}

/// Whatever is read from a text reads back: the documents that come back
/// from their own text unchanged include all that reading can give.
pub proof fn lemma_parsed_reads_back(text: Seq<char>)
    ensures
        document_reads_back(parsed(text)),
        parsed(serialized(parsed(text))) == parsed(text),
{
    lemma_lines_hold_no_line_feed(text);
    assert(document_reads_back(initial_state().doc)) by {
        assert(keys_of(Entries::empty()) =~= Seq::<Seq<char>>::empty());
    }
    lemma_after_lines_reads_back(initial_state(), lines_of(text));
    lemma_parse_serialize_round_trip(parsed(text));
}

} // verus!
