//! The document of four sections and the reading of its text form.
//!
//! Reading is line by line and never fails: a line is a comment, a section
//! header, a setting, or something else that is passed over. Settings count
//! only under one of the four known headers.

use crate::section::{with_entry, Entries, Section};
use crate::text::{
    after_first, before_first, chars_of, find_char, lemma_first_index_of, string_from, trim,
    trim_bounds,
};
use vstd::prelude::*;

verus! {

/// The four sections that a document has.
#[derive(Clone, Copy, Debug, PartialEq, Eq, Structural)]
pub enum SectionName {
    Font,
    Color,
    Layout,
    Format,
}

impl SectionName {
    /// The name as it stands between the brackets of a header line.
    pub open spec fn label(self) -> Seq<char> {
        match self {
            SectionName::Font => "Font"@,
            SectionName::Color => "Color"@,
            SectionName::Layout => "Layout"@,
            SectionName::Format => "Format"@,
        }
    }

    /// The name as it stands between the brackets of a header line.
    pub fn as_str(self) -> (s: &'static str)
        ensures
            s@ == self.label(),
    {
        match self {
            SectionName::Font => "Font",
            SectionName::Color => "Color",
            SectionName::Layout => "Layout",
            SectionName::Format => "Format",
        }
    }
}

/// The section that a header name stands for. Names are case-sensitive; any
/// other name stands for none.
pub open spec fn section_named(name: Seq<char>) -> Option<SectionName> {
    if name == "Font"@ {
        Some(SectionName::Font)
    } else if name == "Color"@ {
        Some(SectionName::Color)
    } else if name == "Layout"@ {
        Some(SectionName::Layout)
    } else if name == "Format"@ {
        Some(SectionName::Format)
    } else {
        None
    }
}

/// The mathematical content of a document: the entries of its four sections.
#[verifier::ext_equal]
pub struct Document {
    pub font: Entries,
    pub color: Entries,
    pub layout: Entries,
    pub format: Entries,
}

impl Document {
    /// The document whose four sections are empty.
    pub open spec fn empty() -> Document {
        Document {
            font: Entries::empty(),
            color: Entries::empty(),
            layout: Entries::empty(),
            format: Entries::empty(),
        }
    }

    /// The entries of one section.
    pub open spec fn section(self, which: SectionName) -> Entries {
        match which {
            SectionName::Font => self.font,
            SectionName::Color => self.color,
            SectionName::Layout => self.layout,
            SectionName::Format => self.format,
        }
    }

    /// This document with one section replaced.
    pub open spec fn with_section(self, which: SectionName, entries: Entries) -> Document {
        match which {
            SectionName::Font => Document { font: entries, ..self },
            SectionName::Color => Document { color: entries, ..self },
            SectionName::Layout => Document { layout: entries, ..self },
            SectionName::Format => Document { format: entries, ..self },
        }
    }

    /// This document after `key` is set to `value` in one section.
    pub open spec fn set(self, which: SectionName, key: Seq<char>, value: Seq<char>) -> Document {
        self.with_section(which, with_entry(self.section(which), key, value))
    }
}

/// What one line of text means to the reader.
pub enum Line {
    /// Empty after trimming, or starting with `;`.
    Comment,
    /// `[name]`: what stands between the brackets, as written.
    Header(Seq<char>),
    /// `key=value`, split at the first `=`, both sides trimmed.
    Setting(Seq<char>, Seq<char>),
    /// Anything else.
    Other,
}

/// The meaning of one line. A header must start with `[` and end with `]`
/// once trimmed, so anything after the closing bracket makes it no header.
pub open spec fn read_line(line: Seq<char>) -> Line {
    let t = trim(line);
    if t.len() == 0 || t[0] == ';' {
        Line::Comment
    } else if t[0] == '[' && t.last() == ']' {
        Line::Header(t.subrange(1, t.len() - 1))
    } else if t.contains('=') {
        Line::Setting(trim(before_first(t, '=')), trim(after_first(t, '=')))
    } else {
        Line::Other
    }
}

/// What the reader knows between two lines: the document so far, and the
/// known section that the last header opened, if any.
pub struct ReadState {
    pub doc: Document,
    pub current: Option<SectionName>,
}

/// The state before the first line: nothing read, no section open.
pub open spec fn initial_state() -> ReadState {
    ReadState { doc: Document::empty(), current: None }
}

/// The state after one more line. A header opens its section, or none if its
/// name is not known; a setting goes into the open section, the last value
/// of a key replacing earlier ones; every other line changes nothing.
pub open spec fn after_line(state: ReadState, line: Seq<char>) -> ReadState {
    match read_line(line) {
        Line::Header(name) => ReadState { doc: state.doc, current: section_named(name) },
        Line::Setting(key, value) => match state.current {
            Some(which) => ReadState { doc: state.doc.set(which, key, value), current: state.current },
            None => state,
        },
        _ => state,
    }
}

/// The lines of `text`: the pieces between line feeds. A line feed at the very
/// end opens no further line.
pub open spec fn lines_of(text: Seq<char>) -> Seq<Seq<char>>
    decreases text.len(),
    via lines_of_terminates
{
    if text.len() == 0 {
        Seq::empty()
    } else {
        seq![before_first(text, '\n')] + lines_of(after_first(text, '\n'))
    }
}

#[via_fn]
proof fn lines_of_terminates(text: Seq<char>) {
    lemma_first_index_of(text, '\n');
}

/// The state after all of `lines`, read in order from `state`.
pub open spec fn after_lines(state: ReadState, lines: Seq<Seq<char>>) -> ReadState
    decreases lines.len(),
{
    if lines.len() == 0 {
        state
    } else {
        after_lines(after_line(state, lines[0]), lines.drop_first())
    }
}

/// The document that `text` stands for.
pub open spec fn parsed(text: Seq<char>) -> Document {
    after_lines(initial_state(), lines_of(text)).doc
}

/// A document: the settings of the `Font`, `Color`, `Layout` and `Format`
/// sections.
#[derive(Debug)]
pub struct StyleConfig {
    pub font: Section,
    pub color: Section,
    pub layout: Section,
    pub format: Section,
}

impl View for StyleConfig {
    type V = Document;

    open spec fn view(&self) -> Document {
        Document { font: self.font@, color: self.color@, layout: self.layout@, format: self.format@ }
    }
}

impl StyleConfig {
    /// A document with four empty sections.
    pub fn new() -> (config: StyleConfig)
        ensures
            config@ == Document::empty(),
    {
        StyleConfig {
            font: Section::new(),
            color: Section::new(),
            layout: Section::new(),
            format: Section::new(),
        }
    }

    /// One section of the document.
    pub fn section(&self, which: SectionName) -> (s: &Section)
        ensures
            s@ == self@.section(which),
    {
        match which {
            SectionName::Font => &self.font,
            SectionName::Color => &self.color,
            SectionName::Layout => &self.layout,
            SectionName::Format => &self.format,
        }
    }

    /// Sets `key` to `value` in one section.
    pub fn set(&mut self, which: SectionName, key: String, value: String)
        ensures
            final(self)@ == old(self)@.set(which, key@, value@),
    {
        match which {
            SectionName::Font => self.font.insert(key, value),
            SectionName::Color => self.color.insert(key, value),
            SectionName::Layout => self.layout.insert(key, value),
            SectionName::Format => self.format.insert(key, value),
        }
    }
}

/// Whether `v[lo..hi]` spells `word`.
fn spells(v: &Vec<char>, lo: usize, hi: usize, word: &str) -> (b: bool)
    requires
        lo <= hi <= v.len(),
    ensures
        b == (v@.subrange(lo as int, hi as int) == word@),
{
    let w = chars_of(word);
    if w.len() != hi - lo {
        return false;
    }
    let mut i: usize = 0;
    while i < w.len()
        invariant
            lo <= hi <= v.len(),
            w.len() == hi - lo,
            w@ == word@,
            i <= w.len(),
            forall|j: int| 0 <= j < i ==> v@[lo + j] == w@[j],
        decreases w.len() - i,
    {
        if v[lo + i] != w[i] {
            assert(v@.subrange(lo as int, hi as int)[i as int] != w@[i as int]);
            return false;
        }
        i += 1;
    }
    assert(v@.subrange(lo as int, hi as int) =~= w@);
    true
}

/// The known section that the header name `v[lo..hi]` stands for.
fn section_for(v: &Vec<char>, lo: usize, hi: usize) -> (r: Option<SectionName>)
    requires
        lo <= hi <= v.len(),
    ensures
        r == section_named(v@.subrange(lo as int, hi as int)),
{
    if spells(v, lo, hi, "Font") {
        Some(SectionName::Font)
    } else if spells(v, lo, hi, "Color") {
        Some(SectionName::Color)
    } else if spells(v, lo, hi, "Layout") {
        Some(SectionName::Layout)
    } else if spells(v, lo, hi, "Format") {
        Some(SectionName::Format)
    } else {
        None
    }
}

/// Reads the line `text[lo..hi]` into the document and the open section.
fn read_into(
    config: &mut StyleConfig,
    current: &mut Option<SectionName>,
    text: &Vec<char>,
    lo: usize,
    hi: usize,
)
    requires
        lo <= hi <= text.len(),
    ensures
        (ReadState { doc: final(config)@, current: *final(current) }) == after_line(
            ReadState { doc: old(config)@, current: *old(current) },
            text@.subrange(lo as int, hi as int),
        ),
{
    let (a, b) = trim_bounds(text, lo, hi);
    let ghost t = text@.subrange(a as int, b as int);
    if a == b || text[a] == ';' {
        return ;
    }
    assert(t[0] == text@[a as int]);
    assert(t.last() == text@[b - 1]);
    if text[a] == '[' && text[b - 1] == ']' {
        assert(t.subrange(1, t.len() - 1) == text@.subrange(a + 1, b - 1));
        *current = section_for(text, a + 1, b - 1);
        return ;
    }
    let eq = find_char(text, a, b, '=');
    proof {
        lemma_first_index_of(t, '=');
    }
    if eq < b {
        assert(before_first(t, '=') == text@.subrange(a as int, eq as int));
        assert(after_first(t, '=') == text@.subrange(eq + 1, b as int));
        match *current {
            Some(which) => {
                let (ka, kb) = trim_bounds(text, a, eq);
                let (va, vb) = trim_bounds(text, eq + 1, b);
                let key = string_from(text, ka, kb);
                let value = string_from(text, va, vb);
                config.set(which, key, value);
            },
            None => {},
        }
    }
}

/// Reads a document from its text form.
///
/// Every text has a reading, so the result is always `Ok`: lines that are no
/// header and no setting are passed over, and so are settings that stand
/// before the first header or under a header with an unknown name.
pub fn parse_style_config(content: &str) -> (r: Result<StyleConfig, String>)
    ensures
        r matches Ok(config) && config@ == parsed(content@),
{
    let text = chars_of(content);
    let mut config = StyleConfig::new();
    let mut current: Option<SectionName> = None;
    let mut pos: usize = 0;
    assert(text@.subrange(0, text.len() as int) =~= text@);
    while pos < text.len()
        invariant
            pos <= text.len(),
            text@ == content@,
            after_lines(
                ReadState { doc: config@, current },
                lines_of(text@.subrange(pos as int, text.len() as int)),
            ) == after_lines(initial_state(), lines_of(text@)),
        decreases text.len() - pos,
    {
        let ghost rest = text@.subrange(pos as int, text.len() as int);
        let ghost before = ReadState { doc: config@, current };
        let end = find_char(&text, pos, text.len(), '\n');
        read_into(&mut config, &mut current, &text, pos, end);
        proof {
            lemma_first_index_of(rest, '\n');
            assert(before_first(rest, '\n') == text@.subrange(pos as int, end as int));
            let tail = lines_of(after_first(rest, '\n'));
            assert(lines_of(rest) == seq![before_first(rest, '\n')] + tail);
            assert(lines_of(rest)[0] == before_first(rest, '\n'));
            assert(lines_of(rest).drop_first() =~= tail);
            if end < text.len() {
                assert(after_first(rest, '\n') == text@.subrange(end + 1, text.len() as int));
            } else {
                assert(after_first(rest, '\n') == text@.subrange(end as int, text.len() as int));
            }
        }
        pos = if end < text.len() {
            end + 1
        } else {
            end
        };
    }
    assert(text@.subrange(pos as int, text.len() as int) =~= Seq::<char>::empty());
    Ok(config)
}

} // verus!
