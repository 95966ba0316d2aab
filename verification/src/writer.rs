//! The writing of a document to its text form.
//!
//! The text is a fixed banner of comment lines, then each section that has
//! entries, in the order `Font`, `Color`, `Layout`, `Format`: a header line,
//! one `key=value` line per entry in the section's order, and an empty line.
//! Nothing is escaped: a key or value that holds a line feed, or a key that
//! holds `=`, is written as it is and will not be read back as it was.

use crate::config::{Document, SectionName, StyleConfig};
use crate::section::{Entries, Section};
use vstd::prelude::*;
use vstd::string::StringExecFns;

verus! {

/// The lines that open every written document: three comments and an empty
/// line.
pub open spec fn banner_lines() -> Seq<Seq<char>> {
    seq![
        "; 外観の設定"@,
        "; UTF-8で記述する"@,
        "; ProgramData\\aviutl2\\style.confで設定を上書き出来る"@,
        Seq::empty(),
    ]
}

/// The header line of a section.
pub open spec fn header_line(which: SectionName) -> Seq<char> {
    seq!['['] + which.label() + seq![']']
}

/// The line of one entry.
pub open spec fn setting_line(entry: (Seq<char>, Seq<char>)) -> Seq<char> {
    entry.0 + seq!['='] + entry.1
}

/// The lines of one section: none for a section without entries, else its
/// header, its entries and an empty line.
pub open spec fn section_lines(which: SectionName, entries: Entries) -> Seq<Seq<char>> {
    if entries.len() == 0 {
        Seq::empty()
    } else {
        seq![header_line(which)] + entries.map_values(|e: (Seq<char>, Seq<char>)| setting_line(e))
            + seq![Seq::<char>::empty()]
    }
}

/// All lines of a written document.
pub open spec fn document_lines(doc: Document) -> Seq<Seq<char>> {
    banner_lines() + section_lines(SectionName::Font, doc.font) + section_lines(
        SectionName::Color,
        doc.color,
    ) + section_lines(SectionName::Layout, doc.layout) + section_lines(
        SectionName::Format,
        doc.format,
    )
}

/// `lines` as one text, a line feed after each.
pub open spec fn joined(lines: Seq<Seq<char>>) -> Seq<char>
    decreases lines.len(),
{
    if lines.len() == 0 {
        Seq::empty()
    } else {
        lines[0] + seq!['\n'] + joined(lines.drop_first())
    }
}

/// The text form of a document.
pub open spec fn serialized(doc: Document) -> Seq<char> {
    joined(document_lines(doc))
}

/// Joining two runs of lines one after the other joins their texts.
pub proof fn lemma_joined_concat(a: Seq<Seq<char>>, b: Seq<Seq<char>>)
    ensures
        joined(a + b) == joined(a) + joined(b),
    decreases a.len(),
{
    if a.len() == 0 {
        assert(a + b =~= b);
        assert(joined(a) + joined(b) =~= joined(b));
    } else {
        lemma_joined_concat(a.drop_first(), b);
        assert((a + b).drop_first() =~= a.drop_first() + b);
        assert((a + b)[0] == a[0]);
        assert(joined(a + b) =~= joined(a) + joined(b));
    }
}

/// Joining one more line appends it and a line feed.
pub proof fn lemma_joined_push(a: Seq<Seq<char>>, line: Seq<char>)
    ensures
        joined(a.push(line)) == joined(a) + line + seq!['\n'],
{
    let one = seq![line];
    assert(one.drop_first() =~= Seq::<Seq<char>>::empty());
    assert(joined(one) =~= line + seq!['\n']) by {
        reveal_with_fuel(joined, 2);
    }
    lemma_joined_concat(a, one);
    assert(a.push(line) =~= a + one);
    assert(joined(a) + (line + seq!['\n']) =~= joined(a) + line + seq!['\n']);
}

/// Appends `line` and a line feed to `out`.
fn push_line(out: &mut String, line: &str)
    ensures
        final(out)@ == old(out)@ + line@ + seq!['\n'],
{
    out.append(line);
    out.push('\n');
}

/// Appends the lines of one section to `out`.
fn write_section(out: &mut String, which: SectionName, section: &Section)
    ensures
        final(out)@ == old(out)@ + joined(section_lines(which, section@)),
{
    let ghost start = out@;
    let ghost settings = section@.map_values(|e: (Seq<char>, Seq<char>)| setting_line(e));
    if section.is_empty() {
        assert(out@ =~= start + joined(section_lines(which, section@)));
        return ;
    }
    out.push('[');
    out.append(which.as_str());
    out.push(']');
    out.push('\n');
    proof {
        lemma_joined_push(Seq::empty(), header_line(which));
        assert(Seq::<Seq<char>>::empty().push(header_line(which)) =~= seq![header_line(which)]);
        assert(out@ =~= start + joined(seq![header_line(which)]));
    }
    let n = section.len();
    let mut i: usize = 0;
    while i < n
        invariant
            i <= n,
            n == section@.len(),
            settings == section@.map_values(|e: (Seq<char>, Seq<char>)| setting_line(e)),
            out@ == start + joined(seq![header_line(which)] + settings.take(i as int)),
        decreases n - i,
    {
        let ghost lines = seq![header_line(which)] + settings.take(i as int);
        match section.entry(i) {
            Some((key, value)) => {
                out.append(key.as_str());
                out.push('=');
                out.append(value.as_str());
                out.push('\n');
                proof {
                    lemma_joined_push(lines, settings[i as int]);
                    assert(lines.push(settings[i as int]) =~= seq![header_line(which)]
                        + settings.take(i + 1));
                    assert(out@ =~= start + joined(lines) + settings[i as int] + seq!['\n']);
                }
            },
            None => {},
        }
        i += 1;
    }
    out.push('\n');
    proof {
        let lines = seq![header_line(which)] + settings;
        assert(settings.take(n as int) =~= settings);
        lemma_joined_push(lines, Seq::empty());
        assert(lines.push(Seq::empty()) =~= section_lines(which, section@));
        assert(out@ =~= start + joined(lines) + Seq::<char>::empty() + seq!['\n']);
    }
}

/// Writes a document to its text form. The result is the same for equal
/// documents: entries come out in the order the sections keep them in.
pub fn serialize_style_config(config: &StyleConfig) -> (content: String)
    ensures
        content@ == serialized(config@),
{
    let mut out = String::new();
    push_line(&mut out, "; 外観の設定");
    push_line(&mut out, "; UTF-8で記述する");
    push_line(&mut out, "; ProgramData\\aviutl2\\style.confで設定を上書き出来る");
    push_line(&mut out, "");
    proof {
        let b = banner_lines();
        assert(joined(b) =~= b[0] + seq!['\n'] + b[1] + seq!['\n'] + b[2] + seq!['\n'] + b[3]
            + seq!['\n']) by {
            reveal_with_fuel(joined, 5);
            assert(b.drop_first().drop_first().drop_first().drop_first().len() == 0);
        }
        assert(""@ =~= Seq::<char>::empty()) by {
            reveal_strlit("");
        }
        assert(out@ =~= joined(b));
    }
    let ghost doc = config@;
    write_section(&mut out, SectionName::Font, &config.font);
    write_section(&mut out, SectionName::Color, &config.color);
    write_section(&mut out, SectionName::Layout, &config.layout);
    write_section(&mut out, SectionName::Format, &config.format);
    proof {
        let l0 = banner_lines();
        let l1 = section_lines(SectionName::Font, doc.font);
        let l2 = section_lines(SectionName::Color, doc.color);
        let l3 = section_lines(SectionName::Layout, doc.layout);
        let l4 = section_lines(SectionName::Format, doc.format);
        lemma_joined_concat(l0, l1);
        lemma_joined_concat(l0 + l1, l2);
        lemma_joined_concat(l0 + l1 + l2, l3);
        lemma_joined_concat(l0 + l1 + l2 + l3, l4);
    }
    out
}

} // verus!
