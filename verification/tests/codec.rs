use style_conf::{parse_style_config, serialize_style_config, Section, SectionName, StyleConfig};

const BANNER: &str =
    "; 外観の設定\n; UTF-8で記述する\n; ProgramData\\aviutl2\\style.confで設定を上書き出来る\n\n";

fn entries(section: &Section) -> Vec<(String, String)> {
    let mut out = Vec::new();
    let mut i = 0;
    while let Some((k, v)) = section.entry(i) {
        out.push((k.clone(), v.clone()));
        i += 1;
    }
    out
}

fn pairs(items: &[(&str, &str)]) -> Vec<(String, String)> {
    items.iter().map(|(k, v)| (k.to_string(), v.to_string())).collect()
}

fn parse(text: &str) -> StyleConfig {
    parse_style_config(text).expect("every text parses")
}

#[test]
fn parse_reads_the_four_sections() {
    let c = parse("[Font]\nControl=13\n[Color]\nBackground=202020\n[Layout]\nWindowSeparatorSize=4\n[Format]\nFooterLeft={Time}\n");
    assert_eq!(entries(&c.font), pairs(&[("Control", "13")]));
    assert_eq!(entries(&c.color), pairs(&[("Background", "202020")]));
    assert_eq!(entries(&c.layout), pairs(&[("WindowSeparatorSize", "4")]));
    assert_eq!(entries(&c.format), pairs(&[("FooterLeft", "{Time}")]));
}

#[test]
fn parse_without_headers_gives_four_empty_sections() {
    let c = parse("A=1\n; note\nB=2\nplain words\n\n");
    assert!(c.font.is_empty());
    assert!(c.color.is_empty());
    assert!(c.layout.is_empty());
    assert!(c.format.is_empty());
}

#[test]
fn parse_of_empty_text_is_empty() {
    let c = parse("");
    assert_eq!(c.font.len(), 0);
    assert_eq!(c.color.len(), 0);
    assert_eq!(c.layout.len(), 0);
    assert_eq!(c.format.len(), 0);
}

#[test]
fn header_with_trailing_content_is_no_header() {
    let c = parse("[Font] extra\nA=1\n");
    assert!(c.font.is_empty());
    assert!(c.color.is_empty());
    assert!(c.layout.is_empty());
    assert!(c.format.is_empty());
}

#[test]
fn header_with_trailing_content_keeps_the_open_section() {
    let c = parse("[Color]\n[Font] extra\nA=1\n");
    assert!(c.font.is_empty());
    assert_eq!(entries(&c.color), pairs(&[("A", "1")]));
}

#[test]
fn header_like_line_with_equals_sign_is_a_setting() {
    let c = parse("[Font]\n[Color] x=1\n");
    assert_eq!(entries(&c.font), pairs(&[("[Color] x", "1")]));
    assert!(c.color.is_empty());
}

#[test]
fn duplicate_key_keeps_the_last_value() {
    let c = parse("[Font]\nA=1\nA=2\n");
    assert_eq!(c.font.get("A").map(|s| s.as_str()), Some("2"));
    assert_eq!(c.font.len(), 1);
}

#[test]
fn duplicate_key_keeps_its_first_place() {
    let c = parse("[Font]\nA=1\nB=5\nA=2\n");
    assert_eq!(entries(&c.font), pairs(&[("A", "2"), ("B", "5")]));
}

#[test]
fn settings_before_the_first_header_are_ignored() {
    let c = parse("A=1\n[Font]\nB=2\n");
    assert_eq!(entries(&c.font), pairs(&[("B", "2")]));
}

#[test]
fn settings_under_an_unknown_header_are_dropped() {
    let c = parse("[Font]\nA=1\n[Other]\nB=2\n[Color]\nC=3\n");
    assert_eq!(entries(&c.font), pairs(&[("A", "1")]));
    assert_eq!(entries(&c.color), pairs(&[("C", "3")]));
    assert!(c.layout.is_empty());
    assert!(c.format.is_empty());
}

#[test]
fn section_names_are_case_sensitive() {
    let c = parse("[font]\nA=1\n[FONT]\nB=2\n[ Font ]\nC=3\n");
    assert!(c.font.is_empty());
}

#[test]
fn empty_header_name_opens_no_section() {
    let c = parse("[Font]\n[]\nA=1\n");
    assert!(c.font.is_empty());
}

#[test]
fn a_section_may_be_opened_again() {
    let c = parse("[Font]\nA=1\n[Color]\nB=2\n[Font]\nC=3\n");
    assert_eq!(entries(&c.font), pairs(&[("A", "1"), ("C", "3")]));
    assert_eq!(entries(&c.color), pairs(&[("B", "2")]));
}

#[test]
fn value_keeps_further_equals_signs() {
    let c = parse("[Format]\nExpr=a=b=c\n");
    assert_eq!(c.format.get("Expr").map(|s| s.as_str()), Some("a=b=c"));
}

#[test]
fn value_may_be_empty() {
    let c = parse("[Font]\nA=\nB =   \n");
    assert_eq!(entries(&c.font), pairs(&[("A", ""), ("B", "")]));
}

#[test]
fn key_may_be_empty() {
    let c = parse("[Font]\n=x\n");
    assert_eq!(entries(&c.font), pairs(&[("", "x")]));
}

#[test]
fn key_and_value_are_trimmed() {
    let c = parse("[Font]\n  \t Name with space  =  MS Gothic \t\n");
    assert_eq!(entries(&c.font), pairs(&[("Name with space", "MS Gothic")]));
}

#[test]
fn wide_space_counts_as_whitespace() {
    let c = parse("[Font]\n\u{3000}A\u{3000}=\u{3000}1\u{3000}\n");
    assert_eq!(entries(&c.font), pairs(&[("A", "1")]));
}

#[test]
fn comments_and_blank_lines_are_skipped() {
    let c = parse("; head\n\n[Font]\n; A=1\n   ;B=2\n\n   \nC=3\n");
    assert_eq!(entries(&c.font), pairs(&[("C", "3")]));
}

#[test]
fn line_without_equals_sign_is_ignored() {
    let c = parse("[Font]\njust words\nA=1\n");
    assert_eq!(entries(&c.font), pairs(&[("A", "1")]));
}

#[test]
fn carriage_returns_end_lines_too() {
    let c = parse("[Font]\r\nA=1\r\nB=2\r\n");
    assert_eq!(entries(&c.font), pairs(&[("A", "1"), ("B", "2")]));
}

#[test]
fn last_line_needs_no_line_feed() {
    let c = parse("[Font]\nA=1");
    assert_eq!(entries(&c.font), pairs(&[("A", "1")]));
}

#[test]
fn header_may_be_indented() {
    let c = parse("   [Font]  \nA=1\n");
    assert_eq!(entries(&c.font), pairs(&[("A", "1")]));
}

#[test]
fn serialize_of_empty_document_is_the_banner() {
    let c = StyleConfig::new();
    assert_eq!(serialize_style_config(&c), BANNER);
}

#[test]
fn serialize_writes_sections_in_fixed_order() {
    let mut c = StyleConfig::new();
    c.set(SectionName::Format, "F".to_string(), "4".to_string());
    c.set(SectionName::Layout, "L".to_string(), "3".to_string());
    c.set(SectionName::Color, "C".to_string(), "2".to_string());
    c.set(SectionName::Font, "A".to_string(), "1".to_string());
    let expected =
        format!("{}[Font]\nA=1\n\n[Color]\nC=2\n\n[Layout]\nL=3\n\n[Format]\nF=4\n\n", BANNER);
    assert_eq!(serialize_style_config(&c), expected);
}

#[test]
fn serialize_leaves_out_empty_sections() {
    let mut c = StyleConfig::new();
    c.color.insert("Background".to_string(), "202020".to_string());
    let expected = format!("{}[Color]\nBackground=202020\n\n", BANNER);
    assert_eq!(serialize_style_config(&c), expected);
}

#[test]
fn serialize_keeps_the_order_of_entries() {
    let mut c = StyleConfig::new();
    c.font.insert("Zeta".to_string(), "1".to_string());
    c.font.insert("Alpha".to_string(), "2".to_string());
    c.font.insert("Zeta".to_string(), "3".to_string());
    let expected = format!("{}[Font]\nZeta=3\nAlpha=2\n\n", BANNER);
    assert_eq!(serialize_style_config(&c), expected);
}

#[test]
fn serialize_does_not_escape() {
    let mut c = StyleConfig::new();
    c.font.insert("A=B".to_string(), "[x]".to_string());
    let expected = format!("{}[Font]\nA=B=[x]\n\n", BANNER);
    assert_eq!(serialize_style_config(&c), expected);
    let back = parse(&expected);
    assert_eq!(entries(&back.font), pairs(&[("A", "B=[x]")]));
}

#[test]
fn parse_of_serialize_gives_the_document_back() {
    let mut c = StyleConfig::new();
    c.font.insert("DefaultFamily".to_string(), "Yu Gothic UI".to_string());
    c.font.insert("TextEdit".to_string(), "13,MS Gothic".to_string());
    c.font.insert("Empty".to_string(), "".to_string());
    c.color.insert("Background".to_string(), "202020".to_string());
    c.layout.insert("ScrollBarSize".to_string(), "20".to_string());
    c.format.insert("FooterLeft".to_string(), "a=b [c]".to_string());
    let text = serialize_style_config(&c);
    let back = parse(&text);
    assert_eq!(entries(&back.font), entries(&c.font));
    assert_eq!(entries(&back.color), entries(&c.color));
    assert_eq!(entries(&back.layout), entries(&c.layout));
    assert_eq!(entries(&back.format), entries(&c.format));
    assert_eq!(serialize_style_config(&back), text);
}

#[test]
fn parse_of_serialize_with_empty_sections() {
    let mut c = StyleConfig::new();
    c.layout.insert("A".to_string(), "1".to_string());
    let back = parse(&serialize_style_config(&c));
    assert!(back.font.is_empty());
    assert!(back.color.is_empty());
    assert_eq!(entries(&back.layout), pairs(&[("A", "1")]));
    assert!(back.format.is_empty());
}

#[test]
fn banner_reads_as_nothing() {
    let c = parse(BANNER);
    assert!(c.font.is_empty() && c.color.is_empty() && c.layout.is_empty() && c.format.is_empty());
}

#[test]
fn section_lookup_by_name() {
    let c = parse("[Font]\nA=1\n[Format]\nB=2\n");
    assert_eq!(c.section(SectionName::Font).len(), 1);
    assert_eq!(c.section(SectionName::Color).len(), 0);
    assert_eq!(c.section(SectionName::Layout).len(), 0);
    assert_eq!(c.section(SectionName::Format).get("B").map(|s| s.as_str()), Some("2"));
    assert_eq!(SectionName::Font.as_str(), "Font");
    assert_eq!(SectionName::Color.as_str(), "Color");
    assert_eq!(SectionName::Layout.as_str(), "Layout");
    assert_eq!(SectionName::Format.as_str(), "Format");
}

#[test]
fn what_is_read_comes_back_from_its_own_text() {
    let messy = "stray=1\n; note\n  [Font]  \r\n  A = 1 \n=x\nA==2=\n[x]y=[z] w\n;k=v\n[Nope]\nB=2\n[Format]\n\u{3000}T\u{3000}= {a} [b] \nplain\n[Font]\nZ=\n";
    let first = parse(messy);
    assert_eq!(entries(&first.font), pairs(&[("A", "=2="), ("", "x"), ("[x]y", "[z] w"), ("Z", "")]));
    assert_eq!(entries(&first.format), pairs(&[("T", "{a} [b]")]));
    let text = serialize_style_config(&first);
    let second = parse(&text);
    assert_eq!(entries(&second.font), entries(&first.font));
    assert_eq!(entries(&second.color), entries(&first.color));
    assert_eq!(entries(&second.layout), entries(&first.layout));
    assert_eq!(entries(&second.format), entries(&first.format));
    assert_eq!(serialize_style_config(&second), text);
}

#[test]
fn bracketed_line_with_equals_sign_is_a_header() {
    let c = parse("[Font]\n[x]y=[z]\nA=1\n");
    assert!(c.font.is_empty());
}
