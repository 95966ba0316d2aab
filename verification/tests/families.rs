use style_conf::{clean_font_name, font_families};

fn names(items: &[&str]) -> Vec<String> {
    items.iter().map(|s| s.to_string()).collect()
}

#[test]
fn clean_font_name_drops_the_kind_in_parentheses() {
    assert_eq!(clean_font_name("Arial (TrueType)"), "Arial");
    assert_eq!(clean_font_name("Arial Bold Italic (TrueType)"), "Arial Bold Italic");
}

#[test]
fn clean_font_name_keeps_the_first_of_joined_names() {
    assert_eq!(
        clean_font_name("Yu Gothic Medium & Yu Gothic UI Regular (TrueType)"),
        "Yu Gothic Medium"
    );
    assert_eq!(clean_font_name("MS Gothic & MS UI Gothic & MS PGothic (TrueType)"), "MS Gothic");
}

#[test]
fn clean_font_name_ignores_an_ampersand_after_the_parenthesis() {
    assert_eq!(clean_font_name("Name (A & B)"), "Name");
}

#[test]
fn clean_font_name_trims() {
    assert_eq!(clean_font_name("  Meiryo  "), "Meiryo");
    assert_eq!(clean_font_name("\tMeiryo &x"), "Meiryo");
    assert_eq!(clean_font_name("游ゴシック\u{3000}(TrueType)"), "游ゴシック");
}

#[test]
fn clean_font_name_may_leave_nothing() {
    assert_eq!(clean_font_name(""), "");
    assert_eq!(clean_font_name("   "), "");
    assert_eq!(clean_font_name("(TrueType)"), "");
    assert_eq!(clean_font_name(" & Arial"), "");
}

#[test]
fn font_families_of_nothing() {
    assert_eq!(font_families(&Vec::new()), Vec::<String>::new());
}

#[test]
fn font_families_are_sorted_and_unique() {
    let raw = names(&[
        "Verdana (TrueType)",
        "Arial (TrueType)",
        "Arial Bold (TrueType)",
        "Arial (OpenType)",
        "(TrueType)",
        "MS Gothic & MS UI Gothic & MS PGothic (TrueType)",
        "Arial",
        "",
    ]);
    assert_eq!(font_families(&raw), names(&["Arial", "Arial Bold", "MS Gothic", "Verdana"]));
}

#[test]
fn font_families_order_is_that_of_strings() {
    let raw = names(&[
        "b", "a", "B", "A", "ab", "aB", "a b", "Z", "z", "é", "e", "游ゴシック", "メイリオ", "0",
        "10", "1", "~", "\u{1F600}", "\u{FFFD}", "a\u{10000}", "a\u{FFFF}", "abc", "ab",
    ]);
    let mut expected: Vec<String> = raw.clone();
    expected.sort();
    expected.dedup();
    assert_eq!(font_families(&raw), expected);
}
