use style_conf::{
    format_font_value, get_default_style_path, get_font_settings, get_user_style_path,
    parse_font_value, InputType,
};

fn format(size: &str, family: &str, key: &str) -> String {
    format_font_value(size.to_string(), family.to_string(), key.to_string())
}

#[test]
fn parse_font_value_with_size_and_family() {
    let v = parse_font_value("24,MS Gothic".to_string());
    assert_eq!(v.size, "24");
    assert_eq!(v.family, "MS Gothic");
}

#[test]
fn parse_font_value_with_size_alone() {
    let v = parse_font_value("24".to_string());
    assert_eq!(v.size, "24");
    assert_eq!(v.family, "");
}

#[test]
fn parse_font_value_ignores_further_segments() {
    let v = parse_font_value("24,MS Gothic,Bold,x".to_string());
    assert_eq!(v.size, "24");
    assert_eq!(v.family, "MS Gothic");
}

#[test]
fn parse_font_value_of_empty_text() {
    let v = parse_font_value(String::new());
    assert_eq!(v.size, "");
    assert_eq!(v.family, "");
}

#[test]
fn parse_font_value_with_empty_parts() {
    let v = parse_font_value(",Arial".to_string());
    assert_eq!(v.size, "");
    assert_eq!(v.family, "Arial");
    let w = parse_font_value("12,".to_string());
    assert_eq!(w.size, "12");
    assert_eq!(w.family, "");
    let x = parse_font_value(",,".to_string());
    assert_eq!(x.size, "");
    assert_eq!(x.family, "");
}

#[test]
fn parse_font_value_does_not_trim() {
    let v = parse_font_value(" 24 , MS Gothic ".to_string());
    assert_eq!(v.size, " 24 ");
    assert_eq!(v.family, " MS Gothic ");
}

#[test]
fn format_both_cuts_family_at_first_comma() {
    assert_eq!(format("24", "MS Gothic, Bold", "TextEdit"), "24,MS Gothic");
}

#[test]
fn format_size_only_drops_family() {
    assert_eq!(format("24", "MS Gothic", "Control"), "24");
}

#[test]
fn format_unknown_key_falls_back_to_size() {
    assert_eq!(format("24", "MS Gothic", "UnknownKey"), "24");
    assert_eq!(format("24", "MS Gothic", ""), "24");
    assert_eq!(format("24", "MS Gothic", "textedit"), "24");
}

#[test]
fn format_family_only_gives_the_clean_family() {
    assert_eq!(format("24", "  Meiryo UI , Bold", "DefaultFamily"), "Meiryo UI");
    assert_eq!(format("24", "", "DefaultFamily"), "");
    assert_eq!(format("24", ",Meiryo", "DefaultFamily"), "");
}

#[test]
fn format_both_without_family_gives_size_alone() {
    assert_eq!(format("24", "", "Log"), "24");
    assert_eq!(format("24", "   ", "Log"), "24");
    assert_eq!(format("24", " ,MS Gothic", "EditControl"), "24");
}

#[test]
fn format_both_trims_the_family() {
    assert_eq!(format("13", "\tConsolas  ", "EditControl"), "13,Consolas");
}

#[test]
fn format_leaves_size_as_it_is() {
    assert_eq!(format(" 1,2 ", "A", "Log"), " 1,2 ,A");
    assert_eq!(format(" 1,2 ", "A", "Footer"), " 1,2 ");
}

#[test]
fn decode_of_encode_for_both() {
    let v = parse_font_value(format("24", "MS Gothic", "TextEdit"));
    assert_eq!(v.size, "24");
    assert_eq!(v.family, "MS Gothic");
}

#[test]
fn decode_of_encode_for_size_only_has_no_family() {
    let v = parse_font_value(format("24", "MS Gothic", "Control"));
    assert_eq!(v.size, "24");
    assert_eq!(v.family, "");
}

#[test]
fn catalog_has_nine_settings_in_order() {
    let settings = get_font_settings();
    let keys: Vec<&str> = settings.iter().map(|s| s.key.as_str()).collect();
    assert_eq!(
        keys,
        vec![
            "DefaultFamily",
            "Control",
            "EditControl",
            "PreviewTime",
            "LayerObject",
            "TimeGauge",
            "Footer",
            "TextEdit",
            "Log"
        ]
    );
    let kinds: Vec<InputType> = settings.iter().map(|s| s.input_type).collect();
    assert_eq!(
        kinds,
        vec![
            InputType::FamilyOnly,
            InputType::SizeOnly,
            InputType::Both,
            InputType::SizeOnly,
            InputType::SizeOnly,
            InputType::SizeOnly,
            InputType::SizeOnly,
            InputType::Both,
            InputType::Both
        ]
    );
}

#[test]
fn catalog_texts() {
    let settings = get_font_settings();
    assert_eq!(settings[0].label, "標準フォント");
    assert_eq!(settings[0].description, "標準のフォント名");
    assert_eq!(settings[7].label, "テキスト編集");
    assert_eq!(settings[7].description, "テキスト編集のフォント（等幅推奨）");
    assert_eq!(settings[8].label, "ログ");
    for s in settings.iter() {
        assert!(!s.label.is_empty());
        assert!(!s.description.is_empty());
    }
}

#[test]
fn input_type_names() {
    assert_eq!(InputType::FamilyOnly.as_str(), "familyOnly");
    assert_eq!(InputType::SizeOnly.as_str(), "sizeOnly");
    assert_eq!(InputType::Both.as_str(), "both");
}

#[test]
fn default_style_path() {
    assert_eq!(get_default_style_path(), "C:\\Program Files\\AviUtl2\\style.conf");
}

#[test]
fn user_style_path() {
    assert_eq!(get_user_style_path(None), "C:\\ProgramData\\aviutl2\\style.conf");
    assert_eq!(
        get_user_style_path(Some("D:\\Data".to_string())),
        "D:\\Data\\aviutl2\\style.conf"
    );
}
