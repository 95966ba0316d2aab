//! Font settings: the built-in catalog of the keys of the `Font` section, and
//! the "size,family" encoding of their values.
//!
//! Encoding and decoding are no inverses of each other, and are not meant to
//! be: decoding always gives two fields, and encoding keeps only the fields
//! that the key's kind of input has.

use crate::text::{
    after_first, before_first, chars_of, find_char, first_index_of, lemma_first_index_is,
    lemma_first_index_of, string_from, trim, trim_bounds,
};
use vstd::prelude::*;
use vstd::string::StringExecFns;

verus! {

/// Which parts of a font value a setting has.
#[derive(Clone, Copy, Debug, PartialEq, Eq, Structural)]
pub enum InputType {
    /// A family name without a size.
    FamilyOnly,
    /// A size without a family name.
    SizeOnly,
    /// A size and a family name.
    Both,
}

impl InputType {
    /// The name of the kind as user interfaces know it.
    pub open spec fn label(self) -> Seq<char> {
        match self {
            InputType::FamilyOnly => "familyOnly"@,
            InputType::SizeOnly => "sizeOnly"@,
            InputType::Both => "both"@,
        }
    }

    /// The name of the kind as user interfaces know it.
    pub fn as_str(self) -> (s: &'static str)
        ensures
            s@ == self.label(),
    {
        match self {
            InputType::FamilyOnly => "familyOnly",
            InputType::SizeOnly => "sizeOnly",
            InputType::Both => "both",
        }
    }
}

/// One entry of the catalog: a key of the `Font` section with the texts shown
/// for it and the kind of input it takes.
#[derive(Debug)]
pub struct FontSetting {
    pub key: String,
    pub label: String,
    pub description: String,
    pub input_type: InputType,
}

/// The mathematical content of a [`FontSetting`].
pub struct FontSettingView {
    pub key: Seq<char>,
    pub label: Seq<char>,
    pub description: Seq<char>,
    pub input_type: InputType,
}

impl View for FontSetting {
    type V = FontSettingView;

    open spec fn view(&self) -> FontSettingView {
        FontSettingView {
            key: self.key@,
            label: self.label@,
            description: self.description@,
            input_type: self.input_type,
        }
    }
}

/// A font value taken apart.
#[derive(Debug)]
pub struct FontValue {
    pub size: String,
    pub family: String,
}

/// The mathematical content of a [`FontValue`].
pub struct FontValueView {
    pub size: Seq<char>,
    pub family: Seq<char>,
}

impl View for FontValue {
    type V = FontValueView;

    open spec fn view(&self) -> FontValueView {
        FontValueView { size: self.size@, family: self.family@ }
    }
}

/// The catalog: the nine known font settings, in their fixed order.
pub open spec fn font_settings() -> Seq<FontSettingView> {
    seq![
        FontSettingView {
            key: "DefaultFamily"@,
            label: "標準フォント"@,
            description: "標準のフォント名"@,
            input_type: InputType::FamilyOnly,
        },
        FontSettingView {
            key: "Control"@,
            label: "コントロールフォント"@,
            description: "標準のコントロールのフォントサイズ"@,
            input_type: InputType::SizeOnly,
        },
        FontSettingView {
            key: "EditControl"@,
            label: "エディットコントロール"@,
            description: "エディットコントロールのフォント（等幅推奨）"@,
            input_type: InputType::Both,
        },
        FontSettingView {
            key: "PreviewTime"@,
            label: "プレビュー時間表示"@,
            description: "プレビュー時間表示のフォントサイズ"@,
            input_type: InputType::SizeOnly,
        },
        FontSettingView {
            key: "LayerObject"@,
            label: "レイヤー・オブジェクト編集"@,
            description: "レイヤー・オブジェクト編集部分のフォントサイズ"@,
            input_type: InputType::SizeOnly,
        },
        FontSettingView {
            key: "TimeGauge"@,
            label: "フレーム時間ゲージ"@,
            description: "フレーム時間ゲージのフォントサイズ"@,
            input_type: InputType::SizeOnly,
        },
        FontSettingView {
            key: "Footer"@,
            label: "フッター"@,
            description: "フッターのフォントサイズ"@,
            input_type: InputType::SizeOnly,
        },
        FontSettingView {
            key: "TextEdit"@,
            label: "テキスト編集"@,
            description: "テキスト編集のフォント（等幅推奨）"@,
            input_type: InputType::Both,
        },
        FontSettingView {
            key: "Log"@,
            label: "ログ"@,
            description: "ログのフォント（等幅推奨）"@,
            input_type: InputType::Both,
        },
    ]
}

/// The keys of the catalog, in its order.
pub open spec fn font_keys() -> Seq<Seq<char>> {
    font_settings().map_values(|s: FontSettingView| s.key)
}

/// The kind of input of the setting `key`; `None` for a key that the catalog
/// does not have.
pub open spec fn input_type_of(key: Seq<char>) -> Option<InputType> {
    let i = first_index_of(font_keys(), key);
    if i < font_keys().len() {
        Some(font_settings()[i].input_type)
    } else {
        None
    }
}

/// A raw font value taken apart at its commas: the size is what stands before
/// the first comma, the family what stands between the first and the second;
/// a part that is not there is empty, and what follows a second comma is left
/// out.
pub open spec fn font_value_of(raw: Seq<char>) -> FontValueView {
    FontValueView {
        size: before_first(raw, ','),
        family: before_first(after_first(raw, ','), ','),
    }
}

/// A family name made fit for a font value: cut before its first comma, then
/// trimmed.
pub open spec fn clean_family(family: Seq<char>) -> Seq<char> {
    trim(before_first(family, ','))
}

/// The raw value stored under `key` for a size and a family. A key that the
/// catalog does not have is treated as one that takes a size only.
pub open spec fn font_value_text(size: Seq<char>, family: Seq<char>, key: Seq<char>) -> Seq<char> {
    match input_type_of(key) {
        Some(InputType::FamilyOnly) => clean_family(family),
        Some(InputType::Both) => if clean_family(family).len() > 0 {
            size + seq![','] + clean_family(family)
        } else {
            size
        },
        Some(InputType::SizeOnly) | None => size,
    }
}

fn setting(key: &str, label: &str, description: &str, input_type: InputType) -> (s: FontSetting)
    ensures
        s@ == (FontSettingView {
            key: key@,
            label: label@,
            description: description@,
            input_type,
        }),
{
    FontSetting {
        key: key.to_owned(),
        label: label.to_owned(),
        description: description.to_owned(),
        input_type,
    }
}

/// The catalog of font settings.
pub fn get_font_settings() -> (settings: Vec<FontSetting>)
    ensures
        settings@.map_values(|s: FontSetting| s@) == font_settings(),
{
    let mut v: Vec<FontSetting> = Vec::new();
    v.push(setting("DefaultFamily", "標準フォント", "標準のフォント名", InputType::FamilyOnly));
    v.push(
        setting(
            "Control",
            "コントロールフォント",
            "標準のコントロールのフォントサイズ",
            InputType::SizeOnly,
        ),
    );
    v.push(
        setting(
            "EditControl",
            "エディットコントロール",
            "エディットコントロールのフォント（等幅推奨）",
            InputType::Both,
        ),
    );
    v.push(
        setting(
            "PreviewTime",
            "プレビュー時間表示",
            "プレビュー時間表示のフォントサイズ",
            InputType::SizeOnly,
        ),
    );
    v.push(
        setting(
            "LayerObject",
            "レイヤー・オブジェクト編集",
            "レイヤー・オブジェクト編集部分のフォントサイズ",
            InputType::SizeOnly,
        ),
    );
    v.push(
        setting(
            "TimeGauge",
            "フレーム時間ゲージ",
            "フレーム時間ゲージのフォントサイズ",
            InputType::SizeOnly,
        ),
    );
    v.push(setting("Footer", "フッター", "フッターのフォントサイズ", InputType::SizeOnly));
    v.push(
        setting("TextEdit", "テキスト編集", "テキスト編集のフォント（等幅推奨）", InputType::Both),
    );
    v.push(setting("Log", "ログ", "ログのフォント（等幅推奨）", InputType::Both));
    assert(v@.map_values(|s: FontSetting| s@) =~= font_settings());
    v
}

/// The kind of input of the setting `key`, looked up in the catalog.
pub fn input_type_for(key: &String) -> (r: Option<InputType>)
    ensures
        r == input_type_of(key@),
{
    let settings = get_font_settings();
    let ghost views = settings@.map_values(|s: FontSetting| s@);
    let mut i: usize = 0;
    while i < settings.len()
        invariant
            i <= settings.len(),
            views == settings@.map_values(|s: FontSetting| s@),
            views == font_settings(),
            forall|j: int| 0 <= j < i ==> font_keys()[j] != key@,
        decreases settings.len() - i,
    {
        assert(font_keys()[i as int] == views[i as int].key);
        if settings[i].key == *key {
            proof {
                lemma_first_index_is(font_keys(), key@, i as int);
            }
            return Some(settings[i].input_type);
        }
        i += 1;
    }
    proof {
        lemma_first_index_is(font_keys(), key@, i as int);
    }
    None
}

/// Takes a raw font value apart into size and family. Every text has a
/// reading.
pub fn parse_font_value(value: String) -> (r: FontValue)
    ensures
        r@ == font_value_of(value@),
{
    let chars = chars_of(value.as_str());
    let n = chars.len();
    let first = find_char(&chars, 0, n, ',');
    proof {
        assert(chars@.subrange(0, n as int) =~= chars@);
        lemma_first_index_of(chars@, ',');
    }
    let size = string_from(&chars, 0, first);
    if first < n {
        let second = find_char(&chars, first + 1, n, ',');
        let family = string_from(&chars, first + 1, second);
        proof {
            let rest = chars@.subrange(first + 1, n as int);
            assert(after_first(chars@, ',') == rest);
            assert(before_first(rest, ',') =~= chars@.subrange(first + 1, second as int));
        }
        FontValue { size, family }
    } else {
        proof {
            assert(before_first(Seq::<char>::empty(), ',') =~= Seq::<char>::empty());
        }
        FontValue { size, family: String::new() }
    }
}

/// Puts a size and a family together into the raw value stored under `key`.
pub fn format_font_value(size: String, family: String, key: String) -> (r: String)
    ensures
        r@ == font_value_text(size@, family@, key@),
{
    match input_type_for(&key) {
        None | Some(InputType::SizeOnly) => size,
        Some(kind) => {
            let chars = chars_of(family.as_str());
            let n = chars.len();
            let comma = find_char(&chars, 0, n, ',');
            let (a, b) = trim_bounds(&chars, 0, comma);
            proof {
                assert(chars@.subrange(0, n as int) =~= chars@);
            }
            let clean = string_from(&chars, a, b);
            match kind {
                InputType::FamilyOnly => clean,
                _ => {
                    if a < b {
                        let mut out = size;
                        out.push(',');
                        out.append(clean.as_str());
                        out
                    } else {
                        size
                    }
                },
            }
        },
    }
}

/// A size and a family come back from the value written for a key that takes
/// both, if neither holds a comma and the family is trimmed and not empty.
pub proof fn lemma_font_value_round_trip(size: Seq<char>, family: Seq<char>, key: Seq<char>)
    requires
        input_type_of(key) == Some(InputType::Both),
        !size.contains(','),
        !family.contains(','),
        trim(family) == family,
        family.len() > 0,
    ensures
        font_value_of(font_value_text(size, family, key)) == (FontValueView { size, family }),
{
    lemma_first_index_of(family, ',');
    assert(before_first(family, ',') =~= family);
    let text = size + seq![','] + family;
    assert(text[size.len() as int] == ',');
    assert forall|i: int| 0 <= i < size.len() implies text[i] != ',' by {
        assert(text[i] == size[i]);
        assert(size.contains(size[i]));
    }
    lemma_first_index_is(text, ',', size.len() as int);
    assert(before_first(text, ',') =~= size);
    assert(after_first(text, ',') =~= family);
}

/// The value written for a key that takes a size only, or for a key that the
/// catalog does not have, is the size, whatever the family; read again it has
/// no family, if the size holds no comma.
pub proof fn lemma_size_only_drops_family(size: Seq<char>, family: Seq<char>, key: Seq<char>)
    requires
        input_type_of(key) == Some(InputType::SizeOnly) || input_type_of(key) is None,
    ensures
        font_value_text(size, family, key) == size,
        !size.contains(',') ==> font_value_of(font_value_text(size, family, key)) == (
        FontValueView { size, family: Seq::empty() }),
{
    if !size.contains(',') {
        lemma_first_index_of(size, ',');
        assert(before_first(size, ',') =~= size);
        assert(before_first(Seq::<char>::empty(), ',') =~= Seq::<char>::empty());
    }
}

} // verus!
