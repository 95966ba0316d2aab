//! Domain model and codec for the `style.conf` appearance file: a document of
//! four named sections, its line-oriented text format, and the compound
//! "size,family" encoding used by font entries.

pub mod config;
pub mod families;
pub mod font;
pub mod paths;
pub mod round_trip;
pub mod section;
pub mod text;
pub mod writer;

pub use crate::config::{parse_style_config, SectionName, StyleConfig};
pub use crate::families::{clean_font_name, font_families};
pub use crate::font::{
    format_font_value, get_font_settings, parse_font_value, FontSetting, FontValue, InputType,
};
pub use crate::paths::{get_default_style_path, get_user_style_path};
pub use crate::section::Section;
pub use crate::writer::serialize_style_config;
