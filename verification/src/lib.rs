//! Verified core logic of What-A-Browser.
pub mod chars;
pub mod inline_style;
pub mod location;
pub mod text;
pub mod address;
pub mod script;
pub mod style_types;
pub mod theme;
pub mod image;
pub mod canvas;
pub mod color_text;
pub mod tabs;
pub mod cascade_order;
pub mod custom_properties;
pub mod class_list;
pub mod keywords;
pub mod display_scopes;
pub mod hints;
pub mod style_fields;
