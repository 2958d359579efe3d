//! Verified core of the lyrics tooling: timestamps, descriptors, the
//! lyrics cue parser, the credit-line parser, the SubRip and WebVTT
//! renderers, and the terminal selector pages with their frame buffer.

pub mod text;
pub mod timestamp;
pub mod descriptors;
pub mod parse_error;
pub mod parse_model;
pub mod parse;
pub mod credits_model;
pub mod credits_parse;
pub mod escape;
pub mod styles;
pub mod render_common;
pub mod render_srt;
pub mod render_vtt;
pub mod vtt_classes;
pub mod style_declarations;
pub mod credit_lines;
pub mod take;
pub mod tag;
pub mod debug_text;
pub mod collections;
pub mod driver;
pub mod messages;
pub mod tag_name;
pub mod width;
pub mod layout;
pub mod screen;
pub mod pages;
pub mod table;
pub mod replay;
