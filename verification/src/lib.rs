//! Typed construction of HTML markup: tag names, element trees and style
//! sheets, each rendered to text by a function whose result is stated exactly.

pub mod html;
pub mod ordered_map;
pub mod styles;
pub mod tags;
pub mod text;

pub use crate::html::HtmlTag;
pub use crate::tags::TagType;
