//! The drawing templates' data model: positions, shapes and image
//! references, as plain data. Rendering itself is the application's
//! concern.

use vstd::prelude::*;

verus! {

/// The base of every drawable element: a colour and a position.
#[derive(Debug, Clone, PartialEq, Eq)]
pub struct DrawContentModel {
    /// RGB colour components.
    pub agb_color: Vec<i32>,
    pub x: i32,
    pub y: i32,
}

/// A rectangle, optionally rounded and translucent.
#[derive(Debug, Clone, PartialEq, Eq)]
pub struct RectangleContentModel {
    pub draw_content_model: DrawContentModel,
    pub width: i32,
    pub height: i32,
    /// Corner radius.
    pub radius: i32,
    /// Opacity, 0 to 255.
    pub transparent: i32,
}

/// An image placed into a rectangle, by serial and source path.
#[derive(Debug, Clone, PartialEq, Eq)]
pub struct ImageContentModel {
    pub rectangle_content_model: RectangleContentModel,
    pub serial: i32,
    /// Image source: base64 data or a URL.
    pub path: String,
}

/// A straight line segment.
#[derive(Debug, Clone, PartialEq, Eq)]
pub struct LineContentModel {
    pub draw_content_model: DrawContentModel,
    pub width: i32,
    pub length: i32,
}

/// A placeholder for text substituted at render time.
#[derive(Debug, Clone, PartialEq, Eq)]
pub struct DynamicTextModel {
}

} // verus!
