//! Coordinates. A length is a whole number of units, of which a logical pixel has `PX`.

use vstd::prelude::*;

verus! {

/// The units of a logical pixel.
pub const PX: i128 = 1024;

/// A number of logical pixels in units.
pub fn px(n: u32) -> (r: i128)
    ensures
        r == n * PX,
{
    n as i128 * PX
}

/// A length to the nearest whole pixel; half a pixel counts as one.
pub open spec fn rounded(len: int) -> int {
    (len + PX / 2) / PX as int
}

/// An area.
#[derive(Clone, Copy, Debug, PartialEq, Eq, Structural)]
pub struct Rect {
    pub x: i128,
    pub y: i128,
    pub w: i128,
    pub h: i128,
}

impl Rect {
    /// Whether a point lies in the area, its edges included.
    pub open spec fn covers(self, x: int, y: int) -> bool {
        self.x <= x <= self.x + self.w && self.y <= y <= self.y + self.h
    }
}

/// A colour.
#[derive(Clone, Copy, Debug, PartialEq, Eq, Structural)]
pub struct Rgb {
    pub r: u8,
    pub g: u8,
    pub b: u8,
}

/// A text to draw.
#[derive(Debug)]
pub struct TextLabel {
    pub text: String,
    pub x: i128,
    pub y: i128,
    pub font_size: i128,
    pub color: Rgb,
}

/// A text to draw, in a specification.
pub struct LabelModel {
    pub text: Seq<char>,
    pub x: int,
    pub y: int,
    pub font_size: int,
    pub color: Rgb,
}

impl View for TextLabel {
    type V = LabelModel;

    open spec fn view(&self) -> LabelModel {
        LabelModel {
            text: self.text@,
            x: self.x as int,
            y: self.y as int,
            font_size: self.font_size as int,
            color: self.color,
        }
    }
}

/// The texts of a list of labels.
pub open spec fn label_models(v: Seq<TextLabel>) -> Seq<LabelModel> {
    v.map_values(|l: TextLabel| l@)
}

impl Clone for TextLabel {
    fn clone(&self) -> (r: TextLabel)
        ensures
            r == *self,
    {
        TextLabel {
            text: self.text.clone(),
            x: self.x,
            y: self.y,
            font_size: self.font_size,
            color: self.color,
        }
    }
}

/// A length is rounded to the whole pixel that is no more than half a pixel away, the longer
/// of two.
pub proof fn law_rounded_to_nearest(len: int)
    ensures
        2 * (rounded(len) * 1024 - len) <= 1024,
        2 * (len - rounded(len) * 1024) < 1024,
{
}

} // verus!
