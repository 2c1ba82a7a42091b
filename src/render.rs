use vstd::prelude::*;
use vstd::string::StringExecFns;
use crate::layout::{FibonacciRectangle, Viewport};
use crate::text::{decimal_spec, decimal_string};

verus! {

/// A colour as red, green and blue channels.
#[derive(Clone, Copy, Debug, PartialEq, Eq)]
pub struct Rgb {
    pub r: u8,
    pub g: u8,
    pub b: u8,
}

/// How many colours the rectangles cycle through.
pub const PALETTE_SIZE: usize = 8;

/// The rectangles' palette, from light yellow to amber.
pub open spec fn palette_spec(k: nat) -> Rgb {
    if k == 0 {
        Rgb { r: 255, g: 255, b: 200 }
    } else if k == 1 {
        Rgb { r: 255, g: 245, b: 180 }
    } else if k == 2 {
        Rgb { r: 255, g: 235, b: 160 }
    } else if k == 3 {
        Rgb { r: 255, g: 225, b: 140 }
    } else if k == 4 {
        Rgb { r: 255, g: 215, b: 120 }
    } else if k == 5 {
        Rgb { r: 255, g: 205, b: 100 }
    } else if k == 6 {
        Rgb { r: 255, g: 195, b: 80 }
    } else {
        Rgb { r: 255, g: 185, b: 60 }
    }
}

/// Returns the fill colour of the rectangle drawn `draw_index`-th: the palette,
/// taken cyclically.
pub fn rectangle_color(draw_index: usize) -> (r: Rgb)
    ensures
        r == palette_spec((draw_index % PALETTE_SIZE) as nat),
{
    let k = draw_index % PALETTE_SIZE;
    if k == 0 {
        Rgb { r: 255, g: 255, b: 200 }
    } else if k == 1 {
        Rgb { r: 255, g: 245, b: 180 }
    } else if k == 2 {
        Rgb { r: 255, g: 235, b: 160 }
    } else if k == 3 {
        Rgb { r: 255, g: 225, b: 140 }
    } else if k == 4 {
        Rgb { r: 255, g: 215, b: 120 }
    } else if k == 5 {
        Rgb { r: 255, g: 205, b: 100 }
    } else if k == 6 {
        Rgb { r: 255, g: 195, b: 80 }
    } else {
        Rgb { r: 255, g: 185, b: 60 }
    }
}

/// The margin, in pixels, that a label keeps from its rectangle's edges.
pub const LABEL_MARGIN: i64 = 4;

/// Returns whether a label of the given measured size fits inside the rectangle
/// with the margin to spare; a label that does not fit is not drawn.
pub fn label_fits(text_width: i64, text_height: i64, rect: &FibonacciRectangle) -> (r: bool)
    ensures
        r == (text_width < rect.width - LABEL_MARGIN && text_height < rect.height - LABEL_MARGIN),
{
    (text_width as i128) < (rect.width as i128) - (LABEL_MARGIN as i128) && (text_height as i128)
        < (rect.height as i128) - (LABEL_MARGIN as i128)
}

/// Returns the positions of the background grid's lines along one axis: from
/// `start` in steps of `spacing`, every one that does not pass `end`.
pub fn grid_lines(start: i64, end: i64, spacing: i64) -> (r: Vec<i64>)
    requires
        spacing > 0,
    ensures
        forall|k: int| 0 <= k < r@.len() ==> #[trigger] r@[k] == start + k * spacing,
        forall|k: int| 0 <= k < r@.len() ==> #[trigger] r@[k] <= end,
        start + r@.len() * spacing > end,
{
    let mut lines: Vec<i64> = Vec::new();
    let mut x: i64 = start;
    assert(lines@.len() * spacing == 0) by (nonlinear_arith)
        requires
            lines@.len() == 0,
    ;
    while x <= end
        invariant
            spacing > 0,
            x == start + lines@.len() * spacing,
            forall|k: int| 0 <= k < lines@.len() ==> #[trigger] lines@[k] == start + k * spacing,
            forall|k: int| 0 <= k < lines@.len() ==> #[trigger] lines@[k] <= end,
        decreases end - x + spacing,
    {
        lines.push(x);
        assert(start + lines@.len() * spacing == x + spacing) by (nonlinear_arith)
            requires
                x == start + (lines@.len() - 1) * spacing,
        ;
        match x.checked_add(spacing) {
            Some(next) => {
                x = next;
            },
            None => {
                return lines;
            },
        }
    }
    lines
}

/// Where a rectangle's value is written: centred on the rectangle, with a
/// shadow copy one pixel right and one pixel down, drawn first.
#[derive(Clone, Copy, Debug, PartialEq, Eq)]
pub struct LabelAnchors {
    pub x: i64,
    pub y: i64,
    pub shadow_x: i64,
    pub shadow_y: i64,
}

/// Returns the centre of the rectangle, where its label goes, and the place of
/// the label's shadow.
pub fn label_anchors(rect: &FibonacciRectangle) -> (r: LabelAnchors)
    requires
        rect.width >= 0,
        rect.height >= 0,
        rect.x + rect.width / 2 + 1 <= i64::MAX,
        rect.y + rect.height / 2 + 1 <= i64::MAX,
    ensures
        r.x == rect.x + rect.width / 2,
        r.y == rect.y + rect.height / 2,
        r.shadow_x == r.x + 1,
        r.shadow_y == r.y + 1,
{
    let x = rect.x + rect.width / 2;
    let y = rect.y + rect.height / 2;
    LabelAnchors { x, y, shadow_x: x + 1, shadow_y: y + 1 }
}

/// A rectangle on screen, in whole pixels.
#[derive(Clone, Copy, Debug, PartialEq, Eq)]
pub struct PixelRect {
    pub x: i64,
    pub y: i64,
    pub width: i64,
    pub height: i64,
}

/// How far the title stands from the view's top-left corner, on both axes.
pub const TITLE_INSET: i64 = 15;

/// The title's text for index `n`.
pub open spec fn title_text_spec(n: nat) -> Seq<char> {
    "Fibonacci Spiral (n = "@ + decimal_spec(n) + ")"@
}

/// Returns the title shown over the spiral for index `n`.
pub fn title_text(n: u32) -> (r: String)
    ensures
        r@ == title_text_spec(n as nat),
{
    let mut out = String::from_str("Fibonacci Spiral (n = ");
    out.append(decimal_string(n as u64).as_str());
    out.append(")");
    out
}

/// Returns the top-left corner of the title's text.
pub fn title_position(viewport: &Viewport) -> (r: (i64, i64))
    ensures
        r.0 == viewport.x + TITLE_INSET,
        r.1 == viewport.y + TITLE_INSET,
{
    (viewport.x as i64 + TITLE_INSET, viewport.y as i64 + TITLE_INSET)
}

/// Returns the box drawn behind the title, given the measured size of its
/// text: 5 pixels wider on each side and 2 pixels taller above and below.
pub fn title_background(viewport: &Viewport, text_width: u32, text_height: u32) -> (r: PixelRect)
    ensures
        r.x == viewport.x + TITLE_INSET - 5,
        r.y == viewport.y + TITLE_INSET - 2,
        r.width == text_width + 10,
        r.height == text_height + 4,
{
    let (x, y) = title_position(viewport);
    PixelRect { x: x - 5, y: y - 2, width: text_width as i64 + 10, height: text_height as i64 + 4 }
}

} // verus!
