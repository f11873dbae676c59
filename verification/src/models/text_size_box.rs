//! Pixel measurement of a text row: the bounding box that a row of glyphs
//! occupies under a given font and scale.
//!
//! The font's glyph geometry comes from rusttype; the accumulation of the
//! per-glyph boxes into a row box is verified for every possible geometry.

use vstd::prelude::*;

verus! {

#[verifier::external_type_specification]
#[verifier::external_body]
pub struct ExFont<'a>(rusttype::Font<'a>);

#[verifier::external_type_specification]
#[verifier::external_body]
pub struct ExScale(rusttype::Scale);

/// The pixel bounding box of a single laid-out glyph, as plain values.
#[derive(Debug, Clone, Copy)]
pub struct GlyphBox {
    pub min_x: i32,
    pub min_y: i32,
    pub max_x: i32,
    pub max_y: i32,
}

/// Text frame size
#[derive(Debug, Clone, Copy)]
pub struct TextSizeBox {
    pub w: u32,
    pub h: u32,
}

/// One step of the row measurement: note the left edge of the newest glyph,
/// its width, and keep the tallest extent seen so far.
pub open spec fn acc_step(acc: (int, int, int), b: GlyphBox) -> (int, int, int) {
    (
        b.min_x as int,
        if b.max_y + (b.max_y - b.min_y) > acc.1 {
            b.max_y + (b.max_y - b.min_y)
        } else {
            acc.1
        },
        b.max_x - b.min_x,
    )
}

/// The accumulator state after the first `n` glyph boxes:
/// (left edge of the last box, tallest extent, width of the last box).
pub open spec fn acc_fold(boxes: Seq<GlyphBox>, n: int) -> (int, int, int)
    decreases n,
{
    if n <= 0 {
        (0, 0, 0)
    } else {
        acc_step(acc_fold(boxes, n - 1), boxes[n - 1])
    }
}

/// The measured row width: left edge of the last glyph plus its width.
pub open spec fn measured_w(boxes: Seq<GlyphBox>) -> int {
    let a = acc_fold(boxes, boxes.len() as int);
    a.0 + a.2
}

/// The measured row height: the tallest glyph extent.
pub open spec fn measured_h(boxes: Seq<GlyphBox>) -> int {
    acc_fold(boxes, boxes.len() as int).1
}

/// A value forced into the `u32` range.
pub open spec fn clamp_u32(v: int) -> int {
    if v < 0 {
        0
    } else if v > 0xffff_ffff {
        0xffff_ffff
    } else {
        v
    }
}

#[derive(Clone, Copy)]
struct _Accumulator {
    w: i64,
    h: i64,
    last_w: i64,
}

impl _Accumulator {
    pub closed spec fn inv(&self) -> bool {
        &&& -0x8000_0000 <= self.w <= 0x7fff_ffff
        &&& 0 <= self.h <= 0x1_8000_0000
        &&& -0x1_0000_0000 <= self.last_w <= 0x1_0000_0000
    }

    pub closed spec fn state(&self) -> (int, int, int) {
        (self.w as int, self.h as int, self.last_w as int)
    }

    fn empty() -> (a: Self)
        ensures
            a.state() == (0int, 0int, 0int),
            a.inv(),
    {
        Self { w: 0, h: 0, last_w: 0 }
    }

    fn step(&mut self, b: &GlyphBox)
        requires
            old(self).inv(),
        ensures
            final(self).inv(),
            final(self).state() == acc_step(old(self).state(), *b),
    {
        self.last_w = (b.max_x as i64) - (b.min_x as i64);
        let cand = (b.max_y as i64) + ((b.max_y as i64) - (b.min_y as i64));
        if cand > self.h {
            self.h = cand;
        }
        self.w = b.min_x as i64;
    }

    fn result(&self) -> (t: TextSizeBox)
        requires
            self.inv(),
        ensures
            t.w as int == clamp_u32(self.state().0 + self.state().2),
            t.h as int == clamp_u32(self.state().1),
    {
        let total = self.w + self.last_w;
        let w: u32 = if total < 0 {
            0
        } else if total > 0xffff_ffff {
            0xffff_ffffu32
        } else {
            total as u32
        };
        let h: u32 = if self.h > 0xffff_ffff {
            0xffff_ffffu32
        } else {
            self.h as u32
        };
        TextSizeBox { w, h }
    }
}

/// The row box determined by a list of glyph boxes: exact accumulation of
/// the geometry, verified for every input.
pub fn measure_boxes(boxes: &Vec<GlyphBox>) -> (t: TextSizeBox)
    ensures
        t.w as int == clamp_u32(measured_w(boxes@)),
        t.h as int == clamp_u32(measured_h(boxes@)),
{
    let mut acc = _Accumulator::empty();
    let mut i: usize = 0;
    while i < boxes.len()
        invariant
            0 <= i <= boxes.len(),
            acc.inv(),
            acc.state() == acc_fold(boxes@, i as int),
        decreases boxes.len() - i,
    {
        acc.step(&boxes[i]);
        i += 1;
    }
    acc.result()
}

/// Relies on rusttype's `Font::layout` and `PositionedGlyph::pixel_bounding_box`
/// for the pixel bounding box of each glyph of `text` at the given scale.
#[verifier::external_body]
fn glyph_boxes(text: &str, font: &rusttype::Font<'_>, scale: rusttype::Scale) -> (r: Vec<
    GlyphBox,
>) {
    let mut out: Vec<GlyphBox> = Vec::new();
    for g in font.layout(text, scale, rusttype::Point::default()) {
        if let Some(bb) = g.pixel_bounding_box() {
            out.push(GlyphBox { min_x: bb.min.x, min_y: bb.min.y, max_x: bb.max.x, max_y: bb.max.y });
        }
    }
    out
}

impl TextSizeBox {
    /// Calculate size of text with selected font
    ///
    /// Parameters:
    ///  - text: input string
    ///  - font: font, wow
    ///  - scale: scale of font
    ///
    /// Return: TextSizeBox instance
    pub fn from(text: &str, font: &rusttype::Font<'_>, scale: rusttype::Scale) -> Self {
        let boxes = glyph_boxes(text, font, scale);
        measure_boxes(&boxes)
    }
}

} // verus!
