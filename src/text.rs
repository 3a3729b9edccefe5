use vstd::prelude::*;
use crate::font::{BMChar, BMFont};

verus! {

broadcast use vstd::std_specs::hash::group_hash_axioms;

/// A screen position in pixels, y growing downward.
#[derive(Clone, Copy, Debug, PartialEq, Eq, Structural)]
pub struct Point {
    pub x: i32,
    pub y: i32,
}

/// An RGBA colour, one byte per channel.
#[derive(Clone, Copy, Debug, PartialEq, Eq, Structural)]
pub struct Color {
    pub r: u8,
    pub g: u8,
    pub b: u8,
    pub a: u8,
}

/// A run of text to draw over the map, its top-left corner at `position`.
pub struct OverlayText {
    pub text: Vec<char>,
    pub position: Point,
    pub color: Color,
    pub size: u32,
}

/// A shape to draw over the map, in pixels.
#[derive(Clone, Copy, Debug, PartialEq, Eq, Structural)]
pub enum Shape {
    Rect { pos: Point, size: Point, color: Color },
    Circle { pos: Point, radius: u32, color: Color },
    Line { a: Point, b: Point, width: u32, color: Color },
}

#[derive(Clone, Copy, Debug, PartialEq, Eq, Structural)]
pub struct OverlayShape {
    pub shape: Shape,
}

/// An image to draw over the map: its place and size in pixels and the texture it shows.
#[derive(Clone, Copy, Debug, PartialEq, Eq, Structural)]
pub struct OverlayImage {
    pub pos: Point,
    pub size: Point,
    pub texture_id: u32,
}

/// One vertex of a glyph quad: screen position in pixels and atlas position in texels.
/// Normalised device coordinates are `x / screen_w * 2 - 1` and `1 - y / screen_h * 2`;
/// texture coordinates are `u / scale_w` and `v / scale_h`.
#[derive(Clone, Copy, Debug, PartialEq, Eq, Structural)]
pub struct TextVertex {
    pub x: i64,
    pub y: i64,
    pub u: u64,
    pub v: u64,
}

/// The largest number of characters whose vertex count fits the `u32` of a draw call.
pub const MAX_TEXT_CHARS: usize = 0x2aaa_aaaa;

pub open spec fn vertex_view(v: TextVertex) -> (int, int, int, int) {
    (v.x as int, v.y as int, v.u as int, v.v as int)
}

/// The two triangles of glyph `g` with its top-left corner at `(px, py)`.
pub open spec fn glyph_quad(g: BMChar, px: int, py: int) -> Seq<(int, int, int, int)> {
    let x1 = px;
    let y1 = py;
    let x2 = px + g.w;
    let y2 = py + g.h;
    let u1 = g.x as int;
    let v1 = g.y as int;
    let u2 = g.x + g.w;
    let v2 = g.y + g.h;
    seq![(x1, y1, u1, v1), (x2, y1, u2, v1), (x2, y2, u2, v2), (x1, y1, u1, v1), (x2, y2, u2, v2), (x1, y2, u1, v2)]
}

/// The pen's x after `text`, starting from `x0`: each character with a glyph advances it.
pub open spec fn pen_after(chars: Map<u32, BMChar>, text: Seq<char>, x0: int) -> int
    decreases text.len(),
{
    if text.len() == 0 {
        x0
    } else {
        let prev = pen_after(chars, text.drop_last(), x0);
        let c = text.last() as u32;
        if chars.contains_key(c) {
            prev + chars[c].xadvance
        } else {
            prev
        }
    }
}

/// The vertices of `text` laid out on one line from `(x0, y0)`; characters without a glyph
/// are skipped.
pub open spec fn layout(chars: Map<u32, BMChar>, text: Seq<char>, x0: int, y0: int) -> Seq<
    (int, int, int, int),
>
    decreases text.len(),
{
    if text.len() == 0 {
        Seq::empty()
    } else {
        let prev = layout(chars, text.drop_last(), x0, y0);
        let pen = pen_after(chars, text.drop_last(), x0);
        let c = text.last() as u32;
        if chars.contains_key(c) {
            let g = chars[c];
            prev + glyph_quad(g, pen + g.xoffset, y0 + g.yoffset)
        } else {
            prev
        }
    }
}

pub open spec fn vertices_match(r: Seq<TextVertex>, s: Seq<(int, int, int, int)>) -> bool {
    r.len() == s.len() && forall|i: int| 0 <= i < r.len() ==> vertex_view(#[trigger] r[i]) == s[i]
}

/// Lays out `text` with `font` from the pixel position `(x0, y0)`.
pub fn layout_text(font: &BMFont, text: &Vec<char>, x0: i32, y0: i32) -> (r: Vec<TextVertex>)
    requires
        text@.len() <= MAX_TEXT_CHARS,
    ensures
        vertices_match(r@, layout(font.chars@, text@, x0 as int, y0 as int)),
{
    let mut out: Vec<TextVertex> = Vec::new();
    let mut cx: i64 = x0 as i64;
    let mut i: usize = 0;
    while i < text.len()
        invariant
            i <= text@.len() <= MAX_TEXT_CHARS,
            cx == pen_after(font.chars@, text@.subrange(0, i as int), x0 as int),
            -(i as int) * 0x8000_0000 - 0x8000_0000 <= cx <= (i as int) * 0x8000_0000
                + 0x8000_0000,
            vertices_match(out@, layout(font.chars@, text@.subrange(0, i as int), x0 as int, y0 as int)),
        decreases text@.len() - i,
    {
        let ghost pre = text@.subrange(0, i as int);
        let ghost cur = text@.subrange(0, i + 1);
        assert(cur.drop_last() == pre);
        let c = text[i];
        match font.chars.get(&(c as u32)) {
            Some(g) => {
                let px: i64 = cx + g.xoffset as i64;
                let py: i64 = y0 as i64 + g.yoffset as i64;
                let x2: i64 = px + g.w as i64;
                let y2: i64 = py + g.h as i64;
                let u1: u64 = g.x as u64;
                let v1: u64 = g.y as u64;
                let u2: u64 = g.x as u64 + g.w as u64;
                let v2: u64 = g.y as u64 + g.h as u64;
                let ghost prev = out@;
                out.push(TextVertex { x: px, y: py, u: u1, v: v1 });
                out.push(TextVertex { x: x2, y: py, u: u2, v: v1 });
                out.push(TextVertex { x: x2, y: y2, u: u2, v: v2 });
                out.push(TextVertex { x: px, y: py, u: u1, v: v1 });
                out.push(TextVertex { x: x2, y: y2, u: u2, v: v2 });
                out.push(TextVertex { x: px, y: y2, u: u1, v: v2 });
                cx = cx + g.xadvance as i64;
                proof {
                    let q = glyph_quad(*g, px as int, py as int);
                    let l = layout(font.chars@, pre, x0 as int, y0 as int);
                    assert(layout(font.chars@, cur, x0 as int, y0 as int) == l + q);
                    assert(prev.len() == l.len());
                    assert forall|k: int| 0 <= k < out@.len() implies vertex_view(
                        #[trigger] out@[k],
                    ) == (l + q)[k] by {}
                }
            },
            None => {
                proof {
                    assert(layout(font.chars@, cur, x0 as int, y0 as int) == layout(
                        font.chars@,
                        pre,
                        x0 as int,
                        y0 as int,
                    ));
                }
            },
        }
        i = i + 1;
    }
    proof {
        assert(text@.subrange(0, text@.len() as int) == text@);
    }
    out
}

} // verus!
