use maplibre_render::font::{BMChar, BMFont, FontError};
use maplibre_render::text::{layout_text, TextVertex};

const SAMPLE: &str = "info face=\"x\" size=32\ncommon lineHeight=30 base=24 scaleW=256 scaleH=256 pages=1\nchar id=65 x=0 y=0 width=10 height=20 xoffset=0 yoffset=0 xadvance=12 page=0\n";

#[test]
fn parses_common_and_char_lines() {
    let font = BMFont::from_fnt(SAMPLE).unwrap();
    assert_eq!(font.line_height, 30);
    assert_eq!(font.base, 24);
    assert_eq!(font.scale_w, 256);
    assert_eq!(font.scale_h, 256);
    assert_eq!(font.chars.len(), 1);
    let a = font.chars.get(&65).unwrap();
    assert_eq!(
        *a,
        BMChar { id: 65, x: 0, y: 0, w: 10, h: 20, xoffset: 0, yoffset: 0, xadvance: 12 }
    );
}

#[test]
fn parses_negative_offsets_and_crlf() {
    let text = "common lineHeight=18 base=14 scaleW=128 scaleH=64\r\nchar id=66 x=12 y=3 width=7 height=9 xoffset=-1 yoffset=-2 xadvance=8\r\n";
    let font = BMFont::from_fnt(text).unwrap();
    assert_eq!(font.scale_h, 64);
    let b = font.chars.get(&66).unwrap();
    assert_eq!(b.xoffset, -1);
    assert_eq!(b.yoffset, -2);
    assert_eq!(b.x, 12);
    assert_eq!(b.xadvance, 8);
}

#[test]
fn later_char_line_replaces_earlier() {
    let text = "char id=65 x=1\nchar id=65 x=2\n";
    let font = BMFont::from_fnt(text).unwrap();
    assert_eq!(font.chars.len(), 1);
    assert_eq!(font.chars.get(&65).unwrap().x, 2);
}

#[test]
fn empty_text_gives_empty_font() {
    let font = BMFont::from_fnt("").unwrap();
    assert_eq!(font.line_height, 0);
    assert_eq!(font.scale_w, 0);
    assert!(font.chars.is_empty());
}

#[test]
fn malformed_number_is_rejected() {
    assert_eq!(BMFont::from_fnt("common lineHeight=3x\n").err(), Some(FontError::BadNumber));
    assert_eq!(BMFont::from_fnt("char id=-4\n").err(), Some(FontError::BadNumber));
    assert_eq!(BMFont::from_fnt("char id=65 width=99999999999\n").err(), Some(FontError::BadNumber));
}

#[test]
fn unknown_keys_and_lines_are_ignored() {
    let font = BMFont::from_fnt("page id=0 file=\"a.png\"\ncommon lineHeight=5 packed=zz\n").unwrap();
    assert_eq!(font.line_height, 5);
    assert!(font.chars.is_empty());
}

fn sample_font() -> BMFont {
    BMFont::from_fnt(
        "common lineHeight=30 base=24 scaleW=256 scaleH=128\nchar id=65 x=10 y=20 width=10 height=20 xoffset=1 yoffset=2 xadvance=12\nchar id=66 x=30 y=0 width=8 height=16 xoffset=0 yoffset=4 xadvance=9\n",
    )
    .unwrap()
}

#[test]
fn layout_places_glyph_quads() {
    let font = sample_font();
    let verts = layout_text(&font, &vec!['A', 'B'], 100, 50);
    assert_eq!(verts.len(), 12);
    assert_eq!(verts[0], TextVertex { x: 101, y: 52, u: 10, v: 20 });
    assert_eq!(verts[1], TextVertex { x: 111, y: 52, u: 20, v: 20 });
    assert_eq!(verts[2], TextVertex { x: 111, y: 72, u: 20, v: 40 });
    assert_eq!(verts[3], verts[0]);
    assert_eq!(verts[4], verts[2]);
    assert_eq!(verts[5], TextVertex { x: 101, y: 72, u: 10, v: 40 });
    assert_eq!(verts[6], TextVertex { x: 112, y: 54, u: 30, v: 0 });
    assert_eq!(verts[8], TextVertex { x: 120, y: 70, u: 38, v: 16 });
}

#[test]
fn layout_skips_characters_without_glyph() {
    let font = sample_font();
    let verts = layout_text(&font, &vec!['?', 'B'], 0, 0);
    assert_eq!(verts.len(), 6);
    assert_eq!(verts[0].x, 0);
    assert!(layout_text(&font, &vec![], 0, 0).is_empty());
    assert!(layout_text(&font, &vec!['z', 'q'], 0, 0).is_empty());
}
