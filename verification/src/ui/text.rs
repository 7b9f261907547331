//! The 5 × 7 block font of the overlays and the text it can show.
use vstd::prelude::*;

use crate::chars::{char_upper, push_char, str_chars, upper, upper_seq};

verus! {

/// Rows of the 5 × 7 glyph of `c`, top row first, leftmost column in bit 4; none for
/// characters the font lacks.
pub open spec fn glyph(c: char) -> Option<[u8; 7]> {
    match c {
        'A' => Some([0b01110u8, 0b10001, 0b10001, 0b11111, 0b10001, 0b10001, 0b10001]),
        'B' => Some([0b11110u8, 0b10001, 0b10001, 0b11110, 0b10001, 0b10001, 0b11110]),
        'C' => Some([0b01111u8, 0b10000, 0b10000, 0b10000, 0b10000, 0b10000, 0b01111]),
        'D' => Some([0b11110u8, 0b10001, 0b10001, 0b10001, 0b10001, 0b10001, 0b11110]),
        'E' => Some([0b11111u8, 0b10000, 0b10000, 0b11110, 0b10000, 0b10000, 0b11111]),
        'F' => Some([0b11111u8, 0b10000, 0b10000, 0b11110, 0b10000, 0b10000, 0b10000]),
        'G' => Some([0b01111u8, 0b10000, 0b10000, 0b10111, 0b10001, 0b10001, 0b01110]),
        'H' => Some([0b10001u8, 0b10001, 0b10001, 0b11111, 0b10001, 0b10001, 0b10001]),
        'I' => Some([0b11111u8, 0b00100, 0b00100, 0b00100, 0b00100, 0b00100, 0b11111]),
        'J' => Some([0b00001u8, 0b00001, 0b00001, 0b00001, 0b10001, 0b10001, 0b01110]),
        'K' => Some([0b10001u8, 0b10010, 0b10100, 0b11000, 0b10100, 0b10010, 0b10001]),
        'L' => Some([0b10000u8, 0b10000, 0b10000, 0b10000, 0b10000, 0b10000, 0b11111]),
        'M' => Some([0b10001u8, 0b11011, 0b10101, 0b10101, 0b10001, 0b10001, 0b10001]),
        'N' => Some([0b10001u8, 0b11001, 0b10101, 0b10011, 0b10001, 0b10001, 0b10001]),
        'O' => Some([0b01110u8, 0b10001, 0b10001, 0b10001, 0b10001, 0b10001, 0b01110]),
        'P' => Some([0b11110u8, 0b10001, 0b10001, 0b11110, 0b10000, 0b10000, 0b10000]),
        'Q' => Some([0b01110u8, 0b10001, 0b10001, 0b10001, 0b10101, 0b10010, 0b01101]),
        'R' => Some([0b11110u8, 0b10001, 0b10001, 0b11110, 0b10100, 0b10010, 0b10001]),
        'S' => Some([0b01111u8, 0b10000, 0b10000, 0b01110, 0b00001, 0b00001, 0b11110]),
        'T' => Some([0b11111u8, 0b00100, 0b00100, 0b00100, 0b00100, 0b00100, 0b00100]),
        'U' => Some([0b10001u8, 0b10001, 0b10001, 0b10001, 0b10001, 0b10001, 0b01110]),
        'V' => Some([0b10001u8, 0b10001, 0b10001, 0b10001, 0b10001, 0b01010, 0b00100]),
        'W' => Some([0b10001u8, 0b10001, 0b10001, 0b10101, 0b10101, 0b11011, 0b10001]),
        'X' => Some([0b10001u8, 0b10001, 0b01010, 0b00100, 0b01010, 0b10001, 0b10001]),
        'Y' => Some([0b10001u8, 0b10001, 0b01010, 0b00100, 0b00100, 0b00100, 0b00100]),
        'Z' => Some([0b11111u8, 0b00001, 0b00010, 0b00100, 0b01000, 0b10000, 0b11111]),
        '0' => Some([0b01110u8, 0b10001, 0b10011, 0b10101, 0b11001, 0b10001, 0b01110]),
        '1' => Some([0b00100u8, 0b01100, 0b00100, 0b00100, 0b00100, 0b00100, 0b01110]),
        '2' => Some([0b01110u8, 0b10001, 0b00001, 0b00010, 0b00100, 0b01000, 0b11111]),
        '3' => Some([0b11110u8, 0b00001, 0b00001, 0b01110, 0b00001, 0b00001, 0b11110]),
        '4' => Some([0b00010u8, 0b00110, 0b01010, 0b10010, 0b11111, 0b00010, 0b00010]),
        '5' => Some([0b11111u8, 0b10000, 0b10000, 0b11110, 0b00001, 0b00001, 0b11110]),
        '6' => Some([0b01110u8, 0b10000, 0b10000, 0b11110, 0b10001, 0b10001, 0b01110]),
        '7' => Some([0b11111u8, 0b00001, 0b00010, 0b00100, 0b01000, 0b01000, 0b01000]),
        '8' => Some([0b01110u8, 0b10001, 0b10001, 0b01110, 0b10001, 0b10001, 0b01110]),
        '9' => Some([0b01110u8, 0b10001, 0b10001, 0b01111, 0b00001, 0b00001, 0b01110]),
        '<' => Some([0b00001u8, 0b00010, 0b00100, 0b01000, 0b00100, 0b00010, 0b00001]),
        '>' => Some([0b10000u8, 0b01000, 0b00100, 0b00010, 0b00100, 0b01000, 0b10000]),
        '/' => Some([0b00001u8, 0b00010, 0b00100, 0b01000, 0b10000, 0b00000, 0b00000]),
        ':' => Some([0b00000u8, 0b00100, 0b00100, 0b00000, 0b00100, 0b00100, 0b00000]),
        '.' => Some([0b00000u8, 0b00000, 0b00000, 0b00000, 0b00000, 0b00100, 0b00100]),
        '-' => Some([0b00000u8, 0b00000, 0b00000, 0b11111, 0b00000, 0b00000, 0b00000]),
        '!' => Some([0b00100u8, 0b00100, 0b00100, 0b00100, 0b00100, 0b00000, 0b00100]),
        ' ' => Some([0u8, 0, 0, 0, 0, 0, 0]),
        _ => None,
    }
}

/// The font has a glyph for `c`.
pub open spec fn has_glyph(c: char) -> bool {
    glyph(c) is Some
}

pub fn glyph_rows(ch: char) -> (rows: Option<[u8; 7]>)
    ensures
        rows == glyph(ch),
{
    match ch {
        'A' => Some([0b01110u8, 0b10001, 0b10001, 0b11111, 0b10001, 0b10001, 0b10001]),
        'B' => Some([0b11110u8, 0b10001, 0b10001, 0b11110, 0b10001, 0b10001, 0b11110]),
        'C' => Some([0b01111u8, 0b10000, 0b10000, 0b10000, 0b10000, 0b10000, 0b01111]),
        'D' => Some([0b11110u8, 0b10001, 0b10001, 0b10001, 0b10001, 0b10001, 0b11110]),
        'E' => Some([0b11111u8, 0b10000, 0b10000, 0b11110, 0b10000, 0b10000, 0b11111]),
        'F' => Some([0b11111u8, 0b10000, 0b10000, 0b11110, 0b10000, 0b10000, 0b10000]),
        'G' => Some([0b01111u8, 0b10000, 0b10000, 0b10111, 0b10001, 0b10001, 0b01110]),
        'H' => Some([0b10001u8, 0b10001, 0b10001, 0b11111, 0b10001, 0b10001, 0b10001]),
        'I' => Some([0b11111u8, 0b00100, 0b00100, 0b00100, 0b00100, 0b00100, 0b11111]),
        'J' => Some([0b00001u8, 0b00001, 0b00001, 0b00001, 0b10001, 0b10001, 0b01110]),
        'K' => Some([0b10001u8, 0b10010, 0b10100, 0b11000, 0b10100, 0b10010, 0b10001]),
        'L' => Some([0b10000u8, 0b10000, 0b10000, 0b10000, 0b10000, 0b10000, 0b11111]),
        'M' => Some([0b10001u8, 0b11011, 0b10101, 0b10101, 0b10001, 0b10001, 0b10001]),
        'N' => Some([0b10001u8, 0b11001, 0b10101, 0b10011, 0b10001, 0b10001, 0b10001]),
        'O' => Some([0b01110u8, 0b10001, 0b10001, 0b10001, 0b10001, 0b10001, 0b01110]),
        'P' => Some([0b11110u8, 0b10001, 0b10001, 0b11110, 0b10000, 0b10000, 0b10000]),
        'Q' => Some([0b01110u8, 0b10001, 0b10001, 0b10001, 0b10101, 0b10010, 0b01101]),
        'R' => Some([0b11110u8, 0b10001, 0b10001, 0b11110, 0b10100, 0b10010, 0b10001]),
        'S' => Some([0b01111u8, 0b10000, 0b10000, 0b01110, 0b00001, 0b00001, 0b11110]),
        'T' => Some([0b11111u8, 0b00100, 0b00100, 0b00100, 0b00100, 0b00100, 0b00100]),
        'U' => Some([0b10001u8, 0b10001, 0b10001, 0b10001, 0b10001, 0b10001, 0b01110]),
        'V' => Some([0b10001u8, 0b10001, 0b10001, 0b10001, 0b10001, 0b01010, 0b00100]),
        'W' => Some([0b10001u8, 0b10001, 0b10001, 0b10101, 0b10101, 0b11011, 0b10001]),
        'X' => Some([0b10001u8, 0b10001, 0b01010, 0b00100, 0b01010, 0b10001, 0b10001]),
        'Y' => Some([0b10001u8, 0b10001, 0b01010, 0b00100, 0b00100, 0b00100, 0b00100]),
        'Z' => Some([0b11111u8, 0b00001, 0b00010, 0b00100, 0b01000, 0b10000, 0b11111]),
        '0' => Some([0b01110u8, 0b10001, 0b10011, 0b10101, 0b11001, 0b10001, 0b01110]),
        '1' => Some([0b00100u8, 0b01100, 0b00100, 0b00100, 0b00100, 0b00100, 0b01110]),
        '2' => Some([0b01110u8, 0b10001, 0b00001, 0b00010, 0b00100, 0b01000, 0b11111]),
        '3' => Some([0b11110u8, 0b00001, 0b00001, 0b01110, 0b00001, 0b00001, 0b11110]),
        '4' => Some([0b00010u8, 0b00110, 0b01010, 0b10010, 0b11111, 0b00010, 0b00010]),
        '5' => Some([0b11111u8, 0b10000, 0b10000, 0b11110, 0b00001, 0b00001, 0b11110]),
        '6' => Some([0b01110u8, 0b10000, 0b10000, 0b11110, 0b10001, 0b10001, 0b01110]),
        '7' => Some([0b11111u8, 0b00001, 0b00010, 0b00100, 0b01000, 0b01000, 0b01000]),
        '8' => Some([0b01110u8, 0b10001, 0b10001, 0b01110, 0b10001, 0b10001, 0b01110]),
        '9' => Some([0b01110u8, 0b10001, 0b10001, 0b01111, 0b00001, 0b00001, 0b01110]),
        '<' => Some([0b00001u8, 0b00010, 0b00100, 0b01000, 0b00100, 0b00010, 0b00001]),
        '>' => Some([0b10000u8, 0b01000, 0b00100, 0b00010, 0b00100, 0b01000, 0b10000]),
        '/' => Some([0b00001u8, 0b00010, 0b00100, 0b01000, 0b10000, 0b00000, 0b00000]),
        ':' => Some([0b00000u8, 0b00100, 0b00100, 0b00000, 0b00100, 0b00100, 0b00000]),
        '.' => Some([0b00000u8, 0b00000, 0b00000, 0b00000, 0b00000, 0b00100, 0b00100]),
        '-' => Some([0b00000u8, 0b00000, 0b00000, 0b11111, 0b00000, 0b00000, 0b00000]),
        '!' => Some([0b00100u8, 0b00100, 0b00100, 0b00100, 0b00100, 0b00000, 0b00100]),
        ' ' => Some([0u8, 0, 0, 0, 0, 0, 0]),
        _ => None,
    }
}

/// The start menu's font has the overlay font's glyphs but for `/ : . - !`.
pub open spec fn in_menu_font(c: char) -> bool {
    has_glyph(c) && c != '/' && c != ':' && c != '.' && c != '-' && c != '!'
}

/// Whether the font (the menu's when `menu_font`, else the overlay's) draws `c`.
pub open spec fn drawn(c: char, menu_font: bool) -> bool {
    if menu_font { in_menu_font(c) } else { has_glyph(c) }
}

/// `text` upper-cased, with every character the font lacks shown as a space.
pub open spec fn displayable_in(text: Seq<char>, menu_font: bool) -> Seq<char> {
    upper_seq(text).map_values(|c: char| if drawn(c, menu_font) { c } else { ' ' })
}

/// `text` as the overlay font shows it.
pub open spec fn displayable(text: Seq<char>) -> Seq<char> {
    displayable_in(text, false)
}

/// Text made displayable can be drawn in full, and making it displayable again changes
/// nothing.
pub proof fn law_displayable_is_drawable_and_stable(text: Seq<char>, menu_font: bool)
    ensures
        displayable_in(text, menu_font).len() == text.len(),
        forall|i: int| 0 <= i < text.len() ==> drawn(#[trigger] displayable_in(text, menu_font)[i], menu_font),
        displayable_in(displayable_in(text, menu_font), menu_font) == displayable_in(text, menu_font),
{
    let d = displayable_in(text, menu_font);
    assert forall|i: int| 0 <= i < text.len() implies drawn(#[trigger] d[i], menu_font) && upper(d[i]) == d[i] by {
        let c = upper(text[i]);
        assert(d[i] == if drawn(c, menu_font) { c } else { ' ' });
    }
    assert(displayable_in(d, menu_font) =~= d);
}

fn font_draws(c: char, menu_font: bool) -> (b: bool)
    ensures
        b == drawn(c, menu_font),
{
    match glyph_rows(c) {
        Some(_) => !(menu_font && (c == '/' || c == ':' || c == '.' || c == '-' || c == '!')),
        None => false,
    }
}

/// `text` as the font (the menu's when `menu_font`, else the overlay's) shows it, or
/// `fallback` when `text` is empty.
pub fn sanitize_with(text: &str, fallback: &str, menu_font: bool) -> (s: String)
    ensures
        s@ == if text@.len() == 0 { fallback@ } else { displayable_in(text@, menu_font) },
{
    let chars = str_chars(text);
    if chars.len() == 0 {
        return fallback.to_owned();
    }
    let mut s = String::new();
    let mut i: usize = 0;
    while i < chars.len()
        invariant
            chars@ == text@,
            i <= chars@.len(),
            s@ == displayable_in(chars@.take(i as int), menu_font),
        decreases chars@.len() - i,
    {
        let c = char_upper(chars[i]);
        let shown = if font_draws(c, menu_font) { c } else { ' ' };
        push_char(&mut s, shown);
        i = i + 1;
        assert(chars@.take(i as int) == chars@.take(i - 1).push(chars@[i - 1]));
        assert(displayable_in(chars@.take(i as int), menu_font) == displayable_in(chars@.take(i - 1), menu_font).push(shown));
    }
    assert(chars@.take(chars@.len() as int) == chars@);
    s
}

/// `text` as the overlay font shows it; a single space when `text` is empty.
pub fn sanitize_text(text: &str) -> (s: String)
    ensures
        s@ == if text@.len() == 0 { " "@ } else { displayable(text@) },
{
    sanitize_with(text, " ", false)
}

} // verus!
