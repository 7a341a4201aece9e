//! Colors and the color attribute grammar: a fixed table of names, with a
//! fallback to the literal `rgb(r, g, b)` form.

use vstd::prelude::*;
use crate::numbers::parse_uint_spec;
use crate::text::{
    chars_of, chars_eq_str, find_at, first_at, remove_char, remove_sub, sans_char, sans_sub,
    subvec, trim, trimmed,
};

verus! {

/// A 32-bit ARGB color.
#[derive(Clone, Copy, PartialEq, Eq, Structural, Debug, Hash)]
pub struct Color {
    pub a: u8,
    pub r: u8,
    pub g: u8,
    pub b: u8,
}

pub open spec fn spec_rgb(r: u8, g: u8, b: u8) -> Color {
    Color { a: 255, r, g, b }
}

impl Color {
    /// An opaque color from its three channels.
    pub fn from_rgb(r: u8, g: u8, b: u8) -> (c: Color)
        ensures
            c == spec_rgb(r, g, b),
    {
        Color { a: 255, r, g, b }
    }

    pub open spec fn spec_transparent() -> Color {
        Color { a: 0, r: 0, g: 0, b: 0 }
    }

    pub fn transparent() -> (c: Color)
        ensures
            c == Color::spec_transparent(),
    {
        Color { a: 0, r: 0, g: 0, b: 0 }
    }

    pub fn white() -> (c: Color)
        ensures
            c == spec_rgb(255, 255, 255),
    {
        Color { a: 255, r: 255, g: 255, b: 255 }
    }

    pub fn black() -> (c: Color)
        ensures
            c == spec_rgb(0, 0, 0),
    {
        Color { a: 255, r: 0, g: 0, b: 0 }
    }
}

/// The fixed table of color names.
pub open spec fn named_color(s: Seq<char>) -> Option<Color> {
    if s == "red"@ {
        Some(spec_rgb(255, 0, 0))
    } else if s == "green"@ {
        Some(spec_rgb(0, 255, 0))
    } else if s == "blue"@ {
        Some(spec_rgb(0, 0, 255))
    } else if s == "yellow"@ {
        Some(spec_rgb(255, 255, 0))
    } else if s == "black"@ {
        Some(spec_rgb(0, 0, 0))
    } else if s == "gray"@ {
        Some(spec_rgb(128, 128, 128))
    } else if s == "white"@ {
        Some(spec_rgb(255, 255, 255))
    } else {
        None
    }
}

/// One `rgb(...)` component: trimmed, then read as a byte.
pub open spec fn rgb_component(s: Seq<char>) -> Option<int> {
    parse_uint_spec(trimmed(s), 255)
}

/// What `parse_rgb` yields: the literal `rgb(R, G, B)` form, tolerating
/// whitespace around the components; everything after a third comma is
/// ignored.
pub open spec fn parse_rgb_spec(s: Seq<char>) -> Option<Color> {
    let t = sans_char(sans_sub(s, "rgb("@), ')');
    let i1 = first_at(t, ',');
    if i1 < 0 {
        None
    } else {
        let rest1 = t.skip(i1 + 1);
        let i2 = first_at(rest1, ',');
        if i2 < 0 {
            None
        } else {
            let rest2 = rest1.skip(i2 + 1);
            let i3 = first_at(rest2, ',');
            let seg3 = if i3 < 0 {
                rest2
            } else {
                rest2.take(i3)
            };
            match (rgb_component(t.take(i1)), rgb_component(rest1.take(i2)), rgb_component(seg3)) {
                (Some(r), Some(g), Some(b)) => Some(spec_rgb(r as u8, g as u8, b as u8)),
                _ => None,
            }
        }
    }
}

/// What `parse_color` yields: a named color, else the `rgb(...)` form.
pub open spec fn parse_color_spec(s: Seq<char>) -> Option<Color> {
    match named_color(s) {
        Some(c) => Some(c),
        None => parse_rgb_spec(s),
    }
}

fn rgb_component_exec(v: &Vec<char>) -> (r: Option<u8>)
    ensures
        match rgb_component(v@) {
            Some(x) => r == Some(x as u8),
            None => r is None,
        },
{
    let t = trim(v);
    crate::numbers::parse_u8(&t)
}

/// Reads the literal `rgb(R, G, B)` color form.
pub fn parse_rgb(color: &str) -> (res: Option<Color>)
    ensures
        res == parse_rgb_spec(color@),
{
    let cs = chars_of(color);
    let pat = chars_of("rgb(");
    proof {
        reveal_strlit("rgb(");
        assert(pat@.len() == 4);
    }
    let t = remove_char(&remove_sub(&cs, &pat), ')');
    let tn = t.len();
    let i1 = match find_at(&t, ',') {
        Some(i) => i,
        None => {
            return None;
        },
    };
    let rest1 = subvec(&t, i1 + 1, tn);
    proof {
        assert(rest1@ =~= t@.skip(i1 + 1));
    }
    let r1n = rest1.len();
    let i2 = match find_at(&rest1, ',') {
        Some(i) => i,
        None => {
            return None;
        },
    };
    let rest2 = subvec(&rest1, i2 + 1, r1n);
    proof {
        assert(rest2@ =~= rest1@.skip(i2 + 1));
    }
    let seg3 = match find_at(&rest2, ',') {
        Some(i3) => subvec(&rest2, 0, i3),
        None => subvec(&rest2, 0, rest2.len()),
    };
    proof {
        assert(seg3@ =~= (if first_at(rest2@, ',') < 0 {
            rest2@
        } else {
            rest2@.take(first_at(rest2@, ','))
        }));
    }
    let seg1 = subvec(&t, 0, i1);
    let seg2 = subvec(&rest1, 0, i2);
    proof {
        assert(seg1@ =~= t@.take(i1 as int));
        assert(seg2@ =~= rest1@.take(i2 as int));
    }
    let r = match rgb_component_exec(&seg1) {
        Some(x) => x,
        None => {
            return None;
        },
    };
    let g = match rgb_component_exec(&seg2) {
        Some(x) => x,
        None => {
            return None;
        },
    };
    let b = match rgb_component_exec(&seg3) {
        Some(x) => x,
        None => {
            return None;
        },
    };
    Some(Color::from_rgb(r, g, b))
}

/// Reads a color: one of the fixed names, else the `rgb(...)` form.
pub fn parse_color(color: &str) -> (res: Option<Color>)
    ensures
        res == parse_color_spec(color@),
{
    let cs = chars_of(color);
    if chars_eq_str(&cs, "red") {
        Some(Color::from_rgb(255, 0, 0))
    } else if chars_eq_str(&cs, "green") {
        Some(Color::from_rgb(0, 255, 0))
    } else if chars_eq_str(&cs, "blue") {
        Some(Color::from_rgb(0, 0, 255))
    } else if chars_eq_str(&cs, "yellow") {
        Some(Color::from_rgb(255, 255, 0))
    } else if chars_eq_str(&cs, "black") {
        Some(Color::from_rgb(0, 0, 0))
    } else if chars_eq_str(&cs, "gray") {
        Some(Color::from_rgb(128, 128, 128))
    } else if chars_eq_str(&cs, "white") {
        Some(Color::from_rgb(255, 255, 255))
    } else {
        parse_rgb(color)
    }
}

} // verus!
