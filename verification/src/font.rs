//! The font style category: fully inherited from the parent, with
//! per-attribute overrides and guarded parses.

use vstd::prelude::*;
use crate::color::{Color, parse_color, parse_color_spec, spec_rgb};
use crate::fixed::{Fixed, parse_fixed, parse_fixed_spec};
use crate::node::{attr_text, Attribute, NodeView};
use crate::numbers::{parse_uint_spec, parse_usize};
use crate::text::{chars_of, chars_eq_str, str_eq};

verus! {

#[derive(Clone, Copy, PartialEq, Eq, Structural, Debug)]
pub enum TextAlign {
    Center,
    End,
    Justify,
    Left,
    Right,
    Start,
}

impl Default for TextAlign {
    fn default() -> (r: TextAlign)
        ensures
            r == TextAlign::Left,
    {
        TextAlign::Left
    }
}

/// The emphasis of a font: regular, slanted, heavy, or both.
#[derive(Clone, Copy, PartialEq, Eq, Structural, Debug)]
pub enum FontEmphasis {
    Normal,
    Italic,
    Bold,
    BoldItalic,
}

pub open spec fn parse_text_align_spec(s: Seq<char>) -> TextAlign {
    if s == "center"@ {
        TextAlign::Center
    } else if s == "end"@ {
        TextAlign::End
    } else if s == "justify"@ {
        TextAlign::Justify
    } else if s == "left"@ {
        TextAlign::Left
    } else if s == "right"@ {
        TextAlign::Right
    } else if s == "start"@ {
        TextAlign::Start
    } else {
        TextAlign::Left
    }
}

/// Reads a text alignment; anything unrecognized is left.
pub fn parse_text_align(align: &str) -> (r: TextAlign)
    ensures
        r == parse_text_align_spec(align@),
{
    let cs = chars_of(align);
    if chars_eq_str(&cs, "center") {
        TextAlign::Center
    } else if chars_eq_str(&cs, "end") {
        TextAlign::End
    } else if chars_eq_str(&cs, "justify") {
        TextAlign::Justify
    } else if chars_eq_str(&cs, "left") {
        TextAlign::Left
    } else if chars_eq_str(&cs, "right") {
        TextAlign::Right
    } else if chars_eq_str(&cs, "start") {
        TextAlign::Start
    } else {
        TextAlign::Left
    }
}

pub open spec fn parse_font_style_spec(s: Seq<char>) -> FontEmphasis {
    if s == "italic"@ {
        FontEmphasis::Italic
    } else if s == "bold"@ {
        FontEmphasis::Bold
    } else if s == "bold-italic"@ {
        FontEmphasis::BoldItalic
    } else {
        FontEmphasis::Normal
    }
}

/// Reads a font emphasis; anything unrecognized is normal.
pub fn parse_font_style(style: &str) -> (r: FontEmphasis)
    ensures
        r == parse_font_style_spec(style@),
{
    let cs = chars_of(style);
    if chars_eq_str(&cs, "italic") {
        FontEmphasis::Italic
    } else if chars_eq_str(&cs, "bold") {
        FontEmphasis::Bold
    } else if chars_eq_str(&cs, "bold-italic") {
        FontEmphasis::BoldItalic
    } else {
        FontEmphasis::Normal
    }
}

/// The resolved font style of one node.
#[derive(Clone, Debug)]
pub struct FontStyle {
    pub color: Color,
    pub font_family: String,
    pub font_size: Fixed,
    pub line_height: Fixed,
    pub align: TextAlign,
    pub max_lines: Option<usize>,
    pub font_style: FontEmphasis,
}

#[verifier::ext_equal]
pub struct FontStyleV {
    pub color: Color,
    pub font_family: Seq<char>,
    pub font_size: Fixed,
    pub line_height: Fixed,
    pub align: TextAlign,
    pub max_lines: Option<usize>,
    pub font_style: FontEmphasis,
}

impl View for FontStyle {
    type V = FontStyleV;

    open spec fn view(&self) -> FontStyleV {
        FontStyleV {
            color: self.color,
            font_family: self.font_family@,
            font_size: self.font_size,
            line_height: self.line_height,
            align: self.align,
            max_lines: self.max_lines,
            font_style: self.font_style,
        }
    }
}

/// The type default: white sans text of size sixteen.
pub open spec fn font_default() -> FontStyleV {
    FontStyleV {
        color: spec_rgb(255, 255, 255),
        font_family: "Fira Sans"@,
        font_size: Fixed { micros: 16000000 },
        line_height: Fixed { micros: 1200000 },
        align: TextAlign::Left,
        max_lines: None,
        font_style: FontEmphasis::Normal,
    }
}

impl Default for FontStyle {
    fn default() -> (r: FontStyle)
        ensures
            r@ == font_default(),
    {
        let r = FontStyle {
            color: Color::white(),
            font_family: "Fira Sans".to_owned(),
            font_size: Fixed { micros: 16000000 },
            line_height: Fixed { micros: 1200000 },
            align: TextAlign::Left,
            max_lines: None,
            font_style: FontEmphasis::Normal,
        };
        proof {
            assert(r@ =~= font_default());
        }
        r
    }
}

/// How one raw attribute changes the resolved font style; a malformed or
/// non-textual value leaves its field alone.
pub open spec fn apply_font_attr(f: FontStyleV, a: Attribute) -> FontStyleV {
    let n = a.name@;
    match attr_text(a.value) {
        None => f,
        Some(s) => if n == "color"@ {
            match parse_color_spec(s) {
                Some(c) => FontStyleV { color: c, ..f },
                None => f,
            }
        } else if n == "font_family"@ {
            FontStyleV { font_family: s, ..f }
        } else if n == "font_size"@ {
            match parse_fixed_spec(s) {
                Some(x) => FontStyleV { font_size: x, ..f },
                None => f,
            }
        } else if n == "line_height"@ {
            match parse_fixed_spec(s) {
                Some(x) => FontStyleV { line_height: x, ..f },
                None => f,
            }
        } else if n == "align"@ {
            FontStyleV { align: parse_text_align_spec(s), ..f }
        } else if n == "max_lines"@ {
            match parse_uint_spec(s, usize::MAX as int) {
                Some(v) => FontStyleV { max_lines: Some(v as usize), ..f },
                None => f,
            }
        } else if n == "font_style"@ {
            FontStyleV { font_style: parse_font_style_spec(s), ..f }
        } else {
            f
        },
    }
}

/// The node's attributes layered, in order, over the inherited style.
pub open spec fn resolve_font(attrs: Seq<Attribute>, f: FontStyleV) -> FontStyleV
    decreases attrs.len(),
{
    if attrs.len() == 0 {
        f
    } else {
        resolve_font(attrs.drop_first(), apply_font_attr(f, attrs[0]))
    }
}

/// Law: a node with no attributes resolves to exactly its parent's style.
pub proof fn lemma_font_full_inheritance(p: FontStyleV)
    ensures
        resolve_font(Seq::empty(), p) == p,
{
}

fn font_eq(a: &FontStyle, b: &FontStyle) -> (r: bool)
    ensures
        r == (a@ == b@),
{
    let same = a.color == b.color && str_eq(a.font_family.as_str(), b.font_family.as_str())
        && a.font_size == b.font_size && a.line_height == b.line_height && a.align == b.align && (
    match (a.max_lines, b.max_lines) {
        (Option::None, Option::None) => true,
        (Option::Some(x), Option::Some(y)) => x == y,
        _ => false,
    }) && a.font_style == b.font_style;
    proof {
        if same {
            assert(a@ =~= b@);
        }
    }
    same
}

impl FontStyle {
    /// Resolves this node's font style from its raw attributes over the
    /// parent's resolved style (or the type default at the root), and says
    /// whether the resolved record differs from the previous one.
    pub fn reduce(&mut self, node: &NodeView, parent: Option<&FontStyle>) -> (changed: bool)
        ensures
            final(self)@ == resolve_font(
                node.attributes@,
                match parent {
                    Some(p) => p@,
                    None => font_default(),
                },
            ),
            changed == (final(self)@ != old(self)@),
    {
        let mut cur = match parent {
            Some(p) => FontStyle {
                color: p.color,
                font_family: p.font_family.clone(),
                font_size: p.font_size,
                line_height: p.line_height,
                align: p.align,
                max_lines: p.max_lines,
                font_style: p.font_style,
            },
            None => FontStyle::default(),
        };
        let ghost base = cur@;
        proof {
            match parent {
                Some(p) => {
                    assert(cur@ =~= p@);
                },
                None => {
                },
            }
            assert(node.attributes@.skip(0) =~= node.attributes@);
        }
        let attrs = &node.attributes;
        let mut i: usize = 0;
        while i < attrs.len()
            invariant
                i <= attrs@.len(),
                attrs@ == node.attributes@,
                resolve_font(node.attributes@, base) == resolve_font(attrs@.skip(i as int), cur@),
            decreases attrs@.len() - i,
        {
            proof {
                assert(attrs@.skip(i as int).len() > 0);
                assert(attrs@.skip(i as int)[0] == attrs@[i as int]);
                assert(attrs@.skip(i as int).drop_first() =~= attrs@.skip(i + 1 as int));
            }
            let a = &attrs[i];
            let ghost before = cur@;
            match a.value.as_text() {
                Option::None => {
                },
                Option::Some(t) => {
                    if str_eq(a.name.as_str(), "color") {
                        match parse_color(t.as_str()) {
                            Option::Some(c) => {
                                cur.color = c;
                            },
                            Option::None => {
                            },
                        }
                    } else if str_eq(a.name.as_str(), "font_family") {
                        cur.font_family = t.clone();
                    } else if str_eq(a.name.as_str(), "font_size") {
                        let cs = chars_of(t.as_str());
                        match parse_fixed(&cs) {
                            Option::Some(x) => {
                                cur.font_size = x;
                            },
                            Option::None => {
                            },
                        }
                    } else if str_eq(a.name.as_str(), "line_height") {
                        let cs = chars_of(t.as_str());
                        match parse_fixed(&cs) {
                            Option::Some(x) => {
                                cur.line_height = x;
                            },
                            Option::None => {
                            },
                        }
                    } else if str_eq(a.name.as_str(), "align") {
                        cur.align = parse_text_align(t.as_str());
                    } else if str_eq(a.name.as_str(), "max_lines") {
                        let cs = chars_of(t.as_str());
                        match parse_usize(&cs) {
                            Option::Some(v) => {
                                cur.max_lines = Some(v);
                            },
                            Option::None => {
                            },
                        }
                    } else if str_eq(a.name.as_str(), "font_style") {
                        cur.font_style = parse_font_style(t.as_str());
                    }
                },
            }
            proof {
                assert(cur@ =~= apply_font_attr(before, attrs@[i as int]));
            }
            i = i + 1;
        }
        proof {
            assert(attrs@.skip(attrs@.len() as int) =~= Seq::<Attribute>::empty());
        }
        let changed = !font_eq(&cur, self);
        *self = cur;
        changed
    }
}

} // verus!
