//! The paint style category: background, paint layer, shadow, corner
//! radius, raster and vector payloads, and display mode. It reads only the
//! node's own attributes. The published change flag deliberately ignores the
//! vector payload and the display mode.

use vstd::prelude::*;
use crate::color::{Color, parse_color, parse_color_spec};
use crate::fixed::{Fixed, parse_fixed, parse_fixed_spec};
use crate::node::{attr_text, Attribute, AttrValue, NodeView};
use crate::numbers::{parse_i16, parse_int_spec, parse_uint_spec, parse_u8};
use crate::text::{chars_of, chars_eq_str, chars_to_string, str_eq, tokenize, tokens, views_of};
use vstd::utf8::encode_utf8;
use vstd::string::{StrSliceExecFns, StringSliceAdditionalSpecFns};

verus! {

fn dup_bytes(v: &Vec<u8>) -> (r: Vec<u8>)
    ensures
        r@ == v@,
{
    let mut r: Vec<u8> = Vec::new();
    let mut i: usize = 0;
    while i < v.len()
        invariant
            i <= v@.len(),
            r@ == v@.subrange(0, i as int),
        decreases v@.len() - i,
    {
        r.push(v[i]);
        proof {
            assert(r@ =~= v@.subrange(0, i + 1 as int));
        }
        i = i + 1;
    }
    proof {
        assert(r@ =~= v@);
    }
    r
}

/// A drop shadow: offsets, intensity, blur size and color. All five tokens
/// must parse or the whole attribute is ignored.
#[derive(Clone, Copy, PartialEq, Eq, Structural, Debug)]
pub struct ShadowSettings {
    pub x: Fixed,
    pub y: Fixed,
    pub intensity: u8,
    pub size: Fixed,
    pub color: Color,
}

impl Default for ShadowSettings {
    fn default() -> (r: ShadowSettings)
        ensures
            r == shadow_default(),
    {
        ShadowSettings {
            x: Fixed { micros: 0 },
            y: Fixed { micros: 0 },
            intensity: 0,
            size: Fixed { micros: 0 },
            color: Color::transparent(),
        }
    }
}

pub open spec fn shadow_default() -> ShadowSettings {
    ShadowSettings {
        x: Fixed { micros: 0 },
        y: Fixed { micros: 0 },
        intensity: 0,
        size: Fixed { micros: 0 },
        color: Color::spec_transparent(),
    }
}

#[derive(Clone, Copy, PartialEq, Eq, Structural, Debug)]
pub enum DisplayMode {
    Normal,
    Center,
}

impl Default for DisplayMode {
    fn default() -> (r: DisplayMode)
        ensures
            r == DisplayMode::Normal,
    {
        DisplayMode::Normal
    }
}

pub open spec fn parse_display_spec(s: Seq<char>) -> DisplayMode {
    if s == "center"@ {
        DisplayMode::Center
    } else {
        DisplayMode::Normal
    }
}

/// Reads a display mode; anything but `center` is normal.
pub fn parse_display(value: &str) -> (r: DisplayMode)
    ensures
        r == parse_display_spec(value@),
{
    let cs = chars_of(value);
    if chars_eq_str(&cs, "center") {
        DisplayMode::Center
    } else {
        DisplayMode::Normal
    }
}

/// What `parse_shadow` yields: five whitespace-separated tokens in order —
/// x, y, intensity, size, color; extra tokens are ignored.
pub open spec fn parse_shadow_spec(s: Seq<char>) -> Option<ShadowSettings> {
    let ts = tokens(s);
    if ts.len() < 5 {
        None
    } else {
        match (
            parse_fixed_spec(ts[0]),
            parse_fixed_spec(ts[1]),
            parse_uint_spec(ts[2], 255),
            parse_fixed_spec(ts[3]),
            parse_color_spec(ts[4]),
        ) {
            (Some(x), Some(y), Some(i), Some(sz), Some(c)) => Some(
                ShadowSettings { x, y, intensity: i as u8, size: sz, color: c },
            ),
            _ => None,
        }
    }
}

/// Reads a drop shadow: `x y intensity size color`.
pub fn parse_shadow(value: &str) -> (r: Option<ShadowSettings>)
    ensures
        r == parse_shadow_spec(value@),
{
    let cs = chars_of(value);
    let toks = tokenize(&cs);
    if toks.len() < 5 {
        return None;
    }
    proof {
        assert(views_of(toks@)[0] == toks@[0]@);
        assert(views_of(toks@)[1] == toks@[1]@);
        assert(views_of(toks@)[2] == toks@[2]@);
        assert(views_of(toks@)[3] == toks@[3]@);
        assert(views_of(toks@)[4] == toks@[4]@);
    }
    let x = match parse_fixed(&toks[0]) {
        Option::Some(v) => v,
        Option::None => {
            return None;
        },
    };
    let y = match parse_fixed(&toks[1]) {
        Option::Some(v) => v,
        Option::None => {
            return None;
        },
    };
    let intensity = match parse_u8(&toks[2]) {
        Option::Some(v) => v,
        Option::None => {
            return None;
        },
    };
    let size = match parse_fixed(&toks[3]) {
        Option::Some(v) => v,
        Option::None => {
            return None;
        },
    };
    let color_text = chars_to_string(&toks[4]);
    let color = match parse_color(color_text.as_str()) {
        Option::Some(c) => c,
        Option::None => {
            return None;
        },
    };
    Some(ShadowSettings { x, y, intensity, size, color })
}

/// The resolved paint style of one node.
#[derive(Clone, Debug)]
pub struct Style {
    pub background: Color,
    pub relative_layer: i16,
    pub shadow: ShadowSettings,
    pub radius: Fixed,
    pub image_data: Option<Vec<u8>>,
    pub svg_data: Option<Vec<u8>>,
    pub display: DisplayMode,
}

#[verifier::ext_equal]
pub struct StyleV {
    pub background: Color,
    pub relative_layer: i16,
    pub shadow: ShadowSettings,
    pub radius: Fixed,
    pub image_data: Option<Seq<u8>>,
    pub svg_data: Option<Seq<u8>>,
    pub display: DisplayMode,
}

impl View for Style {
    type V = StyleV;

    open spec fn view(&self) -> StyleV {
        StyleV {
            background: self.background,
            relative_layer: self.relative_layer,
            shadow: self.shadow,
            radius: self.radius,
            image_data: match self.image_data {
                Some(ref v) => Some(v@),
                None => None,
            },
            svg_data: match self.svg_data {
                Some(ref v) => Some(v@),
                None => None,
            },
            display: self.display,
        }
    }
}

pub open spec fn style_default() -> StyleV {
    StyleV {
        background: Color::spec_transparent(),
        relative_layer: 0,
        shadow: shadow_default(),
        radius: Fixed { micros: 0 },
        image_data: None,
        svg_data: None,
        display: DisplayMode::Normal,
    }
}

impl Default for Style {
    fn default() -> (r: Style)
        ensures
            r@ == style_default(),
    {
        let r = Style {
            background: Color::transparent(),
            relative_layer: 0,
            shadow: ShadowSettings::default(),
            radius: Fixed { micros: 0 },
            image_data: None,
            svg_data: None,
            display: DisplayMode::Normal,
        };
        proof {
            assert(r@ =~= style_default());
        }
        r
    }
}

/// How one raw attribute changes the resolved style.
pub open spec fn apply_style_attr(st: StyleV, a: Attribute) -> StyleV {
    let n = a.name@;
    if n == "display"@ {
        match attr_text(a.value) {
            Some(s) => StyleV { display: parse_display_spec(s), ..st },
            None => st,
        }
    } else if n == "background"@ {
        match attr_text(a.value) {
            Some(s) => match parse_color_spec(s) {
                Some(c) => StyleV { background: c, ..st },
                None => st,
            },
            None => st,
        }
    } else if n == "layer"@ {
        match attr_text(a.value) {
            Some(s) => match parse_int_spec(s, i16::MIN as int, i16::MAX as int) {
                Some(v) => StyleV { relative_layer: v as i16, ..st },
                None => st,
            },
            None => st,
        }
    } else if n == "shadow"@ {
        match attr_text(a.value) {
            Some(s) => match parse_shadow_spec(s) {
                Some(sh) => StyleV { shadow: sh, ..st },
                None => st,
            },
            None => st,
        }
    } else if n == "radius"@ {
        match attr_text(a.value) {
            Some(s) => match parse_fixed_spec(s) {
                Some(v) => StyleV { radius: v, ..st },
                None => st,
            },
            None => st,
        }
    } else if n == "image_data"@ {
        match a.value {
            AttrValue::Bytes(b) => StyleV { image_data: Some(b@), ..st },
            _ => StyleV { image_data: None, ..st },
        }
    } else if n == "svg_data"@ {
        match a.value {
            AttrValue::Bytes(b) => StyleV { svg_data: Some(b@), ..st },
            _ => StyleV { svg_data: None, ..st },
        }
    } else if n == "svg_content"@ {
        match a.value {
            AttrValue::Text(t) => StyleV { svg_data: Some(encode_utf8(t@)), ..st },
            _ => StyleV { svg_data: None, ..st },
        }
    } else {
        st
    }
}

pub open spec fn resolve_style(attrs: Seq<Attribute>, st: StyleV) -> StyleV
    decreases attrs.len(),
{
    if attrs.len() == 0 {
        st
    } else {
        resolve_style(attrs.drop_first(), apply_style_attr(st, attrs[0]))
    }
}

/// The comparison behind the published change flag: every field except the
/// vector payload and the display mode. This asymmetry is deliberate.
pub open spec fn style_like(a: StyleV, b: StyleV) -> bool {
    a.background == b.background && a.relative_layer == b.relative_layer && a.shadow == b.shadow
        && a.radius == b.radius && a.image_data == b.image_data
}

fn bytes_eq(a: &Vec<u8>, b: &Vec<u8>) -> (r: bool)
    ensures
        r == (a@ == b@),
{
    if a.len() != b.len() {
        return false;
    }
    let mut i: usize = 0;
    while i < a.len()
        invariant
            i <= a.len(),
            a.len() == b.len(),
            forall|k: int| 0 <= k < i ==> a@[k] == b@[k],
        decreases a.len() - i,
    {
        if a[i] != b[i] {
            return false;
        }
        i = i + 1;
    }
    proof {
        assert(a@ =~= b@);
    }
    true
}

fn bytes_opt_eq(a: &Option<Vec<u8>>, b: &Option<Vec<u8>>) -> (r: bool)
    ensures
        r == (match (a, b) {
            (Some(x), Some(y)) => x@ == y@,
            (None, None) => true,
            _ => false,
        }),
{
    match (a, b) {
        (Option::Some(x), Option::Some(y)) => bytes_eq(x, y),
        (Option::None, Option::None) => true,
        _ => false,
    }
}

impl Style {
    /// Resolves this node's paint style from its raw attributes alone, and
    /// reports whether the comparison fields changed.
    pub fn reduce(&mut self, node: &NodeView) -> (changed: bool)
        ensures
            final(self)@ == resolve_style(node.attributes@, style_default()),
            changed == !style_like(final(self)@, old(self)@),
    {
        let mut cur = Style::default();
        proof {
            assert(node.attributes@.skip(0) =~= node.attributes@);
        }
        let attrs = &node.attributes;
        let mut i: usize = 0;
        while i < attrs.len()
            invariant
                i <= attrs@.len(),
                attrs@ == node.attributes@,
                resolve_style(node.attributes@, style_default()) == resolve_style(
                    attrs@.skip(i as int),
                    cur@,
                ),
            decreases attrs@.len() - i,
        {
            proof {
                assert(attrs@.skip(i as int).len() > 0);
                assert(attrs@.skip(i as int)[0] == attrs@[i as int]);
                assert(attrs@.skip(i as int).drop_first() =~= attrs@.skip(i + 1 as int));
            }
            let a = &attrs[i];
            let ghost before = cur@;
            if str_eq(a.name.as_str(), "display") {
                match a.value.as_text() {
                    Option::Some(t) => {
                        cur.display = parse_display(t.as_str());
                    },
                    Option::None => {
                    },
                }
            } else if str_eq(a.name.as_str(), "background") {
                match a.value.as_text() {
                    Option::Some(t) => {
                        match parse_color(t.as_str()) {
                            Option::Some(c) => {
                                cur.background = c;
                            },
                            Option::None => {
                            },
                        }
                    },
                    Option::None => {
                    },
                }
            } else if str_eq(a.name.as_str(), "layer") {
                match a.value.as_text() {
                    Option::Some(t) => {
                        let cs = chars_of(t.as_str());
                        match parse_i16(&cs) {
                            Option::Some(v) => {
                                cur.relative_layer = v;
                            },
                            Option::None => {
                            },
                        }
                    },
                    Option::None => {
                    },
                }
            } else if str_eq(a.name.as_str(), "shadow") {
                match a.value.as_text() {
                    Option::Some(t) => {
                        match parse_shadow(t.as_str()) {
                            Option::Some(sh) => {
                                cur.shadow = sh;
                            },
                            Option::None => {
                            },
                        }
                    },
                    Option::None => {
                    },
                }
            } else if str_eq(a.name.as_str(), "radius") {
                match a.value.as_text() {
                    Option::Some(t) => {
                        let cs = chars_of(t.as_str());
                        match parse_fixed(&cs) {
                            Option::Some(v) => {
                                cur.radius = v;
                            },
                            Option::None => {
                            },
                        }
                    },
                    Option::None => {
                    },
                }
            } else if str_eq(a.name.as_str(), "image_data") {
                match &a.value {
                    AttrValue::Bytes(b) => {
                        cur.image_data = Some(dup_bytes(b));
                    },
                    _ => {
                        cur.image_data = None;
                    },
                }
            } else if str_eq(a.name.as_str(), "svg_data") {
                match &a.value {
                    AttrValue::Bytes(b) => {
                        cur.svg_data = Some(dup_bytes(b));
                    },
                    _ => {
                        cur.svg_data = None;
                    },
                }
            } else if str_eq(a.name.as_str(), "svg_content") {
                match &a.value {
                    AttrValue::Text(t) => {
                        cur.svg_data = Some(t.as_str().as_bytes_vec());
                    },
                    _ => {
                        cur.svg_data = None;
                    },
                }
            }
            proof {
                assert(cur@ =~= apply_style_attr(before, attrs@[i as int]));
            }
            i = i + 1;
        }
        proof {
            assert(attrs@.skip(attrs@.len() as int) =~= Seq::<Attribute>::empty());
        }
        let changed = !(cur.background == self.background && cur.relative_layer
            == self.relative_layer && cur.shadow == self.shadow && cur.radius == self.radius
            && bytes_opt_eq(&cur.image_data, &self.image_data));
        *self = cur;
        changed
    }
}

} // verus!
