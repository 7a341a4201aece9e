//! The cursor category: caret position, color, mode and owning region,
//! inherited from the parent with per-attribute overrides. The caret
//! position is only ever set by a node's own `cursor_index`; the literal
//! `none` leaves the inherited position in place.

use vstd::prelude::*;
use crate::color::{Color, parse_color, parse_color_spec, spec_rgb};
use crate::node::{attr_text, Attribute, NodeView, StateError};
use crate::numbers::{parse_i32, parse_int_spec, parse_uint_spec, parse_usize};
use crate::text::{chars_of, chars_eq_str, str_eq};

verus! {

#[derive(Clone, Copy, PartialEq, Eq, Structural, Debug)]
pub enum CursorMode {
    Unset,
    Editable,
}

pub open spec fn parse_cursor_spec(s: Seq<char>) -> CursorMode {
    if s == "editable"@ {
        CursorMode::Editable
    } else {
        CursorMode::Unset
    }
}

/// Reads a cursor mode; anything but `editable` leaves the cursor unset.
pub fn parse_cursor(cursor: &str) -> (r: CursorMode)
    ensures
        r == parse_cursor_spec(cursor@),
{
    let cs = chars_of(cursor);
    if chars_eq_str(&cs, "editable") {
        CursorMode::Editable
    } else {
        CursorMode::Unset
    }
}

/// The resolved cursor state of one node.
#[derive(Clone, Copy, PartialEq, Eq, Structural, Debug)]
pub struct CursorSettings {
    pub position: Option<i32>,
    pub color: Color,
    pub mode: CursorMode,
    pub id: Option<usize>,
}

impl Default for CursorSettings {
    fn default() -> (r: CursorSettings)
        ensures
            r == cursor_default(),
    {
        CursorSettings { position: None, color: Color::white(), mode: CursorMode::Unset, id: None }
    }
}

pub open spec fn cursor_default() -> CursorSettings {
    CursorSettings {
        position: None,
        color: spec_rgb(255, 255, 255),
        mode: CursorMode::Unset,
        id: None,
    }
}

/// A `cursor_index` value must be text reading `none` or an integer; this is
/// the one cursor attribute whose failure fails the whole reduction.
pub open spec fn cursor_index_ok(a: Attribute) -> bool {
    a.name@ == "cursor_index"@ ==> match attr_text(a.value) {
        Some(s) => s == "none"@ || parse_int_spec(s, i32::MIN as int, i32::MAX as int) is Some,
        None => false,
    }
}

pub open spec fn cursor_attrs_ok(attrs: Seq<Attribute>) -> bool {
    forall|i: int| 0 <= i < attrs.len() ==> cursor_index_ok(#[trigger] attrs[i])
}

/// How one raw attribute changes the resolved cursor state.
pub open spec fn apply_cursor_attr(c: CursorSettings, a: Attribute) -> CursorSettings {
    let n = a.name@;
    if n == "cursor_index"@ {
        match attr_text(a.value) {
            Some(s) => if s == "none"@ {
                c
            } else {
                match parse_int_spec(s, i32::MIN as int, i32::MAX as int) {
                    Some(v) => CursorSettings { position: Some(v as i32), ..c },
                    None => c,
                }
            },
            None => c,
        }
    } else if n == "cursor_color"@ {
        match attr_text(a.value) {
            Some(s) => match parse_color_spec(s) {
                Some(col) => CursorSettings { color: col, ..c },
                None => c,
            },
            None => c,
        }
    } else if n == "cursor_mode"@ {
        match attr_text(a.value) {
            Some(s) => CursorSettings { mode: parse_cursor_spec(s), ..c },
            None => c,
        }
    } else if n == "cursor_id"@ {
        match attr_text(a.value) {
            Some(s) => match parse_uint_spec(s, usize::MAX as int) {
                Some(v) => CursorSettings { id: Some(v as usize), ..c },
                None => c,
            },
            None => c,
        }
    } else {
        c
    }
}

pub open spec fn resolve_cursor(attrs: Seq<Attribute>, c: CursorSettings) -> CursorSettings
    decreases attrs.len(),
{
    if attrs.len() == 0 {
        c
    } else {
        resolve_cursor(attrs.drop_first(), apply_cursor_attr(c, attrs[0]))
    }
}

/// The resolved caret position depends on the inherited state only through
/// the inherited position.
proof fn lemma_cursor_position_depends_on_base_position(
    attrs: Seq<Attribute>,
    b1: CursorSettings,
    b2: CursorSettings,
)
    requires
        b1.position == b2.position,
    ensures
        resolve_cursor(attrs, b1).position == resolve_cursor(attrs, b2).position,
    decreases attrs.len(),
{
    if attrs.len() > 0 {
        lemma_cursor_position_depends_on_base_position(
            attrs.drop_first(),
            apply_cursor_attr(b1, attrs[0]),
            apply_cursor_attr(b2, attrs[0]),
        );
    }
}

/// Whether an attribute sets the caret position.
pub open spec fn sets_position(a: Attribute) -> bool {
    a.name@ == "cursor_index"@ && match attr_text(a.value) {
        Some(s) => s != "none"@ && parse_int_spec(s, i32::MIN as int, i32::MAX as int) is Some,
        None => false,
    }
}

/// Law: when no attribute sets the caret position — `cursor_index` absent or
/// reading `none` — the inherited position persists unchanged.
pub proof fn lemma_cursor_position_inherited(attrs: Seq<Attribute>, base: CursorSettings)
    requires
        forall|i: int| 0 <= i < attrs.len() ==> !sets_position(#[trigger] attrs[i]),
    ensures
        resolve_cursor(attrs, base).position == base.position,
    decreases attrs.len(),
{
    if attrs.len() > 0 {
        assert(!sets_position(attrs[0]));
        assert(forall|i: int|
            0 <= i < attrs.drop_first().len() ==> #[trigger] attrs.drop_first()[i] == attrs[i + 1]);
        lemma_cursor_position_inherited(attrs.drop_first(), apply_cursor_attr(base, attrs[0]));
        assert(apply_cursor_attr(base, attrs[0]).position == base.position);
    }
}

/// Law: when some attribute sets the caret position, the resolved position
/// does not depend on the parent at all.
pub proof fn lemma_cursor_position_own(attrs: Seq<Attribute>, b1: CursorSettings, b2: CursorSettings)
    requires
        exists|i: int| 0 <= i < attrs.len() && sets_position(#[trigger] attrs[i]),
    ensures
        resolve_cursor(attrs, b1).position == resolve_cursor(attrs, b2).position,
    decreases attrs.len(),
{
    let i = choose|i: int| 0 <= i < attrs.len() && sets_position(#[trigger] attrs[i]);
    if i == 0 {
        assert(apply_cursor_attr(b1, attrs[0]).position == apply_cursor_attr(b2, attrs[0]).position);
        lemma_cursor_position_depends_on_base_position(
            attrs.drop_first(),
            apply_cursor_attr(b1, attrs[0]),
            apply_cursor_attr(b2, attrs[0]),
        );
    } else {
        assert(attrs.drop_first()[i - 1] == attrs[i]);
        assert(sets_position(attrs.drop_first()[i - 1]));
        lemma_cursor_position_own(
            attrs.drop_first(),
            apply_cursor_attr(b1, attrs[0]),
            apply_cursor_attr(b2, attrs[0]),
        );
    }
}

impl CursorSettings {
    /// Resolves this node's cursor state over the parent's (or the default
    /// at the root); requires every `cursor_index` value to be well formed,
    /// as a malformed one is a hard failure.
    pub fn reduce(&mut self, node: &NodeView, parent: Option<&CursorSettings>) -> (changed: bool)
        requires
            cursor_attrs_ok(node.attributes@),
        ensures
            *final(self) == resolve_cursor(
                node.attributes@,
                match parent {
                    Some(p) => *p,
                    None => cursor_default(),
                },
            ),
            changed == (*final(self) != *old(self)),
    {
        let mut cur = match parent {
            Some(p) => *p,
            None => CursorSettings::default(),
        };
        let ghost base = cur;
        proof {
            assert(node.attributes@.skip(0) =~= node.attributes@);
        }
        let attrs = &node.attributes;
        let mut i: usize = 0;
        while i < attrs.len()
            invariant
                i <= attrs@.len(),
                attrs@ == node.attributes@,
                resolve_cursor(node.attributes@, base) == resolve_cursor(
                    attrs@.skip(i as int),
                    cur,
                ),
            decreases attrs@.len() - i,
        {
            proof {
                assert(attrs@.skip(i as int).len() > 0);
                assert(attrs@.skip(i as int)[0] == attrs@[i as int]);
                assert(attrs@.skip(i as int).drop_first() =~= attrs@.skip(i + 1 as int));
            }
            let a = &attrs[i];
            let ghost before = cur;
            match a.value.as_text() {
                Option::None => {
                },
                Option::Some(t) => {
                    if str_eq(a.name.as_str(), "cursor_index") {
                        if !str_eq(t.as_str(), "none") {
                            let cs = chars_of(t.as_str());
                            match parse_i32(&cs) {
                                Option::Some(v) => {
                                    cur.position = Some(v);
                                },
                                Option::None => {
                                },
                            }
                        }
                    } else if str_eq(a.name.as_str(), "cursor_color") {
                        match parse_color(t.as_str()) {
                            Option::Some(c) => {
                                cur.color = c;
                            },
                            Option::None => {
                            },
                        }
                    } else if str_eq(a.name.as_str(), "cursor_mode") {
                        cur.mode = parse_cursor(t.as_str());
                    } else if str_eq(a.name.as_str(), "cursor_id") {
                        let cs = chars_of(t.as_str());
                        match parse_usize(&cs) {
                            Option::Some(v) => {
                                cur.id = Some(v);
                            },
                            Option::None => {
                            },
                        }
                    }
                },
            }
            proof {
                assert(cur == apply_cursor_attr(before, attrs@[i as int]));
            }
            i = i + 1;
        }
        proof {
            assert(attrs@.skip(attrs@.len() as int) =~= Seq::<Attribute>::empty());
        }
        let changed = !(cur == *self);
        *self = cur;
        changed
    }

    /// Like `reduce`, but checks every `cursor_index` value first and
    /// reports the hard failure instead of requiring its absence; on failure
    /// nothing is changed.
    pub fn checked_reduce(&mut self, node: &NodeView, parent: Option<&CursorSettings>) -> (r: Result<
        bool,
        StateError,
    >)
        ensures
            cursor_attrs_ok(node.attributes@) ==> r is Ok && *final(self) == resolve_cursor(
                node.attributes@,
                match parent {
                    Some(p) => *p,
                    None => cursor_default(),
                },
            ) && r->Ok_0 == (*final(self) != *old(self)),
            !cursor_attrs_ok(node.attributes@) ==> r == Err::<bool, StateError>(
                StateError::BadCursorIndex,
            ) && *final(self) == *old(self),
    {
        let attrs = &node.attributes;
        let mut i: usize = 0;
        while i < attrs.len()
            invariant
                i <= attrs@.len(),
                attrs@ == node.attributes@,
                forall|k: int| 0 <= k < i ==> cursor_index_ok(#[trigger] attrs@[k]),
            decreases attrs@.len() - i,
        {
            let a = &attrs[i];
            if str_eq(a.name.as_str(), "cursor_index") {
                match a.value.as_text() {
                    Option::None => {
                        proof {
                            assert(!cursor_index_ok(attrs@[i as int]));
                        }
                        return Err(StateError::BadCursorIndex);
                    },
                    Option::Some(t) => {
                        if !str_eq(t.as_str(), "none") {
                            let cs = chars_of(t.as_str());
                            match parse_i32(&cs) {
                                Option::Some(_) => {
                                },
                                Option::None => {
                                    proof {
                                        assert(!cursor_index_ok(attrs@[i as int]));
                                    }
                                    return Err(StateError::BadCursorIndex);
                                },
                            }
                        }
                    },
                }
            }
            i = i + 1;
        }
        Ok(self.reduce(node, parent))
    }
}

} // verus!
