//! The scroll category: two offsets read from the node's own attributes,
//! with unguarded numeric parses — a malformed offset is a hard failure.

use vstd::prelude::*;
use crate::fixed::{Fixed, parse_fixed, parse_fixed_spec};
use crate::node::{attr_text, Attribute, DirtyNodes, NodeView, StateError};
use crate::text::{chars_of, str_eq};

verus! {

/// The resolved scroll offsets of one node.
#[derive(Clone, Copy, PartialEq, Eq, Structural, Debug)]
pub struct Scroll {
    pub scroll_y: Fixed,
    pub scroll_x: Fixed,
    pub id: usize,
}

impl Default for Scroll {
    fn default() -> (r: Scroll)
        ensures
            r.scroll_x == Fixed::spec_zero(),
            r.scroll_y == Fixed::spec_zero(),
            r.id == 0,
    {
        Scroll { scroll_y: Fixed { micros: 0 }, scroll_x: Fixed { micros: 0 }, id: 0 }
    }
}

/// A scroll attribute's value must be text holding a number.
pub open spec fn scroll_attr_ok(a: Attribute) -> bool {
    (a.name@ == "scroll_x"@ || a.name@ == "scroll_y"@) ==> match attr_text(a.value) {
        Some(s) => parse_fixed_spec(s) is Some,
        None => false,
    }
}

pub open spec fn scroll_attrs_ok(attrs: Seq<Attribute>) -> bool {
    forall|i: int| 0 <= i < attrs.len() ==> scroll_attr_ok(#[trigger] attrs[i])
}

/// How one raw attribute changes the two offsets.
pub open spec fn apply_scroll_attr(st: (Fixed, Fixed), a: Attribute) -> (Fixed, Fixed) {
    match attr_text(a.value) {
        Some(s) => match parse_fixed_spec(s) {
            Some(v) => if a.name@ == "scroll_x"@ {
                (v, st.1)
            } else if a.name@ == "scroll_y"@ {
                (st.0, v)
            } else {
                st
            },
            None => st,
        },
        None => st,
    }
}

/// The offsets read from the attributes, starting from zero.
pub open spec fn resolve_scroll_from(attrs: Seq<Attribute>, st: (Fixed, Fixed)) -> (Fixed, Fixed)
    decreases attrs.len(),
{
    if attrs.len() == 0 {
        st
    } else {
        resolve_scroll_from(attrs.drop_first(), apply_scroll_attr(st, attrs[0]))
    }
}

pub open spec fn resolve_scroll(attrs: Seq<Attribute>) -> (Fixed, Fixed) {
    resolve_scroll_from(attrs, (Fixed { micros: 0 }, Fixed { micros: 0 }))
}

impl Scroll {
    /// Resolves this node's scroll offsets; requires every scroll value to
    /// parse, as a malformed one is a hard failure. Marks the node dirty in
    /// the shared sink exactly when an offset changed.
    pub fn reduce(
        &mut self,
        node: &NodeView,
        _parent: Option<&Scroll>,
        ctx: &mut DirtyNodes,
    ) -> (changed: bool)
        requires
            scroll_attrs_ok(node.attributes@),
        ensures
            final(self).scroll_x == resolve_scroll(node.attributes@).0,
            final(self).scroll_y == resolve_scroll(node.attributes@).1,
            final(self).id == node.id,
            changed == (final(self).scroll_x != old(self).scroll_x || final(self).scroll_y != old(
                self,
            ).scroll_y),
            final(ctx).entries@ == if changed {
                old(ctx).entries@.push(node.id)
            } else {
                old(ctx).entries@
            },
    {
        let mut cur: (Fixed, Fixed) = (Fixed { micros: 0 }, Fixed { micros: 0 });
        proof {
            assert(node.attributes@.skip(0) =~= node.attributes@);
        }
        let attrs = &node.attributes;
        let mut i: usize = 0;
        while i < attrs.len()
            invariant
                i <= attrs@.len(),
                attrs@ == node.attributes@,
                resolve_scroll(node.attributes@) == resolve_scroll_from(
                    attrs@.skip(i as int),
                    cur,
                ),
            decreases attrs@.len() - i,
        {
            proof {
                assert(attrs@.skip(i as int).len() > 0);
                assert(attrs@.skip(i as int)[0] == attrs@[i as int]);
                assert(attrs@.skip(i as int).drop_first() =~= attrs@.skip(i + 1 as int));
            }
            let a = &attrs[i];
            let ghost before = cur;
            match a.value.as_text() {
                Option::None => {
                },
                Option::Some(t) => {
                    let cs = chars_of(t.as_str());
                    match parse_fixed(&cs) {
                        Option::Some(v) => {
                            if str_eq(a.name.as_str(), "scroll_x") {
                                cur.0 = v;
                            } else if str_eq(a.name.as_str(), "scroll_y") {
                                cur.1 = v;
                            }
                        },
                        Option::None => {
                        },
                    }
                },
            }
            proof {
                assert(cur == apply_scroll_attr(before, attrs@[i as int]));
            }
            i = i + 1;
        }
        proof {
            assert(attrs@.skip(attrs@.len() as int) =~= Seq::<Attribute>::empty());
        }
        let changed = cur.0 != self.scroll_x || cur.1 != self.scroll_y;
        if changed {
            ctx.mark_as_dirty(node.id);
        }
        *self = Scroll { scroll_y: cur.1, scroll_x: cur.0, id: node.id };
        changed
    }

    /// Like `reduce`, but checks every scroll value first and reports the
    /// hard failure instead of requiring its absence; on failure nothing is
    /// changed and nothing is marked dirty.
    pub fn checked_reduce(
        &mut self,
        node: &NodeView,
        parent: Option<&Scroll>,
        ctx: &mut DirtyNodes,
    ) -> (r: Result<bool, StateError>)
        ensures
            scroll_attrs_ok(node.attributes@) ==> {
                &&& r is Ok
                &&& final(self).scroll_x == resolve_scroll(node.attributes@).0
                &&& final(self).scroll_y == resolve_scroll(node.attributes@).1
                &&& final(self).id == node.id
                &&& r->Ok_0 == (final(self).scroll_x != old(self).scroll_x || final(self).scroll_y
                    != old(self).scroll_y)
                &&& final(ctx).entries@ == if r->Ok_0 {
                    old(ctx).entries@.push(node.id)
                } else {
                    old(ctx).entries@
                }
            },
            !scroll_attrs_ok(node.attributes@) ==> r == Err::<bool, StateError>(
                StateError::BadScroll,
            ) && *final(self) == *old(self) && final(ctx).entries@ == old(ctx).entries@,
    {
        let attrs = &node.attributes;
        let mut i: usize = 0;
        while i < attrs.len()
            invariant
                i <= attrs@.len(),
                attrs@ == node.attributes@,
                forall|k: int| 0 <= k < i ==> scroll_attr_ok(#[trigger] attrs@[k]),
            decreases attrs@.len() - i,
        {
            let a = &attrs[i];
            if str_eq(a.name.as_str(), "scroll_x") || str_eq(a.name.as_str(), "scroll_y") {
                match a.value.as_text() {
                    Option::None => {
                        proof {
                            assert(!scroll_attr_ok(attrs@[i as int]));
                        }
                        return Err(StateError::BadScroll);
                    },
                    Option::Some(t) => {
                        let cs = chars_of(t.as_str());
                        match parse_fixed(&cs) {
                            Option::Some(_) => {
                            },
                            Option::None => {
                                proof {
                                    assert(!scroll_attr_ok(attrs@[i as int]));
                                }
                                return Err(StateError::BadScroll);
                            },
                        }
                    },
                }
            }
            i = i + 1;
        }
        Ok(self.reduce(node, parent, ctx))
    }
}

} // verus!
