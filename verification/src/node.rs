//! The view a reducer gets of one node, the dirty-tracking sink, and the
//! full per-node resolved state.

use vstd::prelude::*;
use crate::refs::{CursorReference, NodeReferenceLayout};

verus! {

/// One raw attribute value: text, bytes, or a typed output handle.
pub enum AttrValue {
    Text(String),
    Bytes(Vec<u8>),
    SizeRef(tokio::sync::mpsc::UnboundedSender<NodeReferenceLayout>),
    CursorRef(CursorReference),
}

/// The text a value carries, if it is textual.
pub open spec fn attr_text(v: AttrValue) -> Option<Seq<char>> {
    match v {
        AttrValue::Text(s) => Some(s@),
        _ => None,
    }
}

impl AttrValue {
    pub fn as_text(&self) -> (r: Option<&String>)
        ensures
            match r {
                Some(s) => attr_text(*self) == Some(s@),
                None => attr_text(*self) is None,
            },
    {
        match self {
            AttrValue::Text(s) => Some(s),
            _ => None,
        }
    }
}

/// One named raw attribute.
pub struct Attribute {
    pub name: String,
    pub value: AttrValue,
}

/// What a reducer sees of one node: its identity, its tag, its text content,
/// and its raw attributes in order.
pub struct NodeView {
    pub id: usize,
    pub tag: Option<String>,
    pub text: Option<String>,
    pub attributes: Vec<Attribute>,
}

/// The dirty-tracking sink: the identities whose geometry-affecting state
/// changed, in notification order. Shared with the layout stage by the
/// caller, which guards it with a lock.
pub struct DirtyNodes {
    pub entries: Vec<usize>,
}

impl DirtyNodes {
    pub fn new() -> (r: DirtyNodes)
        ensures
            r.entries@ == Seq::<usize>::empty(),
    {
        DirtyNodes { entries: Vec::new() }
    }

    /// Records that the node's cached layout must be recomputed.
    pub fn mark_as_dirty(&mut self, id: usize)
        ensures
            final(self).entries@ == old(self).entries@.push(id),
    {
        self.entries.push(id);
    }
}

/// The failures a reduction can report: the attributes whose values are
/// required to parse, and do not.
#[derive(Clone, Copy, PartialEq, Eq, Structural, Debug)]
pub enum StateError {
    BadPadding,
    BadScroll,
    BadCursorIndex,
}

/// The full resolved state of one node, one record per category.
pub struct NodeState {
    pub cursor_settings: crate::cursor::CursorSettings,
    pub references: crate::refs::References,
    pub size: crate::size::Size,
    pub scroll: crate::scroll::Scroll,
    pub style: crate::style::Style,
    pub font_style: crate::font::FontStyle,
}

impl NodeState {
    /// This state with its sizing replaced.
    pub fn set_size(self, size: crate::size::Size) -> (r: NodeState)
        ensures
            r.size == size,
            r.cursor_settings == self.cursor_settings,
            r.references == self.references,
            r.scroll == self.scroll,
            r.style == self.style,
            r.font_style == self.font_style,
    {
        let mut this = self;
        this.size = size;
        this
    }
}

impl Default for NodeState {
    fn default() -> (r: NodeState)
        ensures
            r.cursor_settings == crate::cursor::cursor_default(),
            r.references.node_ref is None,
            r.references.cursor_ref is None,
            r.size@.width == crate::size::SizeModeV::Auto,
            r.scroll.scroll_x == crate::fixed::Fixed::spec_zero(),
            r.scroll.scroll_y == crate::fixed::Fixed::spec_zero(),
            r.style@ == crate::style::style_default(),
            r.font_style@ == crate::font::font_default(),
    {
        NodeState {
            cursor_settings: crate::cursor::CursorSettings::default(),
            references: crate::refs::References::default(),
            size: crate::size::Size::default(),
            scroll: crate::scroll::Scroll::default(),
            style: crate::style::Style::default(),
            font_style: crate::font::FontStyle::default(),
        }
    }
}

} // verus!
