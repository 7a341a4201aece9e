//! Output references: typed handles that a node can carry so that resolved
//! geometry and cursor interactions reach external consumers over channels.

use vstd::prelude::*;
use crate::fixed::Fixed;

verus! {

/// Resolved geometry of one node, as sent to a layout listener.
#[derive(Clone, Copy, PartialEq, Eq, Structural, Debug)]
pub struct NodeReferenceLayout {
    pub x: Fixed,
    pub y: Fixed,
    pub width: Fixed,
    pub height: Fixed,
}

/// A pointer position shared with an interactive consumer.
#[derive(Clone, Copy, PartialEq, Eq, Structural, Debug)]
pub struct CursorPoint {
    pub x: Fixed,
    pub y: Fixed,
}

/// Declares tokio's unbounded sender so handles can sit in node state.
#[verifier::external_type_specification]
#[verifier::external_body]
#[verifier::reject_recursive_types(T)]
pub struct ExUnboundedSender<T>(tokio::sync::mpsc::UnboundedSender<T>);

/// Declares the standard mutex so shared cells can sit behind `Arc`.
#[verifier::external_type_specification]
#[verifier::external_body]
#[verifier::reject_recursive_types(T)]
pub struct ExMutex<T: ?Sized>(std::sync::Mutex<T>);

/// A handle bundling the channel and shared cells of an editable region.
pub struct CursorReference {
    pub agent: tokio::sync::mpsc::UnboundedSender<(usize, usize)>,
    pub positions: std::sync::Arc<std::sync::Mutex<Option<CursorPoint>>>,
    pub id: std::sync::Arc<std::sync::Mutex<Option<usize>>>,
}

/// Relies on `Arc::clone` and tokio's `UnboundedSender::clone`: the clones
/// are handles to the same shared cells and the same channel.
#[verifier::external_body]
pub(crate) fn clone_cursor_reference(c: &CursorReference) -> (r: CursorReference) {
    CursorReference {
        agent: c.agent.clone(),
        positions: c.positions.clone(),
        id: c.id.clone(),
    }
}

/// The output channels a node carries: resolved geometry goes to `node_ref`,
/// cursor interaction to `cursor_ref`. The geometry channel is never
/// inherited; the cursor handle falls back to the parent's.
pub struct References {
    pub node_ref: Option<tokio::sync::mpsc::UnboundedSender<NodeReferenceLayout>>,
    pub cursor_ref: Option<CursorReference>,
}

impl Default for References {
    fn default() -> (r: References)
        ensures
            r.node_ref is None,
            r.cursor_ref is None,
    {
        References { node_ref: None, cursor_ref: None }
    }
}

/// The geometry handle the node itself supplies: the last `reference`
/// attribute carrying one.
pub open spec fn last_size_ref(attrs: Seq<crate::node::Attribute>) -> Option<
    tokio::sync::mpsc::UnboundedSender<NodeReferenceLayout>,
>
    decreases attrs.len(),
{
    if attrs.len() == 0 {
        None
    } else {
        match attrs.last().value {
            crate::node::AttrValue::SizeRef(h) => if attrs.last().name@ == "reference"@ {
                Some(h)
            } else {
                last_size_ref(attrs.drop_last())
            },
            _ => last_size_ref(attrs.drop_last()),
        }
    }
}

/// The cursor handle the node itself supplies: the last `cursor_reference`
/// attribute carrying one.
pub open spec fn last_cursor_ref(attrs: Seq<crate::node::Attribute>) -> Option<CursorReference>
    decreases attrs.len(),
{
    if attrs.len() == 0 {
        None
    } else {
        match attrs.last().value {
            crate::node::AttrValue::CursorRef(c) => if attrs.last().name@ == "cursor_reference"@ {
                Some(c)
            } else {
                last_cursor_ref(attrs.drop_last())
            },
            _ => last_cursor_ref(attrs.drop_last()),
        }
    }
}

impl References {
    /// Resolves this node's references: its own geometry handle (never
    /// inherited) and its cursor handle, falling back to a clone of the
    /// parent's. The published change flag is always false: a reference is a
    /// pure pass-through carrier and never forces downstream dirtying.
    pub fn reduce(&mut self, node: crate::node::NodeView, parent: Option<&References>) -> (changed:
        bool)
        ensures
            changed == false,
            final(self).node_ref == last_size_ref(node.attributes@),
            match last_cursor_ref(node.attributes@) {
                Some(h) => final(self).cursor_ref == Some(h),
                None => final(self).cursor_ref is Some <==> (parent is Some
                    && parent->0.cursor_ref is Some),
            },
    {
        let mut node_ref: Option<tokio::sync::mpsc::UnboundedSender<NodeReferenceLayout>> = None;
        let mut cursor_ref: Option<CursorReference> = match parent {
            Option::Some(p) => match &p.cursor_ref {
                Option::Some(c) => Some(clone_cursor_reference(c)),
                Option::None => None,
            },
            Option::None => None,
        };
        let mut attrs = node.attributes;
        let ghost all = attrs@;
        let ghost mut done: int = 0;
        proof {
            assert(all.take(0) =~= Seq::<crate::node::Attribute>::empty());
        }
        while attrs.len() > 0
            invariant
                0 <= done <= all.len(),
                attrs@ =~= all.skip(done),
                node_ref == last_size_ref(all.take(done)),
                match last_cursor_ref(all.take(done)) {
                    Some(h) => cursor_ref == Some(h),
                    None => cursor_ref is Some <==> (parent is Some
                        && parent->0.cursor_ref is Some),
                },
            decreases attrs@.len(),
        {
            let a = attrs.remove(0);
            proof {
                assert(a == all[done]);
                assert(attrs@ =~= all.skip(done + 1));
                assert(all.take(done + 1).drop_last() =~= all.take(done));
                assert(all.take(done + 1).last() == all[done]);
            }
            let is_reference = crate::text::str_eq(a.name.as_str(), "reference");
            let is_cursor_reference = crate::text::str_eq(a.name.as_str(), "cursor_reference");
            match a.value {
                crate::node::AttrValue::SizeRef(h) => {
                    if is_reference {
                        node_ref = Some(h);
                    }
                },
                crate::node::AttrValue::CursorRef(c) => {
                    if is_cursor_reference {
                        cursor_ref = Some(c);
                    }
                },
                _ => {
                },
            }
            proof {
                done = done + 1;
            }
        }
        proof {
            assert(all.take(all.len() as int) =~= all);
        }
        self.node_ref = node_ref;
        self.cursor_ref = cursor_ref;
        false
    }
}

} // verus!
