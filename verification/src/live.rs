//! A model of the live tree: the concrete node tree the reconciler mutates.
//!
//! Every live node carries a numeric identifier, assigned once at creation;
//! the operations the reconciler emits refer to nodes by these identifiers.
//! Elements additionally track whether they are form-control inputs and what
//! their live checked state is, which the special-cased "checked" attribute
//! drives directly.

use vstd::prelude::*;

use crate::vdom::{Attr, AttrView};

verus! {

/// A live text node.
pub struct LiveText {
    pub id: u64,
    pub data: String,
}

/// A live element node.
pub struct LiveElement {
    pub id: u64,
    pub tag_name: String,
    pub is: Option<String>,
    pub attributes: Vec<Attr>,
    /// Whether this element is a form-control input, decided at creation
    /// from its tag name.
    pub is_input: bool,
    /// The live checked state of a form-control input.
    pub checked: bool,
    pub children: Vec<LiveNode>,
}

/// One node of the live tree.
pub enum LiveNode {
    Text(LiveText),
    Element(LiveElement),
}

/// The mathematical value of a [`LiveText`].
#[verifier::ext_equal]
pub ghost struct LiveTextView {
    pub id: u64,
    pub data: Seq<char>,
}

/// The mathematical value of a [`LiveElement`].
#[verifier::ext_equal]
pub ghost struct LiveElemView {
    pub id: u64,
    pub tag_name: Seq<char>,
    pub is: Option<Seq<char>>,
    pub attributes: Seq<AttrView>,
    pub is_input: bool,
    pub checked: bool,
    pub children: Seq<LiveView>,
}

/// The mathematical value of a [`LiveNode`].
#[verifier::ext_equal]
pub ghost enum LiveView {
    Text(LiveTextView),
    Element(LiveElemView),
}

impl LiveView {
    /// The identifier of the node.
    pub open spec fn id(self) -> u64 {
        match self {
            LiveView::Text(t) => t.id,
            LiveView::Element(e) => e.id,
        }
    }
}

/// The values of a sequence of live nodes, in order.
pub open spec fn live_nodes_deep(s: Seq<LiveNode>) -> Seq<LiveView>
    decreases s,
{
    if s.len() == 0 {
        Seq::empty()
    } else {
        live_nodes_deep(s.subrange(0, s.len() - 1)).push(s[s.len() - 1].deep_view())
    }
}

impl DeepView for LiveText {
    type V = LiveTextView;

    open spec fn deep_view(&self) -> LiveTextView {
        LiveTextView { id: self.id, data: self.data@ }
    }
}

impl DeepView for LiveElement {
    type V = LiveElemView;

    open spec fn deep_view(&self) -> LiveElemView
        decreases self,
    {
        LiveElemView {
            id: self.id,
            tag_name: self.tag_name@,
            is: match self.is {
                Some(s) => Some(s@),
                None => None,
            },
            attributes: self.attributes.deep_view(),
            is_input: self.is_input,
            checked: self.checked,
            children: live_nodes_deep(self.children@),
        }
    }
}

impl DeepView for LiveNode {
    type V = LiveView;

    open spec fn deep_view(&self) -> LiveView
        decreases self,
    {
        match self {
            LiveNode::Text(t) => LiveView::Text(t.deep_view()),
            LiveNode::Element(e) => LiveView::Element(e.deep_view()),
        }
    }
}

/// The value of a live node sequence is the sequence of the nodes' values.
pub proof fn lemma_live_nodes_deep(s: Seq<LiveNode>)
    ensures
        live_nodes_deep(s).len() == s.len(),
        forall|i: int| 0 <= i < s.len() ==> live_nodes_deep(s)[i] == s[i].deep_view(),
    decreases s.len(),
{
    if s.len() > 0 {
        let pre = s.subrange(0, s.len() - 1);
        lemma_live_nodes_deep(pre);
        assert(live_nodes_deep(s) == live_nodes_deep(pre).push(s[s.len() - 1].deep_view()));
        assert forall|i: int| 0 <= i < s.len() implies live_nodes_deep(s)[i] == s[i].deep_view() by {
            if i < s.len() - 1 {
                assert(pre[i] == s[i]);
                assert(live_nodes_deep(s)[i] == live_nodes_deep(pre)[i]);
            }
        }
    } else {
        assert(live_nodes_deep(s).len() == 0);
    }
}

/// The identifier counter after one identifier is handed out: it saturates
/// at the largest representable value rather than wrap.
pub open spec fn bump(next: u64) -> u64 {
    if next < u64::MAX {
        (next + 1) as u64
    } else {
        u64::MAX
    }
}

/// A source of fresh identifiers for live nodes and delivery tasks. The
/// counter saturates at the largest representable value rather than wrap.
pub struct IdGen {
    pub next: u64,
}

impl IdGen {
    /// Creates a generator whose first identifier is 1; 0 is left for a
    /// caller-designated root.
    pub fn new() -> (r: IdGen)
        ensures
            r.next == 1,
    {
        IdGen { next: 1 }
    }

    /// Hands out the next identifier.
    pub fn fresh(&mut self) -> (r: u64)
        ensures
            r == old(self).next,
            final(self).next == bump(old(self).next),
    {
        let r = self.next;
        if self.next < u64::MAX {
            self.next = self.next + 1;
        }
        r
    }
}

} // verus!
