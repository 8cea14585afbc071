//! The virtual tree: a declarative description of desired interface structure
//! for one render pass, together with the builder that assembles it.
//!
//! A tree is an ordered forest of nodes, each either a text node or an
//! element. Elements carry a tag name, an optional customization tag (the
//! identity of a custom-element upgrade of a built-in tag), an ordered
//! attribute list, child nodes, and the identifiers of the event sinks and
//! node-capture handles attached during construction.

use vstd::prelude::*;

verus! {

/// A name/value attribute pair. Presence-only (boolean) attributes carry the
/// empty string as their value.
pub struct Attr {
    pub name: String,
    pub value: String,
}

/// The mathematical value of an [`Attr`]: both strings as character sequences.
#[verifier::ext_equal]
pub ghost struct AttrView {
    pub name: Seq<char>,
    pub value: Seq<char>,
}

impl DeepView for Attr {
    type V = AttrView;

    open spec fn deep_view(&self) -> AttrView {
        AttrView { name: self.name@, value: self.value@ }
    }
}

/// One node of a virtual tree.
pub enum VNode {
    Text(String),
    Element(VElement),
}

/// An element node of a virtual tree.
pub struct VElement {
    pub tag_name: String,
    /// The customization tag: two elements are structurally compatible only
    /// if both the tag name and this tag match.
    pub is: Option<String>,
    pub attributes: Vec<Attr>,
    pub children: Vec<VNode>,
    /// Identifiers of the event sinks to be spawned against the live node
    /// once this node is committed.
    pub sink_spawners: Vec<u64>,
    /// Identifiers of the node-capture handles to be filled with the live
    /// node once this node is committed.
    pub element_refs: Vec<u64>,
}

/// The mathematical value of a [`VNode`].
#[verifier::ext_equal]
pub ghost enum NodeView {
    Text(Seq<char>),
    Element(ElemView),
}

/// The mathematical value of a [`VElement`].
#[verifier::ext_equal]
pub ghost struct ElemView {
    pub tag_name: Seq<char>,
    pub is: Option<Seq<char>>,
    pub attributes: Seq<AttrView>,
    pub children: Seq<NodeView>,
    pub sink_spawners: Seq<u64>,
    pub element_refs: Seq<u64>,
}

/// The values of a sequence of virtual nodes, in order.
pub open spec fn vnodes_deep(s: Seq<VNode>) -> Seq<NodeView>
    decreases s,
{
    if s.len() == 0 {
        Seq::empty()
    } else {
        vnodes_deep(s.subrange(0, s.len() - 1)).push(s[s.len() - 1].deep_view())
    }
}

impl DeepView for VNode {
    type V = NodeView;

    open spec fn deep_view(&self) -> NodeView
        decreases self,
    {
        match self {
            VNode::Text(s) => NodeView::Text(s@),
            VNode::Element(e) => NodeView::Element(e.deep_view()),
        }
    }
}

impl DeepView for VElement {
    type V = ElemView;

    open spec fn deep_view(&self) -> ElemView
        decreases self,
    {
        ElemView {
            tag_name: self.tag_name@,
            is: match self.is {
                Some(s) => Some(s@),
                None => None,
            },
            attributes: self.attributes.deep_view(),
            children: vnodes_deep(self.children@),
            sink_spawners: self.sink_spawners@,
            element_refs: self.element_refs@,
        }
    }
}

/// The value of a node sequence is the sequence of the nodes' values.
pub proof fn lemma_vnodes_deep(s: Seq<VNode>)
    ensures
        vnodes_deep(s).len() == s.len(),
        forall|i: int| 0 <= i < s.len() ==> vnodes_deep(s)[i] == s[i].deep_view(),
    decreases s.len(),
{
    if s.len() > 0 {
        let pre = s.subrange(0, s.len() - 1);
        lemma_vnodes_deep(pre);
        assert(vnodes_deep(s) == vnodes_deep(pre).push(s[s.len() - 1].deep_view()));
        assert forall|i: int| 0 <= i < s.len() implies vnodes_deep(s)[i] == s[i].deep_view() by {
            if i < s.len() - 1 {
                assert(pre[i] == s[i]);
                assert(vnodes_deep(s)[i] == vnodes_deep(pre)[i]);
            }
        }
    } else {
        assert(vnodes_deep(s).len() == 0);
    }
}

impl ElemView {
    /// An element freshly opened by the builder: no attributes, children,
    /// sinks or capture handles yet.
    pub open spec fn empty(tag_name: Seq<char>, is: Option<Seq<char>>) -> ElemView {
        ElemView {
            tag_name,
            is,
            attributes: Seq::empty(),
            children: Seq::empty(),
            sink_spawners: Seq::empty(),
            element_refs: Seq::empty(),
        }
    }

    /// This element with one more child node.
    pub open spec fn with_child(self, n: NodeView) -> ElemView {
        ElemView { children: self.children.push(n), ..self }
    }

    /// This element with one more attribute.
    pub open spec fn with_attr(self, a: AttrView) -> ElemView {
        ElemView { attributes: self.attributes.push(a), ..self }
    }

    /// This element with one more pending event sink.
    pub open spec fn with_sink(self, sink: u64) -> ElemView {
        ElemView { sink_spawners: self.sink_spawners.push(sink), ..self }
    }

    /// This element with one more pending node-capture handle.
    pub open spec fn with_ref(self, handle: u64) -> ElemView {
        ElemView { element_refs: self.element_refs.push(handle), ..self }
    }
}

/// One virtual tree, under construction or finished.
///
/// A tree is built strictly once per render pass: nodes are appended in
/// order, elements are opened, populated and closed like a document in
/// progress. Once every opened element has been closed the tree is finished
/// and may be handed to the reconciler.
pub struct VDom {
    pub(crate) nodes: Vec<VNode>,
    pub(crate) stack: Vec<VElement>,
    pub(crate) on_rendered: Option<u64>,
}

impl VDom {
    /// The tree's value is carried by its fields.
    pub(crate) proof fn lemma_tree_views(self)
        ensures
            self.roots() == vnodes_deep(self.nodes@),
            self.open_elems() == self.stack.deep_view(),
            self.rendered_callback() == self.on_rendered,
    {
    }

    /// The finished root forest built so far.
    pub closed spec fn roots(self) -> Seq<NodeView> {
        vnodes_deep(self.nodes@)
    }

    /// The elements currently open, outermost first.
    pub closed spec fn open_elems(self) -> Seq<ElemView> {
        self.stack.deep_view()
    }

    /// The identifier of the one-shot callback to run after this tree's
    /// patch commits, if one was registered.
    pub closed spec fn rendered_callback(self) -> Option<u64> {
        self.on_rendered
    }

    /// A tree is finished once every opened element has been closed.
    pub open spec fn finished(self) -> bool {
        self.open_elems().len() == 0
    }

    /// Whether every opened element has been closed.
    pub fn is_finished(&self) -> (r: bool)
        ensures
            r == self.finished(),
    {
        self.stack.len() == 0
    }

    /// Creates an empty tree.
    pub fn new() -> (r: VDom)
        ensures
            r.roots() == Seq::<NodeView>::empty(),
            r.open_elems() == Seq::<ElemView>::empty(),
            r.rendered_callback() is None,
    {
        let r = VDom { nodes: Vec::new(), stack: Vec::new(), on_rendered: None };
        proof {
            assert(r.open_elems() =~= Seq::<ElemView>::empty());
        }
        r
    }

    /// Appends a text node: to the innermost open element, or to the root
    /// forest if no element is open.
    pub fn text(&mut self, text: String)
        ensures
            final(self).rendered_callback() == old(self).rendered_callback(),
            old(self).open_elems().len() == 0 ==> {
                &&& final(self).roots() == old(self).roots().push(NodeView::Text(text@))
                &&& final(self).open_elems() == old(self).open_elems()
            },
            old(self).open_elems().len() > 0 ==> {
                let k = old(self).open_elems().len() - 1;
                &&& final(self).roots() == old(self).roots()
                &&& final(self).open_elems() == old(self).open_elems().update(
                    k,
                    old(self).open_elems()[k].with_child(NodeView::Text(text@)),
                )
            },
    {
        let ghost pre = *self;
        let n = self.stack.len();
        if n == 0 {
            self.nodes.push(VNode::Text(text));
            proof {
                let s = self.nodes@;
                assert(s.subrange(0, s.len() - 1) =~= pre.nodes@);
                assert(vnodes_deep(s) == vnodes_deep(s.subrange(0, s.len() - 1)).push(
                    s[s.len() - 1].deep_view(),
                ));
                assert(s[s.len() - 1].deep_view() == NodeView::Text(text@));
                assert(self.roots() =~= pre.roots().push(NodeView::Text(text@)));
            }
        } else {
            self.stack[n - 1].children.push(VNode::Text(text));
            proof {
                let e0 = pre.stack@[n - 1];
                let e1 = self.stack@[n - 1];
                assert(e1.children@.subrange(0, e1.children@.len() - 1) =~= e0.children@);
                assert(e1.deep_view() =~~= e0.deep_view().with_child(NodeView::Text(text@)));
                assert(self.open_elems() =~~= pre.open_elems().update(
                    n - 1,
                    pre.open_elems()[n - 1].with_child(NodeView::Text(text@)),
                ));
            }
        }
    }

    /// Opens a new child element with the given tag name and customization
    /// tag; it becomes the innermost open element until closed.
    pub fn open_child_customized(&mut self, tag_name: String, is: Option<String>)
        ensures
            final(self).rendered_callback() == old(self).rendered_callback(),
            final(self).roots() == old(self).roots(),
            final(self).open_elems() == old(self).open_elems().push(
                ElemView::empty(
                    tag_name@,
                    match is {
                        Some(s) => Some(s@),
                        None => None,
                    },
                ),
            ),
    {
        let ghost pre = *self;
        self.stack.push(
            VElement {
                tag_name,
                is,
                attributes: Vec::new(),
                children: Vec::new(),
                sink_spawners: Vec::new(),
                element_refs: Vec::new(),
            },
        );
        proof {
            assert(self.stack@[self.stack@.len() - 1].deep_view() =~~= ElemView::empty(
                tag_name@,
                match is {
                    Some(s) => Some(s@),
                    None => None,
                },
            ));
            assert(self.open_elems() =~~= pre.open_elems().push(
                self.stack@[self.stack@.len() - 1].deep_view(),
            ));
        }
    }

    /// Opens a new child element with the given tag name.
    pub fn open_child(&mut self, tag_name: String)
        ensures
            final(self).rendered_callback() == old(self).rendered_callback(),
            final(self).roots() == old(self).roots(),
            final(self).open_elems() == old(self).open_elems().push(
                ElemView::empty(tag_name@, None),
            ),
    {
        self.open_child_customized(tag_name, None);
    }

    /// Closes the innermost open element, appending it to the element around
    /// it, or to the root forest if it was outermost.
    pub fn close_child(&mut self)
        requires
            old(self).open_elems().len() > 0,
        ensures
            final(self).rendered_callback() == old(self).rendered_callback(),
            old(self).open_elems().len() == 1 ==> {
                &&& final(self).roots() == old(self).roots().push(
                    NodeView::Element(old(self).open_elems().last()),
                )
                &&& final(self).open_elems() == old(self).open_elems().drop_last()
            },
            old(self).open_elems().len() > 1 ==> {
                let k = old(self).open_elems().len() - 2;
                &&& final(self).roots() == old(self).roots()
                &&& final(self).open_elems() == old(self).open_elems().drop_last().update(
                    k,
                    old(self).open_elems()[k].with_child(
                        NodeView::Element(old(self).open_elems().last()),
                    ),
                )
            },
    {
        let ghost pre = *self;
        let e = self.stack.pop().unwrap();
        proof {
            assert(e.deep_view() == pre.open_elems().last());
            assert(self.open_elems() =~~= pre.open_elems().drop_last());
        }
        let ghost mid = *self;
        let n = self.stack.len();
        if n == 0 {
            self.nodes.push(VNode::Element(e));
            proof {
                let s = self.nodes@;
                assert(s.subrange(0, s.len() - 1) =~= pre.nodes@);
                assert(vnodes_deep(s) == vnodes_deep(s.subrange(0, s.len() - 1)).push(
                    s[s.len() - 1].deep_view(),
                ));
                assert(self.roots() =~= pre.roots().push(
                    NodeView::Element(pre.open_elems().last()),
                ));
            }
        } else {
            self.stack[n - 1].children.push(VNode::Element(e));
            proof {
                let e0 = mid.stack@[n - 1];
                let e1 = self.stack@[n - 1];
                assert(e1.children@.subrange(0, e1.children@.len() - 1) =~= e0.children@);
                assert(e1.children@[e1.children@.len() - 1].deep_view() == NodeView::Element(
                    pre.open_elems().last(),
                ));
                assert(e1.deep_view() =~~= e0.deep_view().with_child(
                    NodeView::Element(pre.open_elems().last()),
                ));
                assert(self.open_elems() =~~= mid.open_elems().update(
                    n - 1,
                    mid.open_elems()[n - 1].with_child(
                        NodeView::Element(pre.open_elems().last()),
                    ),
                ));
            }
        }
    }

    /// Adds an attribute to the innermost open element.
    pub fn attr(&mut self, name: String, value: String)
        requires
            old(self).open_elems().len() > 0,
        ensures
            final(self).rendered_callback() == old(self).rendered_callback(),
            final(self).roots() == old(self).roots(),
            ({
                let k = old(self).open_elems().len() - 1;
                final(self).open_elems() == old(self).open_elems().update(
                    k,
                    old(self).open_elems()[k].with_attr(AttrView { name: name@, value: value@ }),
                )
            }),
    {
        let ghost pre = *self;
        let n = self.stack.len();
        self.stack[n - 1].attributes.push(Attr { name, value });
        proof {
            let e0 = pre.stack@[n - 1];
            let e1 = self.stack@[n - 1];
            assert(e1.attributes.deep_view() =~= e0.attributes.deep_view().push(
                e1.attributes@[e1.attributes@.len() - 1].deep_view(),
            ));
            assert(e1.deep_view() =~~= e0.deep_view().with_attr(
                AttrView { name: name@, value: value@ },
            ));
            assert(self.open_elems() =~~= pre.open_elems().update(
                n - 1,
                pre.open_elems()[n - 1].with_attr(AttrView { name: name@, value: value@ }),
            ));
        }
    }

    /// Adds a presence-only (boolean) attribute to the innermost open
    /// element: its value is the empty string.
    pub fn boolean_attr(&mut self, name: String)
        requires
            old(self).open_elems().len() > 0,
        ensures
            final(self).rendered_callback() == old(self).rendered_callback(),
            final(self).roots() == old(self).roots(),
            ({
                let k = old(self).open_elems().len() - 1;
                final(self).open_elems() == old(self).open_elems().update(
                    k,
                    old(self).open_elems()[k].with_attr(
                        AttrView { name: name@, value: Seq::empty() },
                    ),
                )
            }),
    {
        self.attr(name, String::new());
    }

    /// Attaches an event sink, by identifier, to the innermost open element.
    /// The sink is spawned against the corresponding live node when that node
    /// is committed.
    pub fn sink_event(&mut self, sink: u64)
        requires
            old(self).open_elems().len() > 0,
        ensures
            final(self).rendered_callback() == old(self).rendered_callback(),
            final(self).roots() == old(self).roots(),
            ({
                let k = old(self).open_elems().len() - 1;
                final(self).open_elems() == old(self).open_elems().update(
                    k,
                    old(self).open_elems()[k].with_sink(sink),
                )
            }),
    {
        let ghost pre = *self;
        let n = self.stack.len();
        self.stack[n - 1].sink_spawners.push(sink);
        proof {
            let e0 = pre.stack@[n - 1];
            let e1 = self.stack@[n - 1];
            assert(e1.deep_view() =~~= e0.deep_view().with_sink(sink));
            assert(self.open_elems() =~~= pre.open_elems().update(
                n - 1,
                pre.open_elems()[n - 1].with_sink(sink),
            ));
        }
    }

    /// Attaches a node-capture handle, by identifier, to the innermost open
    /// element. The handle is filled with the corresponding live node when
    /// that node is committed.
    pub fn element_ref(&mut self, handle: u64)
        requires
            old(self).open_elems().len() > 0,
        ensures
            final(self).rendered_callback() == old(self).rendered_callback(),
            final(self).roots() == old(self).roots(),
            ({
                let k = old(self).open_elems().len() - 1;
                final(self).open_elems() == old(self).open_elems().update(
                    k,
                    old(self).open_elems()[k].with_ref(handle),
                )
            }),
    {
        let ghost pre = *self;
        let n = self.stack.len();
        self.stack[n - 1].element_refs.push(handle);
        proof {
            let e0 = pre.stack@[n - 1];
            let e1 = self.stack@[n - 1];
            assert(e1.deep_view() =~~= e0.deep_view().with_ref(handle));
            assert(self.open_elems() =~~= pre.open_elems().update(
                n - 1,
                pre.open_elems()[n - 1].with_ref(handle),
            ));
        }
    }

    /// Registers a one-shot callback, by identifier, to run after this
    /// tree's patch is applied to the live tree.
    pub fn on_rendered(&mut self, callback: u64)
        ensures
            final(self).roots() == old(self).roots(),
            final(self).open_elems() == old(self).open_elems(),
            final(self).rendered_callback() == Some(callback),
    {
        self.on_rendered = Some(callback);
    }
}

} // verus!
