//! A component framework core for reactive interfaces over a live node
//! tree: an arena-style virtual tree built once per render pass, a
//! positional tree differ that patches the live tree in place or rebuilds
//! mismatched nodes wholesale, attribute diffing with the special-cased
//! "checked" attribute, event-sink lifecycle bookkeeping, and the
//! per-component coordinator that ties render passes, attribute-change
//! notifications and teardown together.

pub mod attributes;
pub mod caseless;
pub mod element_ref;
pub mod flatten_abridged;
pub mod id_sink;
pub mod listener;
pub mod live;
pub mod ops;
pub mod patch_dom;
pub mod sink_spawner;
pub mod vdom;
pub mod view_model;

pub use crate::attributes::Attribute;
pub use crate::attributes::Attributes;
pub use crate::element_ref::ElementRef;
pub use crate::id_sink::IdSink;
pub use crate::listener::Listener;
pub use crate::vdom::VDom;

use vstd::prelude::*;

use crate::live::{IdGen, LiveElement, lemma_live_nodes_deep};
use crate::ops::{DomOp, OpView, collect_spawn_tasks, no_mutations, spawned_tasks};
use crate::patch_dom::{conforms_seq, patch_dom, same_shape_seq, tidy_seq};

verus! {

/// What polling for the next attribute-change notification yields.
pub enum AttrPoll<A> {
    /// The component disconnected: the notification stream ended.
    Ended,
    /// A read is already outstanding; notifications coalesce into its wake.
    Pending,
    /// The latest merged snapshot of the observed attributes.
    Changed(A),
}

/// The single-slot, single-waiter attribute-change channel of one component:
/// the merged snapshot, whether a reader is waiting, and whether the
/// component is disconnected.
pub struct AttributeChangeDirector<A> {
    pub attributes: A,
    pub waker: bool,
    pub disconnected: bool,
}

/// The read side of the attribute-change channel: at most one outstanding
/// read, which receives the latest merged snapshot, never a history of
/// individual changes.
pub struct AttributesChanged<A> {
    pub director: AttributeChangeDirector<A>,
}

impl<A: Attributes> AttributesChanged<A> {
    /// Polls for the next notification: ended once disconnected, pending
    /// while a read is already registered, and otherwise the current
    /// snapshot, registering this read as the one waiter.
    pub fn poll_next(&mut self) -> (r: AttrPoll<A>)
        ensures
            old(self).director.disconnected ==> r is Ended && *final(self) == *old(self),
            !old(self).director.disconnected && old(self).director.waker ==> r is Pending
                && *final(self) == *old(self),
            !old(self).director.disconnected && !old(self).director.waker ==> {
                &&& r matches AttrPoll::Changed(a) && a == old(self).director.attributes
                &&& final(self).director.waker
                &&& final(self).director.attributes == old(self).director.attributes
                &&& !final(self).director.disconnected
            },
    {
        if self.director.disconnected {
            AttrPoll::Ended
        } else if self.director.waker {
            AttrPoll::Pending
        } else {
            self.director.waker = true;
            AttrPoll::Changed(self.director.attributes.snapshot())
        }
    }
}

/// The lifecycle of a mounted component.
pub enum Lifecycle {
    Unattached,
    Connected,
    Disconnected,
}

/// What committing a produced tree asks of the embedder: the live-tree
/// operations to mirror, the delivery tasks of the superseded tree to
/// cancel, and the one-shot post-commit callback to run, if any.
pub struct CommitOutcome {
    pub ops: Vec<DomOp>,
    pub aborted_tasks: Vec<u64>,
    pub rendered: Option<u64>,
}

/// What disconnecting asks of the embedder: the render-loop task to abort,
/// whether to wake a pending attribute reader with end-of-stream, and the
/// delivery tasks to cancel.
pub struct DisconnectOutcome {
    pub render_abort: Option<u64>,
    pub wake_attr_reader: bool,
    pub aborted_tasks: Vec<u64>,
}

/// The per-component coordinator: drives commits of successive virtual
/// trees against the live root, tracks the delivery tasks spawned by the
/// most recently committed tree, and carries the attribute-change channel
/// through connect and disconnect.
pub struct Component<A> {
    pub lifecycle: Lifecycle,
    pub changes: AttributesChanged<A>,
    pub root: LiveElement,
    pub last: Option<VDom>,
    pub live_tasks: Vec<u64>,
    pub render_task: Option<u64>,
    pub gen: IdGen,
}

impl<A: Attributes> Component<A> {
    /// The live root's children always conform in kind and child count to
    /// the most recently committed tree, or are absent before the first
    /// commit.
    pub open spec fn wf(self) -> bool {
        match self.last {
            Some(t) => t.finished() && conforms_seq(self.root.deep_view().children, t.roots()),
            None => self.root.deep_view().children.len() == 0,
        }
    }

    /// Creates an unattached component around an empty live root.
    pub fn new(root: LiveElement) -> (r: Component<A>)
        requires
            root.children@.len() == 0,
        ensures
            r.wf(),
            r.lifecycle is Unattached,
            r.changes.director.disconnected,
            !r.changes.director.waker,
            r.last is None,
            r.live_tasks@ == Seq::<u64>::empty(),
            r.render_task is None,
            r.root == root,
    {
        let r = Component {
            lifecycle: Lifecycle::Unattached,
            changes: AttributesChanged {
                director: AttributeChangeDirector {
                    attributes: A::fresh(),
                    waker: false,
                    disconnected: true,
                },
            },
            root,
            last: None,
            live_tasks: Vec::new(),
            render_task: None,
            gen: IdGen::new(),
        };
        proof {
            lemma_live_nodes_deep(r.root.children@);
            assert(r.live_tasks@ =~= Seq::<u64>::empty());
        }
        r
    }

    /// Connects the component: attribute notifications are enabled and the
    /// render loop runs as task `render_task`.
    pub fn connected(&mut self, render_task: u64)
        ensures
            final(self).lifecycle is Connected,
            !final(self).changes.director.disconnected,
            final(self).changes.director.waker == old(self).changes.director.waker,
            final(self).changes.director.attributes == old(self).changes.director.attributes,
            final(self).render_task == Some(render_task),
            final(self).root == old(self).root,
            final(self).last == old(self).last,
            final(self).live_tasks == old(self).live_tasks,
            final(self).gen == old(self).gen,
            old(self).wf() ==> final(self).wf(),
    {
        self.lifecycle = Lifecycle::Connected;
        self.changes.director.disconnected = false;
        self.render_task = Some(render_task);
    }

    /// One platform attribute change: the change is merged into the
    /// snapshot, and the pending reader, if any, is woken exactly once —
    /// further changes arriving before the read is serviced coalesce into
    /// that single wake, and the read then sees the latest merged snapshot.
    pub fn attribute_changed(&mut self, name: &String, value: Option<String>) -> (wake: bool)
        ensures
            wake == old(self).changes.director.waker,
            !final(self).changes.director.waker,
            final(self).changes.director.disconnected == old(self).changes.director.disconnected,
            final(self).lifecycle == old(self).lifecycle,
            final(self).root == old(self).root,
            final(self).last == old(self).last,
            final(self).live_tasks == old(self).live_tasks,
            final(self).render_task == old(self).render_task,
            final(self).gen == old(self).gen,
            old(self).wf() ==> final(self).wf(),
    {
        self.changes.director.attributes.update(name, value);
        let wake = self.changes.director.waker;
        self.changes.director.waker = false;
        wake
    }

    /// Polls for the next attribute-change notification.
    pub fn poll_attributes(&mut self) -> (r: AttrPoll<A>)
        ensures
            old(self).changes.director.disconnected ==> r is Ended && *final(self) == *old(self),
            !old(self).changes.director.disconnected && old(self).changes.director.waker ==> r
                is Pending && *final(self) == *old(self),
            !old(self).changes.director.disconnected && !old(self).changes.director.waker ==> {
                &&& r matches AttrPoll::Changed(a) && a == old(self).changes.director.attributes
                &&& final(self).changes.director.waker
                &&& final(self).changes.director.attributes
                    == old(self).changes.director.attributes
                &&& !final(self).changes.director.disconnected
                &&& final(self).lifecycle == old(self).lifecycle
                &&& final(self).root == old(self).root
                &&& final(self).last == old(self).last
                &&& final(self).live_tasks == old(self).live_tasks
                &&& final(self).render_task == old(self).render_task
                &&& final(self).gen == old(self).gen
            },
            old(self).wf() ==> final(self).wf(),
    {
        self.changes.poll_next()
    }

    /// Commits a newly produced tree: the live root is patched from the
    /// previously committed tree (or an empty tree before the first commit),
    /// the new tree's sinks are spawned and capture handles filled as part
    /// of the recorded operations, and the superseded tree's delivery tasks
    /// are handed back for cancellation — a sink spawned for the previous
    /// tree stops receiving events once this commit is processed. Committing
    /// a tree structurally identical to the previous tidy tree performs no
    /// live-tree mutation.
    pub fn tree_produced(&mut self, new_tree: VDom) -> (r: CommitOutcome)
        requires
            old(self).wf(),
            old(self).lifecycle is Connected,
            new_tree.finished(),
        ensures
            final(self).wf(),
            r.aborted_tasks@ == old(self).live_tasks@,
            final(self).live_tasks@ == spawned_tasks(r.ops.deep_view()),
            r.rendered == new_tree.rendered_callback(),
            final(self).last == Some(new_tree),
            final(self).lifecycle is Connected,
            final(self).changes == old(self).changes,
            final(self).render_task == old(self).render_task,
            final(self).root.id == old(self).root.id,
            old(self).last matches Some(t) ==> (same_shape_seq(t.roots(), new_tree.roots())
                && tidy_seq(t.roots()) ==> no_mutations(r.ops.deep_view())),
            ({
                let prev_roots = match old(self).last {
                    Some(t) => t.roots(),
                    None => Seq::<vdom::NodeView>::empty(),
                };
                let b = crate::patch_dom::children_patch(
                    old(self).root.deep_view().children,
                    prev_roots,
                    new_tree.roots(),
                    old(self).root.id,
                    old(self).gen.next,
                );
                &&& r.ops.deep_view() == b.ops
                &&& final(self).root.deep_view().children == b.lives
                &&& final(self).gen.next == b.next
            }),
    {
        let mut ops: Vec<DomOp> = Vec::new();
        proof {
            assert(ops.deep_view() =~= Seq::<OpView>::empty());
        }
        let mut old_tree_opt: Option<VDom> = None;
        core::mem::swap(&mut old_tree_opt, &mut self.last);
        match old_tree_opt {
            Some(t) => {
                patch_dom(&mut self.root, &t, &new_tree, &mut self.gen, &mut ops);
            },
            None => {
                let empty_tree = VDom::new();
                patch_dom(&mut self.root, &empty_tree, &new_tree, &mut self.gen, &mut ops);
            },
        }
        proof {
            assert(ops.deep_view().skip(0) =~= ops.deep_view());
        }
        let tasks = collect_spawn_tasks(&ops);
        let mut aborted = tasks;
        core::mem::swap(&mut aborted, &mut self.live_tasks);
        let rendered = new_tree.on_rendered;
        proof {
            new_tree.lemma_tree_views();
        }
        self.last = Some(new_tree);
        CommitOutcome { ops, aborted_tasks: aborted, rendered }
    }

    /// Disconnects the component: the render loop is aborted, every live
    /// delivery task of the most recently committed tree is cancelled, a
    /// pending attribute reader is woken to observe end-of-stream, and the
    /// attribute snapshot is reset to the given default (the caller passes
    /// the type's fresh snapshot).
    pub fn disconnected(&mut self, reset: A) -> (r: DisconnectOutcome)
        ensures
            final(self).changes.director.attributes == reset,
            final(self).lifecycle is Disconnected,
            r.render_abort == old(self).render_task,
            final(self).render_task is None,
            r.wake_attr_reader == old(self).changes.director.waker,
            !final(self).changes.director.waker,
            final(self).changes.director.disconnected,
            r.aborted_tasks@ == old(self).live_tasks@,
            final(self).live_tasks@ == Seq::<u64>::empty(),
            final(self).last == old(self).last,
            final(self).root == old(self).root,
            final(self).gen == old(self).gen,
            old(self).wf() ==> final(self).wf(),
    {
        self.lifecycle = Lifecycle::Disconnected;
        let mut render_abort: Option<u64> = None;
        core::mem::swap(&mut render_abort, &mut self.render_task);
        let wake = self.changes.director.waker;
        self.changes.director.waker = false;
        self.changes.director.attributes = reset;
        self.changes.director.disconnected = true;
        let mut aborted: Vec<u64> = Vec::new();
        core::mem::swap(&mut aborted, &mut self.live_tasks);
        proof {
            assert(self.live_tasks@ =~= Seq::<u64>::empty());
        }
        DisconnectOutcome { render_abort, wake_attr_reader: wake, aborted_tasks: aborted }
    }
}

} // verus!
