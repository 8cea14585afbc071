//! The operations the reconciler performs on the live tree, recorded in
//! order as it patches. An embedder mirrors each operation onto the platform
//! tree; identifiers refer to live nodes, event sinks, delivery tasks and
//! node-capture handles.

use vstd::prelude::*;

verus! {

/// One mutation of, or notification about, the live tree.
pub enum DomOp {
    /// Update the character data of the text node `node` in place.
    SetText { node: u64, data: String },
    /// Set (add or update) an attribute of the element `node`.
    SetAttr { node: u64, name: String, value: String },
    /// Remove an attribute of the element `node`.
    RemoveAttr { node: u64, name: String },
    /// Set the live checked state of the form-control input `node`.
    SetChecked { node: u64, checked: bool },
    /// Replace the node `old_node` wholesale with the freshly built node
    /// `new_node`.
    ReplaceNode { old_node: u64, new_node: u64 },
    /// Remove the last child of the element `parent`.
    RemoveLastChild { parent: u64 },
    /// Append the freshly built node `child` after the children of the
    /// element `parent`.
    AppendChild { parent: u64, child: u64 },
    /// Begin delivering events to the sink `sink` from the committed node
    /// `target`, as the delivery task `task`.
    SpawnSink { task: u64, sink: u64, target: u64 },
    /// Fill the node-capture handle `handle` with the committed node
    /// `target`.
    FulfillRef { handle: u64, target: u64 },
}

/// The mathematical value of a [`DomOp`].
#[verifier::ext_equal]
pub ghost enum OpView {
    SetText { node: u64, data: Seq<char> },
    SetAttr { node: u64, name: Seq<char>, value: Seq<char> },
    RemoveAttr { node: u64, name: Seq<char> },
    SetChecked { node: u64, checked: bool },
    ReplaceNode { old_node: u64, new_node: u64 },
    RemoveLastChild { parent: u64 },
    AppendChild { parent: u64, child: u64 },
    SpawnSink { task: u64, sink: u64, target: u64 },
    FulfillRef { handle: u64, target: u64 },
}

impl DeepView for DomOp {
    type V = OpView;

    open spec fn deep_view(&self) -> OpView {
        match self {
            DomOp::SetText { node, data } => OpView::SetText { node: *node, data: data@ },
            DomOp::SetAttr { node, name, value } => OpView::SetAttr {
                node: *node,
                name: name@,
                value: value@,
            },
            DomOp::RemoveAttr { node, name } => OpView::RemoveAttr { node: *node, name: name@ },
            DomOp::SetChecked { node, checked } => OpView::SetChecked {
                node: *node,
                checked: *checked,
            },
            DomOp::ReplaceNode { old_node, new_node } => OpView::ReplaceNode {
                old_node: *old_node,
                new_node: *new_node,
            },
            DomOp::RemoveLastChild { parent } => OpView::RemoveLastChild { parent: *parent },
            DomOp::AppendChild { parent, child } => OpView::AppendChild {
                parent: *parent,
                child: *child,
            },
            DomOp::SpawnSink { task, sink, target } => OpView::SpawnSink {
                task: *task,
                sink: *sink,
                target: *target,
            },
            DomOp::FulfillRef { handle, target } => OpView::FulfillRef {
                handle: *handle,
                target: *target,
            },
        }
    }
}

/// Whether an operation mutates the live tree. Spawning a sink and filling a
/// capture handle only take note of a committed node.
pub open spec fn is_mutation(op: OpView) -> bool {
    !(op is SpawnSink || op is FulfillRef)
}

/// No operation in the sequence mutates the live tree.
pub open spec fn no_mutations(s: Seq<OpView>) -> bool {
    forall|i: int| 0 <= i < s.len() ==> !is_mutation(#[trigger] s[i])
}

/// The delivery task started by a spawn operation; zero for any other
/// operation.
pub open spec fn task_of(op: OpView) -> u64 {
    match op {
        OpView::SpawnSink { task, .. } => task,
        _ => 0,
    }
}

/// The sink a spawn operation delivers to; zero for any other operation.
pub open spec fn sink_of(op: OpView) -> u64 {
    match op {
        OpView::SpawnSink { sink, .. } => sink,
        _ => 0,
    }
}

/// The committed node a spawn or fulfill operation refers to; zero for any
/// other operation.
pub open spec fn target_of(op: OpView) -> u64 {
    match op {
        OpView::SpawnSink { target, .. } => target,
        OpView::FulfillRef { target, .. } => target,
        _ => 0,
    }
}

/// The delivery tasks started by the spawn operations of the sequence, in
/// order.
pub open spec fn spawned_tasks(s: Seq<OpView>) -> Seq<u64> {
    s.filter(|op: OpView| op is SpawnSink).map_values(|op: OpView| task_of(op))
}

/// One more operation extends the spawned tasks exactly when it is a spawn.
pub proof fn lemma_spawned_tasks_push(s: Seq<OpView>, op: OpView)
    ensures
        spawned_tasks(s.push(op)) == if op is SpawnSink {
            spawned_tasks(s).push(task_of(op))
        } else {
            spawned_tasks(s)
        },
{
    broadcast use vstd::prelude::Seq::lemma_filter_push;

    assert(s.push(op).drop_last() =~= s);
    assert(s.push(op).last() == op);
    if op is SpawnSink {
        assert(spawned_tasks(s.push(op)) =~= spawned_tasks(s).push(task_of(op)));
    } else {
        assert(spawned_tasks(s.push(op)) =~= spawned_tasks(s));
    }
}

/// The operations a sequence adds after a prefix it extends.
pub open spec fn added(pre: Seq<OpView>, post: Seq<OpView>) -> Seq<OpView> {
    post.skip(pre.len() as int)
}

/// A sequence extends its prefix.
pub open spec fn extends(pre: Seq<OpView>, post: Seq<OpView>) -> bool {
    &&& post.len() >= pre.len()
    &&& post.take(pre.len() as int) == pre
}

/// Collects the delivery tasks started by the spawn operations of the log,
/// in order: the tasks a later teardown must cancel.
pub fn collect_spawn_tasks(ops: &Vec<DomOp>) -> (r: Vec<u64>)
    ensures
        r@ == spawned_tasks(ops.deep_view()),
{
    let ghost all = ops.deep_view();
    let n = ops.len();
    let mut r: Vec<u64> = Vec::new();
    let mut i: usize = 0;
    proof {
        assert(all.take(0) =~= Seq::<OpView>::empty());
        assert(r@ =~= spawned_tasks(all.take(0)));
    }
    while i < n
        invariant
            0 <= i <= n,
            n == ops.len(),
            all == ops.deep_view(),
            all.len() == n,
            r@ == spawned_tasks(all.take(i as int)),
        decreases n - i,
    {
        let ghost t0 = all.take(i as int);
        let ghost t1 = all.take(i as int + 1);
        proof {
            assert(t1 =~= t0.push(all[i as int]));
            lemma_spawned_tasks_push(t0, all[i as int]);
        }
        if let DomOp::SpawnSink { task, .. } = &ops[i] {
            r.push(*task);
            proof {
                assert(all[i as int] is SpawnSink);
                assert(r@ =~= spawned_tasks(t1));
            }
        } else {
            proof {
                assert(!(all[i as int] is SpawnSink));
                assert(r@ =~= spawned_tasks(t1));
            }
        }
        i = i + 1;
    }
    proof {
        assert(all.take(n as int) =~= all);
    }
    r
}

/// Mutation-freedom carries over concatenation.
pub proof fn lemma_no_mutations_concat(a: Seq<OpView>, b: Seq<OpView>)
    requires
        no_mutations(a),
        no_mutations(b),
    ensures
        no_mutations(a + b),
{
    assert forall|i: int| 0 <= i < (a + b).len() implies !is_mutation((a + b)[i]) by {
        if i < a.len() {
            assert((a + b)[i] == a[i]);
        } else {
            assert((a + b)[i] == b[i - a.len()]);
        }
    }
}

/// Extension is transitive, and what a chain of extensions adds is the
/// concatenation of what each step added.
pub proof fn lemma_added_chain(a: Seq<OpView>, b: Seq<OpView>, c: Seq<OpView>)
    requires
        extends(a, b),
        extends(b, c),
    ensures
        extends(a, c),
        added(a, c) == added(a, b) + added(b, c),
{
    assert(c.take(a.len() as int) =~= a);
    assert(added(a, c) =~= added(a, b) + added(b, c));
}

} // verus!
