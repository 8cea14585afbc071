//! The reconciler: walks a previous and a next virtual tree in lockstep,
//! decides per node whether to patch the live node in place or replace it
//! wholesale, and applies the resulting operations to the live tree model
//! while recording them in order.

use vstd::prelude::*;

use crate::caseless::{ascii_caseless_eq, eq_ascii};
use crate::live::{
    IdGen, LiveElemView, LiveElement, LiveNode, LiveText, LiveTextView, LiveView, bump,
    lemma_live_nodes_deep, live_nodes_deep,
};
use crate::ops::{
    DomOp, OpView, added, extends, is_mutation, lemma_added_chain, lemma_no_mutations_concat,
    no_mutations, sink_of, target_of,
};
use crate::vdom::{
    Attr, AttrView, ElemView, NodeView, VDom, VElement, VNode, lemma_vnodes_deep, vnodes_deep,
};

verus! {

// ---------------------------------------------------------------------------
// Attribute lookup
// ---------------------------------------------------------------------------

/// The value of the first attribute with the given name, if any.
pub open spec fn find_value(attrs: Seq<AttrView>, name: Seq<char>) -> Option<Seq<char>>
    decreases attrs.len(),
{
    if attrs.len() == 0 {
        None
    } else if attrs[0].name == name {
        Some(attrs[0].value)
    } else {
        find_value(attrs.skip(1), name)
    }
}

/// Whether some attribute of the list carries the given name.
pub open spec fn has_name(attrs: Seq<AttrView>, name: Seq<char>) -> bool {
    find_value(attrs, name) is Some
}

/// A next-tree attribute is set (added or updated) unless the first
/// previous attribute of the same name carries the same value.
pub open spec fn should_set(old_attrs: Seq<AttrView>, a: AttrView) -> bool {
    find_value(old_attrs, a.name) != Some(a.value)
}

/// Whether the name is the special-cased "checked" attribute, compared
/// ignoring ASCII case.
pub open spec fn is_checked_name(name: Seq<char>) -> bool {
    ascii_caseless_eq(name, "checked"@)
}

proof fn lemma_find_value_found(attrs: Seq<AttrView>, name: Seq<char>, i: int)
    requires
        0 <= i < attrs.len(),
        attrs[i].name == name,
        forall|j: int| 0 <= j < i ==> attrs[j].name != name,
    ensures
        find_value(attrs, name) == Some(attrs[i].value),
    decreases i,
{
    if i > 0 {
        lemma_find_value_found(attrs.skip(1), name, i - 1);
    }
}

proof fn lemma_find_value_missing(attrs: Seq<AttrView>, name: Seq<char>)
    requires
        forall|j: int| 0 <= j < attrs.len() ==> attrs[j].name != name,
    ensures
        find_value(attrs, name) is None,
    decreases attrs.len(),
{
    if attrs.len() > 0 {
        lemma_find_value_missing(attrs.skip(1), name);
    }
}

/// Returns the value of the first attribute with the given name, if any.
fn find_attr(attrs: &Vec<Attr>, name: &String) -> (r: Option<String>)
    ensures
        r.deep_view() == find_value(attrs.deep_view(), name@),
{
    let n = attrs.len();
    let mut i: usize = 0;
    while i < n
        invariant
            0 <= i <= n,
            n == attrs.len(),
            forall|j: int| 0 <= j < i ==> attrs.deep_view()[j].name != name@,
        decreases n - i,
    {
        if attrs[i].name == *name {
            proof {
                lemma_find_value_found(attrs.deep_view(), name@, i as int);
            }
            return Some(attrs[i].value.clone());
        }
        i = i + 1;
    }
    proof {
        lemma_find_value_missing(attrs.deep_view(), name@);
    }
    None
}

// ---------------------------------------------------------------------------
// The attribute diff, as a sequence of operations
// ---------------------------------------------------------------------------

/// The operations emitted when attribute `a` is set on element `eid`: the
/// set itself and, for the "checked" attribute on a form-control input, the
/// explicit update of the control's live checked state.
pub open spec fn set_ops(eid: u64, a: AttrView, is_input: bool) -> Seq<OpView> {
    if is_checked_name(a.name) && is_input {
        seq![
            OpView::SetAttr { node: eid, name: a.name, value: a.value },
            OpView::SetChecked { node: eid, checked: true },
        ]
    } else {
        seq![OpView::SetAttr { node: eid, name: a.name, value: a.value }]
    }
}

/// The operations emitted when attribute `a` is removed from element `eid`.
pub open spec fn remove_ops(eid: u64, a: AttrView, is_input: bool) -> Seq<OpView> {
    if is_checked_name(a.name) && is_input {
        seq![
            OpView::RemoveAttr { node: eid, name: a.name },
            OpView::SetChecked { node: eid, checked: false },
        ]
    } else {
        seq![OpView::RemoveAttr { node: eid, name: a.name }]
    }
}

/// The set operations of the attribute diff: one per next-tree attribute
/// that is not skipped, in attribute-list order.
pub open spec fn set_part(
    eid: u64,
    old_attrs: Seq<AttrView>,
    new_attrs: Seq<AttrView>,
    is_input: bool,
) -> Seq<OpView>
    decreases new_attrs.len(),
{
    if new_attrs.len() == 0 {
        Seq::empty()
    } else {
        let prefix = set_part(eid, old_attrs, new_attrs.subrange(0, new_attrs.len() - 1), is_input);
        let a = new_attrs[new_attrs.len() - 1];
        if should_set(old_attrs, a) {
            prefix + set_ops(eid, a, is_input)
        } else {
            prefix
        }
    }
}

/// The remove operations of the attribute diff: one per previous attribute
/// whose name is absent from the next list, in attribute-list order.
pub open spec fn remove_part(
    eid: u64,
    old_attrs: Seq<AttrView>,
    new_attrs: Seq<AttrView>,
    is_input: bool,
) -> Seq<OpView>
    decreases old_attrs.len(),
{
    if old_attrs.len() == 0 {
        Seq::empty()
    } else {
        let prefix = remove_part(
            eid,
            old_attrs.subrange(0, old_attrs.len() - 1),
            new_attrs,
            is_input,
        );
        let a = old_attrs[old_attrs.len() - 1];
        if !has_name(new_attrs, a.name) {
            prefix + remove_ops(eid, a, is_input)
        } else {
            prefix
        }
    }
}

/// The whole attribute diff between a previous and a next attribute list:
/// all sets, then all removes.
pub open spec fn attr_diff_ops(
    eid: u64,
    old_attrs: Seq<AttrView>,
    new_attrs: Seq<AttrView>,
    is_input: bool,
) -> Seq<OpView> {
    set_part(eid, old_attrs, new_attrs, is_input) + remove_part(eid, old_attrs, new_attrs, is_input)
}

// ---------------------------------------------------------------------------
// Applying attribute operations to a live element
// ---------------------------------------------------------------------------

/// A live attribute list after a set: the first attribute of the given name
/// takes the new value, or the attribute is appended if the name is absent.
pub open spec fn set_attr_in(attrs: Seq<AttrView>, name: Seq<char>, value: Seq<char>) -> Seq<
    AttrView,
>
    decreases attrs.len(),
{
    if attrs.len() == 0 {
        seq![AttrView { name, value }]
    } else if attrs[0].name == name {
        attrs.update(0, AttrView { name, value })
    } else {
        seq![attrs[0]] + set_attr_in(attrs.skip(1), name, value)
    }
}

/// A live attribute list after a removal: the first attribute of the given
/// name is gone.
pub open spec fn remove_attr_in(attrs: Seq<AttrView>, name: Seq<char>) -> Seq<AttrView>
    decreases attrs.len(),
{
    if attrs.len() == 0 {
        Seq::empty()
    } else if attrs[0].name == name {
        attrs.skip(1)
    } else {
        seq![attrs[0]] + remove_attr_in(attrs.skip(1), name)
    }
}

/// A live element after one attribute operation. Operations of other kinds
/// leave the element as it is.
pub open spec fn apply_attr_op(e: LiveElemView, op: OpView) -> LiveElemView {
    match op {
        OpView::SetAttr { node, name, value } => LiveElemView {
            attributes: set_attr_in(e.attributes, name, value),
            ..e
        },
        OpView::RemoveAttr { node, name } => LiveElemView {
            attributes: remove_attr_in(e.attributes, name),
            ..e
        },
        OpView::SetChecked { node, checked } => LiveElemView { checked, ..e },
        _ => e,
    }
}

/// A live element after a sequence of attribute operations, applied in
/// order.
pub open spec fn apply_attr_ops(e: LiveElemView, ops: Seq<OpView>) -> LiveElemView
    decreases ops.len(),
{
    if ops.len() == 0 {
        e
    } else {
        apply_attr_op(apply_attr_ops(e, ops.subrange(0, ops.len() - 1)), ops[ops.len() - 1])
    }
}

/// Applying a concatenation applies the two parts in turn.
pub proof fn lemma_apply_attr_ops_concat(e: LiveElemView, a: Seq<OpView>, b: Seq<OpView>)
    ensures
        apply_attr_ops(e, a + b) == apply_attr_ops(apply_attr_ops(e, a), b),
    decreases b.len(),
{
    if b.len() == 0 {
        assert(a + b =~= a);
    } else {
        let b0 = b.subrange(0, b.len() - 1);
        lemma_apply_attr_ops_concat(e, a, b0);
        assert((a + b).subrange(0, (a + b).len() - 1) =~= a + b0);
        assert((a + b)[(a + b).len() - 1] == b[b.len() - 1]);
    }
}

proof fn lemma_apply_one(e: LiveElemView, op: OpView)
    ensures
        apply_attr_ops(e, seq![op]) == apply_attr_op(e, op),
{
    assert(seq![op].subrange(0, 0) =~= Seq::<OpView>::empty());
    assert(apply_attr_ops(e, Seq::<OpView>::empty()) == e);
}

proof fn lemma_apply_two(e: LiveElemView, op1: OpView, op2: OpView)
    ensures
        apply_attr_ops(e, seq![op1, op2]) == apply_attr_op(apply_attr_op(e, op1), op2),
{
    assert(seq![op1, op2].subrange(0, 1) =~= seq![op1]);
    lemma_apply_one(e, op1);
}

/// Attribute operations touch only the attribute list and the checked state.
pub proof fn lemma_apply_attr_ops_frame(e: LiveElemView, ops: Seq<OpView>)
    ensures
        apply_attr_ops(e, ops).id == e.id,
        apply_attr_ops(e, ops).tag_name == e.tag_name,
        apply_attr_ops(e, ops).is == e.is,
        apply_attr_ops(e, ops).is_input == e.is_input,
        apply_attr_ops(e, ops).children == e.children,
    decreases ops.len(),
{
    if ops.len() > 0 {
        lemma_apply_attr_ops_frame(e, ops.subrange(0, ops.len() - 1));
    }
}

proof fn lemma_set_attr_in_found(s: Seq<AttrView>, name: Seq<char>, value: Seq<char>, i: int)
    requires
        0 <= i < s.len(),
        s[i].name == name,
        forall|j: int| 0 <= j < i ==> s[j].name != name,
    ensures
        set_attr_in(s, name, value) == s.update(i, AttrView { name, value }),
    decreases i,
{
    if i == 0 {
    } else {
        lemma_set_attr_in_found(s.skip(1), name, value, i - 1);
        assert(seq![s[0]] + s.skip(1).update(i - 1, AttrView { name, value }) =~= s.update(
            i,
            AttrView { name, value },
        ));
    }
}

proof fn lemma_set_attr_in_missing(s: Seq<AttrView>, name: Seq<char>, value: Seq<char>)
    requires
        forall|j: int| 0 <= j < s.len() ==> s[j].name != name,
    ensures
        set_attr_in(s, name, value) == s.push(AttrView { name, value }),
    decreases s.len(),
{
    if s.len() == 0 {
        assert(set_attr_in(s, name, value) =~= s.push(AttrView { name, value }));
    } else {
        lemma_set_attr_in_missing(s.skip(1), name, value);
        assert(seq![s[0]] + s.skip(1).push(AttrView { name, value }) =~= s.push(
            AttrView { name, value },
        ));
    }
}

proof fn lemma_remove_attr_in_found(s: Seq<AttrView>, name: Seq<char>, i: int)
    requires
        0 <= i < s.len(),
        s[i].name == name,
        forall|j: int| 0 <= j < i ==> s[j].name != name,
    ensures
        remove_attr_in(s, name) == s.remove(i),
    decreases i,
{
    if i == 0 {
        assert(s.skip(1) =~= s.remove(0));
    } else {
        lemma_remove_attr_in_found(s.skip(1), name, i - 1);
        assert(seq![s[0]] + s.skip(1).remove(i - 1) =~= s.remove(i));
    }
}

proof fn lemma_remove_attr_in_missing(s: Seq<AttrView>, name: Seq<char>)
    requires
        forall|j: int| 0 <= j < s.len() ==> s[j].name != name,
    ensures
        remove_attr_in(s, name) == s,
    decreases s.len(),
{
    if s.len() == 0 {
        assert(remove_attr_in(s, name) =~= s);
    } else {
        lemma_remove_attr_in_missing(s.skip(1), name);
        assert(seq![s[0]] + s.skip(1) =~= s);
    }
}

/// Sets an attribute in a live attribute list: the first attribute of the
/// given name takes the new value, or the pair is appended.
fn live_set_attr(attrs: &mut Vec<Attr>, name: &String, value: &String)
    ensures
        final(attrs).deep_view() == set_attr_in(old(attrs).deep_view(), name@, value@),
{
    let ghost pre = attrs.deep_view();
    let n = attrs.len();
    let mut i: usize = 0;
    let mut found = false;
    while i < n && !found
        invariant
            0 <= i <= n,
            n == attrs.len(),
            attrs.deep_view() == pre,
            forall|j: int| 0 <= j < i ==> pre[j].name != name@,
            found ==> i < n && pre[i as int].name == name@,
        decreases n - i, (if found { 0int } else { 1int }),
    {
        if attrs[i].name == *name {
            found = true;
        } else {
            i = i + 1;
        }
    }
    if found {
        attrs[i].value = value.clone();
        proof {
            lemma_set_attr_in_found(pre, name@, value@, i as int);
            assert(attrs.deep_view() =~= pre.update(
                i as int,
                AttrView { name: name@, value: value@ },
            ));
        }
    } else {
        attrs.push(Attr { name: name.clone(), value: value.clone() });
        proof {
            lemma_set_attr_in_missing(pre, name@, value@);
            assert(attrs.deep_view() =~= pre.push(AttrView { name: name@, value: value@ }));
        }
    }
}

/// Removes the first attribute of the given name from a live attribute
/// list, if present.
fn live_remove_attr(attrs: &mut Vec<Attr>, name: &String)
    ensures
        final(attrs).deep_view() == remove_attr_in(old(attrs).deep_view(), name@),
{
    let ghost pre = attrs.deep_view();
    let n = attrs.len();
    let mut i: usize = 0;
    let mut found = false;
    while i < n && !found
        invariant
            0 <= i <= n,
            n == attrs.len(),
            attrs.deep_view() == pre,
            forall|j: int| 0 <= j < i ==> pre[j].name != name@,
            found ==> i < n && pre[i as int].name == name@,
        decreases n - i, (if found { 0int } else { 1int }),
    {
        if attrs[i].name == *name {
            found = true;
        } else {
            i = i + 1;
        }
    }
    if found {
        attrs.remove(i);
        proof {
            lemma_remove_attr_in_found(pre, name@, i as int);
            assert(attrs.deep_view() =~= pre.remove(i as int));
        }
    } else {
        proof {
            lemma_remove_attr_in_missing(pre, name@);
        }
    }
}

// ---------------------------------------------------------------------------
// The attribute patch
// ---------------------------------------------------------------------------

/// Patches the attributes of a live element from the previous to the next
/// virtual attribute list: sets every next attribute that is not an
/// unchanged-value match, then removes every previous attribute whose name
/// is absent from the next list. Adding or removing a "checked" attribute on
/// a form-control input also updates the control's live checked state. Every
/// operation performed is appended to `ops` in order.
pub fn patch_attributes(
    el: &mut LiveElement,
    old_attrs: &Vec<Attr>,
    new_attrs: &Vec<Attr>,
    ops: &mut Vec<DomOp>,
)
    ensures
        final(ops).deep_view() == old(ops).deep_view() + attr_diff_ops(
            old(el).id,
            old_attrs.deep_view(),
            new_attrs.deep_view(),
            old(el).is_input,
        ),
        final(el).deep_view() == apply_attr_ops(
            old(el).deep_view(),
            attr_diff_ops(
                old(el).id,
                old_attrs.deep_view(),
                new_attrs.deep_view(),
                old(el).is_input,
            ),
        ),
{
    let eid = el.id;
    let inp = el.is_input;
    let ghost e0 = el.deep_view();
    let ghost base = ops.deep_view();
    let ghost ov = old_attrs.deep_view();
    let ghost nv = new_attrs.deep_view();

    let n_new = new_attrs.len();
    let mut i: usize = 0;
    while i < n_new
        invariant
            0 <= i <= n_new,
            n_new == new_attrs.len(),
            eid == e0.id,
            inp == e0.is_input,
            ov == old_attrs.deep_view(),
            nv == new_attrs.deep_view(),
            e0 == old(el).deep_view(),
            base == old(ops).deep_view(),
            ops.deep_view() == base + set_part(eid, ov, nv.take(i as int), inp),
            el.deep_view() == apply_attr_ops(e0, set_part(eid, ov, nv.take(i as int), inp)),
        decreases n_new - i,
    {
        let ghost sp_pre = set_part(eid, ov, nv.take(i as int), inp);
        let ghost e_pre = el.deep_view();
        proof {
            assert(nv.take(i as int + 1).subrange(0, i as int) =~= nv.take(i as int));
            assert(nv.take(i as int + 1)[i as int] == nv[i as int]);
        }
        let a = &new_attrs[i];
        let cur = find_attr(old_attrs, &a.name);
        let do_set = match &cur {
            Some(v) => !(*v == a.value),
            None => true,
        };
        proof {
            assert(do_set == should_set(ov, nv[i as int]));
        }
        if do_set {
            live_set_attr(&mut el.attributes, &a.name, &a.value);
            ops.push(DomOp::SetAttr { node: eid, name: a.name.clone(), value: a.value.clone() });
            let checked_name = eq_ascii(a.name.as_str(), "checked");
            if checked_name && inp {
                el.checked = true;
                ops.push(DomOp::SetChecked { node: eid, checked: true });
            }
            proof {
                let sops = set_ops(eid, nv[i as int], inp);
                assert(ops.deep_view() =~= base + sp_pre + sops);
                assert(base + sp_pre + sops =~= base + (sp_pre + sops));
                assert(set_part(eid, ov, nv.take(i as int + 1), inp) == sp_pre + sops);
                lemma_apply_attr_ops_concat(e0, sp_pre, sops);
                if checked_name && inp {
                    lemma_apply_two(
                        e_pre,
                        OpView::SetAttr {
                            node: eid,
                            name: nv[i as int].name,
                            value: nv[i as int].value,
                        },
                        OpView::SetChecked { node: eid, checked: true },
                    );
                } else {
                    lemma_apply_one(
                        e_pre,
                        OpView::SetAttr {
                            node: eid,
                            name: nv[i as int].name,
                            value: nv[i as int].value,
                        },
                    );
                }
                assert(el.deep_view() =~~= apply_attr_ops(e_pre, sops));
            }
        } else {
            proof {
                assert(set_part(eid, ov, nv.take(i as int + 1), inp) == sp_pre);
            }
        }
        i = i + 1;
    }
    proof {
        assert(nv.take(n_new as int) =~= nv);
    }

    let ghost sp_full = set_part(eid, ov, nv, inp);
    let n_old = old_attrs.len();
    let mut j: usize = 0;
    while j < n_old
        invariant
            0 <= j <= n_old,
            n_old == old_attrs.len(),
            eid == e0.id,
            inp == e0.is_input,
            ov == old_attrs.deep_view(),
            nv == new_attrs.deep_view(),
            e0 == old(el).deep_view(),
            base == old(ops).deep_view(),
            sp_full == set_part(eid, ov, nv, inp),
            ops.deep_view() == base + (sp_full + remove_part(eid, ov.take(j as int), nv, inp)),
            el.deep_view() == apply_attr_ops(
                e0,
                sp_full + remove_part(eid, ov.take(j as int), nv, inp),
            ),
        decreases n_old - j,
    {
        let ghost done_pre = sp_full + remove_part(eid, ov.take(j as int), nv, inp);
        let ghost e_pre = el.deep_view();
        proof {
            assert(ov.take(j as int + 1).subrange(0, j as int) =~= ov.take(j as int));
            assert(ov.take(j as int + 1)[j as int] == ov[j as int]);
        }
        let a = &old_attrs[j];
        let cur = find_attr(new_attrs, &a.name);
        if cur.is_none() {
            live_remove_attr(&mut el.attributes, &a.name);
            ops.push(DomOp::RemoveAttr { node: eid, name: a.name.clone() });
            let checked_name = eq_ascii(a.name.as_str(), "checked");
            if checked_name && inp {
                el.checked = false;
                ops.push(DomOp::SetChecked { node: eid, checked: false });
            }
            proof {
                let rops = remove_ops(eid, ov[j as int], inp);
                assert(!has_name(nv, ov[j as int].name));
                assert(ops.deep_view() =~= base + done_pre + rops);
                assert(base + done_pre + rops =~= base + (done_pre + rops));
                assert(sp_full + remove_part(eid, ov.take(j as int + 1), nv, inp) =~= done_pre
                    + rops);
                lemma_apply_attr_ops_concat(e0, done_pre, rops);
                if checked_name && inp {
                    lemma_apply_two(
                        e_pre,
                        OpView::RemoveAttr { node: eid, name: ov[j as int].name },
                        OpView::SetChecked { node: eid, checked: false },
                    );
                } else {
                    lemma_apply_one(
                        e_pre,
                        OpView::RemoveAttr { node: eid, name: ov[j as int].name },
                    );
                }
                assert(el.deep_view() =~~= apply_attr_ops(e_pre, rops));
            }
        } else {
            proof {
                assert(has_name(nv, ov[j as int].name));
                assert(remove_part(eid, ov.take(j as int + 1), nv, inp) == remove_part(
                    eid,
                    ov.take(j as int),
                    nv,
                    inp,
                ));
            }
        }
        j = j + 1;
    }
    proof {
        assert(ov.take(n_old as int) =~= ov);
        assert(base + (sp_full + remove_part(eid, ov, nv, inp)) =~= base + attr_diff_ops(
            eid,
            ov,
            nv,
            inp,
        ));
    }
}

// ---------------------------------------------------------------------------
// Laws of the attribute diff
// ---------------------------------------------------------------------------

/// No two attributes of the list share a name.
pub open spec fn distinct_attr_names(attrs: Seq<AttrView>) -> bool {
    forall|i: int, j: int| 0 <= i < j < attrs.len() ==> attrs[i].name != attrs[j].name
}

proof fn lemma_has_name_at(attrs: Seq<AttrView>, i: int)
    requires
        0 <= i < attrs.len(),
    ensures
        has_name(attrs, attrs[i].name),
    decreases i,
{
    if attrs[0].name == attrs[i].name {
    } else {
        lemma_has_name_at(attrs.skip(1), i - 1);
    }
}

proof fn lemma_has_name_exists(attrs: Seq<AttrView>, name: Seq<char>)
    requires
        has_name(attrs, name),
    ensures
        exists|j: int| 0 <= j < attrs.len() && attrs[j].name == name,
    decreases attrs.len(),
{
    if attrs[0].name == name {
        assert(attrs[0].name == name);
    } else {
        lemma_has_name_exists(attrs.skip(1), name);
        let j = choose|j: int| 0 <= j < attrs.skip(1).len() && attrs.skip(1)[j].name == name;
        assert(attrs[j + 1].name == name);
    }
}

proof fn lemma_set_part_identical(eid: u64, attrs: Seq<AttrView>, k: int, is_input: bool)
    requires
        distinct_attr_names(attrs),
        0 <= k <= attrs.len(),
    ensures
        set_part(eid, attrs, attrs.take(k), is_input) == Seq::<OpView>::empty(),
    decreases k,
{
    if k > 0 {
        lemma_set_part_identical(eid, attrs, k - 1, is_input);
        assert(attrs.take(k).subrange(0, k - 1) =~= attrs.take(k - 1));
        assert(attrs.take(k)[k - 1] == attrs[k - 1]);
        lemma_find_value_found(attrs, attrs[k - 1].name, k - 1);
        assert(!should_set(attrs, attrs[k - 1]));
    }
}

proof fn lemma_remove_part_identical(eid: u64, attrs: Seq<AttrView>, k: int, is_input: bool)
    requires
        0 <= k <= attrs.len(),
    ensures
        remove_part(eid, attrs.take(k), attrs, is_input) == Seq::<OpView>::empty(),
    decreases k,
{
    if k > 0 {
        lemma_remove_part_identical(eid, attrs, k - 1, is_input);
        assert(attrs.take(k).subrange(0, k - 1) =~= attrs.take(k - 1));
        assert(attrs.take(k)[k - 1] == attrs[k - 1]);
        lemma_has_name_at(attrs, k - 1);
    }
}

/// Diffing an attribute list against an identical one yields no operations,
/// provided no two attributes share a name.
pub proof fn lemma_attr_diff_identical(eid: u64, attrs: Seq<AttrView>, is_input: bool)
    requires
        distinct_attr_names(attrs),
    ensures
        attr_diff_ops(eid, attrs, attrs, is_input) == Seq::<OpView>::empty(),
{
    lemma_set_part_identical(eid, attrs, attrs.len() as int, is_input);
    lemma_remove_part_identical(eid, attrs, attrs.len() as int, is_input);
    assert(attrs.take(attrs.len() as int) =~= attrs);
    assert(set_part(eid, attrs, attrs, is_input) + remove_part(eid, attrs, attrs, is_input)
        =~= Seq::<OpView>::empty());
}

proof fn lemma_apply_keeps_checked(e: LiveElemView, s: Seq<OpView>)
    requires
        forall|i: int| 0 <= i < s.len() ==> !(#[trigger] s[i] is SetChecked),
    ensures
        apply_attr_ops(e, s).checked == e.checked,
    decreases s.len(),
{
    if s.len() > 0 {
        lemma_apply_keeps_checked(e, s.subrange(0, s.len() - 1));
    }
}

proof fn lemma_set_part_checked(
    eid: u64,
    old_attrs: Seq<AttrView>,
    new_attrs: Seq<AttrView>,
    e: LiveElemView,
    k: int,
)
    requires
        0 <= k <= new_attrs.len(),
    ensures
        apply_attr_ops(e, set_part(eid, old_attrs, new_attrs.take(k), true)).checked == if exists|
            j: int,
        |
            0 <= j < k && is_checked_name(#[trigger] new_attrs[j].name) && should_set(
                old_attrs,
                new_attrs[j],
            ) {
            true
        } else {
            e.checked
        },
    decreases k,
{
    if k > 0 {
        lemma_set_part_checked(eid, old_attrs, new_attrs, e, k - 1);
        assert(new_attrs.take(k).subrange(0, k - 1) =~= new_attrs.take(k - 1));
        assert(new_attrs.take(k)[k - 1] == new_attrs[k - 1]);
        let sp_pre = set_part(eid, old_attrs, new_attrs.take(k - 1), true);
        let a = new_attrs[k - 1];
        if should_set(old_attrs, a) {
            lemma_apply_attr_ops_concat(e, sp_pre, set_ops(eid, a, true));
            let e_pre = apply_attr_ops(e, sp_pre);
            if is_checked_name(a.name) {
                lemma_apply_two(
                    e_pre,
                    OpView::SetAttr { node: eid, name: a.name, value: a.value },
                    OpView::SetChecked { node: eid, checked: true },
                );
                assert(is_checked_name(new_attrs[k - 1].name) && should_set(
                    old_attrs,
                    new_attrs[k - 1],
                ));
            } else {
                lemma_apply_one(e_pre, OpView::SetAttr { node: eid, name: a.name, value: a.value });
            }
        }
    } else {
        assert(new_attrs.take(0) =~= Seq::<AttrView>::empty());
    }
}

proof fn lemma_remove_part_checked(
    eid: u64,
    old_attrs: Seq<AttrView>,
    new_attrs: Seq<AttrView>,
    e: LiveElemView,
    k: int,
)
    requires
        0 <= k <= old_attrs.len(),
    ensures
        apply_attr_ops(e, remove_part(eid, old_attrs.take(k), new_attrs, true)).checked == if
            exists|j: int|
            0 <= j < k && is_checked_name(#[trigger] old_attrs[j].name) && !has_name(
                new_attrs,
                old_attrs[j].name,
            ) {
            false
        } else {
            e.checked
        },
    decreases k,
{
    if k > 0 {
        lemma_remove_part_checked(eid, old_attrs, new_attrs, e, k - 1);
        assert(old_attrs.take(k).subrange(0, k - 1) =~= old_attrs.take(k - 1));
        assert(old_attrs.take(k)[k - 1] == old_attrs[k - 1]);
        let rp_pre = remove_part(eid, old_attrs.take(k - 1), new_attrs, true);
        let a = old_attrs[k - 1];
        if !has_name(new_attrs, a.name) {
            lemma_apply_attr_ops_concat(e, rp_pre, remove_ops(eid, a, true));
            let e_pre = apply_attr_ops(e, rp_pre);
            if is_checked_name(a.name) {
                lemma_apply_two(
                    e_pre,
                    OpView::RemoveAttr { node: eid, name: a.name },
                    OpView::SetChecked { node: eid, checked: false },
                );
                assert(is_checked_name(old_attrs[k - 1].name) && !has_name(
                    new_attrs,
                    old_attrs[k - 1].name,
                ));
            } else {
                lemma_apply_one(e_pre, OpView::RemoveAttr { node: eid, name: a.name });
            }
        }
    } else {
        assert(old_attrs.take(0) =~= Seq::<AttrView>::empty());
    }
}

/// Adding a "checked" attribute to a form-control input leaves the
/// control's live checked state set, whatever it was before, as long as no
/// previous "checked"-named attribute is removed by the same diff.
pub proof fn lemma_checked_set_on_add(
    eid: u64,
    old_attrs: Seq<AttrView>,
    new_attrs: Seq<AttrView>,
    e: LiveElemView,
)
    requires
        e.is_input,
        exists|j: int|
            0 <= j < new_attrs.len() && is_checked_name(#[trigger] new_attrs[j].name)
                && should_set(old_attrs, new_attrs[j]),
        forall|k: int|
            0 <= k < old_attrs.len() ==> !(is_checked_name(#[trigger] old_attrs[k].name)
                && !has_name(new_attrs, old_attrs[k].name)),
    ensures
        apply_attr_ops(e, attr_diff_ops(eid, old_attrs, new_attrs, e.is_input)).checked,
{
    let sp = set_part(eid, old_attrs, new_attrs, true);
    let rp = remove_part(eid, old_attrs, new_attrs, true);
    lemma_apply_attr_ops_concat(e, sp, rp);
    assert(new_attrs.take(new_attrs.len() as int) =~= new_attrs);
    lemma_set_part_checked(eid, old_attrs, new_attrs, e, new_attrs.len() as int);
    assert(apply_attr_ops(e, sp).checked);
    assert(old_attrs.take(old_attrs.len() as int) =~= old_attrs);
    lemma_remove_part_checked(eid, old_attrs, new_attrs, apply_attr_ops(e, sp), old_attrs.len() as int);
}

/// Removing the "checked" attribute of a form-control input leaves the
/// control's live checked state cleared, whatever it was before, as long as
/// the next tree carries no "checked"-named attribute.
pub proof fn lemma_checked_cleared_on_remove(
    eid: u64,
    old_attrs: Seq<AttrView>,
    new_attrs: Seq<AttrView>,
    e: LiveElemView,
)
    requires
        e.is_input,
        exists|k: int| 0 <= k < old_attrs.len() && is_checked_name(#[trigger] old_attrs[k].name),
        forall|j: int| 0 <= j < new_attrs.len() ==> !is_checked_name(#[trigger] new_attrs[j].name),
    ensures
        !apply_attr_ops(e, attr_diff_ops(eid, old_attrs, new_attrs, e.is_input)).checked,
{
    let sp = set_part(eid, old_attrs, new_attrs, true);
    let rp = remove_part(eid, old_attrs, new_attrs, true);
    lemma_apply_attr_ops_concat(e, sp, rp);
    let k = choose|k: int|
        0 <= k < old_attrs.len() && is_checked_name(#[trigger] old_attrs[k].name);
    if has_name(new_attrs, old_attrs[k].name) {
        lemma_has_name_exists(new_attrs, old_attrs[k].name);
        let j = choose|j: int|
            0 <= j < new_attrs.len() && new_attrs[j].name == old_attrs[k].name;
        assert(is_checked_name(new_attrs[j].name));
        assert(false);
    }
    assert(old_attrs.take(old_attrs.len() as int) =~= old_attrs);
    lemma_remove_part_checked(
        eid,
        old_attrs,
        new_attrs,
        apply_attr_ops(e, sp),
        old_attrs.len() as int,
    );
}

proof fn lemma_find_value_push(s: Seq<AttrView>, x: AttrView, nm: Seq<char>)
    ensures
        find_value(s.push(x), nm) == if find_value(s, nm) is Some {
            find_value(s, nm)
        } else if x.name == nm {
            Some(x.value)
        } else {
            None
        },
    decreases s.len(),
{
    if s.len() == 0 {
        assert(s.push(x).skip(1) =~= Seq::<AttrView>::empty());
        assert(find_value(Seq::<AttrView>::empty(), nm) is None);
        assert(find_value(s, nm) is None);
        assert(s.push(x)[0] == x);
    } else {
        lemma_find_value_push(s.skip(1), x, nm);
        assert(s.push(x).skip(1) =~= s.skip(1).push(x));
        assert(s.push(x)[0] == s[0]);
    }
}

proof fn lemma_find_after_set(s: Seq<AttrView>, m: Seq<char>, v: Seq<char>, nm: Seq<char>)
    requires
        distinct_attr_names(s),
    ensures
        distinct_attr_names(set_attr_in(s, m, v)),
        find_value(set_attr_in(s, m, v), nm) == if nm == m {
            Some(v)
        } else {
            find_value(s, nm)
        },
{
    if has_name(s, m) {
        lemma_has_name_exists(s, m);
        let i = choose|i: int| 0 <= i < s.len() && s[i].name == m;
        assert forall|j: int| 0 <= j < i implies s[j].name != m by {}
        lemma_set_attr_in_found(s, m, v, i);
        let t = s.update(i, AttrView { name: m, value: v });
        assert forall|w: int| 0 <= w < t.len() implies #[trigger] t[w].name == s[w].name by {}
        assert(distinct_attr_names(t));
        if nm == m {
            lemma_find_value_found(t, nm, i);
        } else {
            if has_name(s, nm) {
                lemma_has_name_exists(s, nm);
                let u = choose|u: int| 0 <= u < s.len() && s[u].name == nm;
                assert forall|j: int| 0 <= j < u implies s[j].name != nm by {}
                lemma_find_value_found(s, nm, u);
                assert forall|j: int| 0 <= j < u implies t[j].name != nm by {}
                assert(u != i);
                lemma_find_value_found(t, nm, u);
            } else {
                assert forall|j: int| 0 <= j < s.len() implies #[trigger] s[j].name != nm by {
                    if s[j].name == nm {
                        lemma_has_name_at(s, j);
                    }
                }
                lemma_find_value_missing(s, nm);
                lemma_find_value_missing(t, nm);
            }
        }
    } else {
        assert forall|j: int| 0 <= j < s.len() implies #[trigger] s[j].name != m by {
            if s[j].name == m {
                lemma_has_name_at(s, j);
            }
        }
        lemma_set_attr_in_missing(s, m, v);
        let t = s.push(AttrView { name: m, value: v });
        assert(distinct_attr_names(t));
        lemma_find_value_push(s, AttrView { name: m, value: v }, nm);
        if nm == m {
            lemma_find_value_missing(s, nm);
        }
    }
}

proof fn lemma_find_after_remove(s: Seq<AttrView>, m: Seq<char>, nm: Seq<char>)
    requires
        distinct_attr_names(s),
    ensures
        distinct_attr_names(remove_attr_in(s, m)),
        find_value(remove_attr_in(s, m), nm) == if nm == m {
            None
        } else {
            find_value(s, nm)
        },
{
    if has_name(s, m) {
        lemma_has_name_exists(s, m);
        let i = choose|i: int| 0 <= i < s.len() && s[i].name == m;
        assert forall|j: int| 0 <= j < i implies s[j].name != m by {}
        lemma_remove_attr_in_found(s, m, i);
        let t = s.remove(i);
        assert(t =~= s.subrange(0, i) + s.subrange(i + 1, s.len() as int));
        assert forall|w: int| 0 <= w < t.len() implies #[trigger] t[w] == (if w < i {
            s[w]
        } else {
            s[w + 1]
        }) by {}
        assert(distinct_attr_names(t));
        if nm == m {
            assert forall|w: int| 0 <= w < t.len() implies #[trigger] t[w].name != m by {}
            lemma_find_value_missing(t, nm);
        } else {
            if has_name(s, nm) {
                lemma_has_name_exists(s, nm);
                let u = choose|u: int| 0 <= u < s.len() && s[u].name == nm;
                assert forall|j: int| 0 <= j < u implies s[j].name != nm by {}
                lemma_find_value_found(s, nm, u);
                assert(u != i);
                if u < i {
                    assert forall|j: int| 0 <= j < u implies t[j].name != nm by {}
                    lemma_find_value_found(t, nm, u);
                } else {
                    assert forall|j: int| 0 <= j < u - 1 implies t[j].name != nm by {}
                    assert(t[u - 1] == s[u]);
                    lemma_find_value_found(t, nm, u - 1);
                }
            } else {
                assert forall|j: int| 0 <= j < s.len() implies #[trigger] s[j].name != nm by {
                    if s[j].name == nm {
                        lemma_has_name_at(s, j);
                    }
                }
                assert forall|w: int| 0 <= w < t.len() implies #[trigger] t[w].name != nm by {}
                lemma_find_value_missing(s, nm);
                lemma_find_value_missing(t, nm);
            }
        }
    } else {
        assert forall|j: int| 0 <= j < s.len() implies #[trigger] s[j].name != m by {
            if s[j].name == m {
                lemma_has_name_at(s, j);
            }
        }
        lemma_remove_attr_in_missing(s, m);
        if nm == m {
            lemma_find_value_missing(s, nm);
        }
    }
}

proof fn lemma_set_part_assignment(
    eid: u64,
    oa: Seq<AttrView>,
    na: Seq<AttrView>,
    e: LiveElemView,
    k: int,
    is_input: bool,
)
    requires
        distinct_attr_names(e.attributes),
        distinct_attr_names(na),
        forall|nm: Seq<char>| find_value(e.attributes, nm) == find_value(oa, nm),
        0 <= k <= na.len(),
    ensures
        distinct_attr_names(apply_attr_ops(e, set_part(eid, oa, na.take(k), is_input)).attributes),
        forall|nm: Seq<char>|
            #[trigger] find_value(
                apply_attr_ops(e, set_part(eid, oa, na.take(k), is_input)).attributes,
                nm,
            ) == if has_name(na.take(k), nm) {
                find_value(na, nm)
            } else {
                find_value(oa, nm)
            },
    decreases k,
{
    if k == 0 {
        assert(na.take(0) =~= Seq::<AttrView>::empty());
        assert(apply_attr_ops(e, set_part(eid, oa, na.take(0), is_input)) == e);
        assert forall|nm: Seq<char>| !has_name(Seq::<AttrView>::empty(), nm) by {}
    } else {
        lemma_set_part_assignment(eid, oa, na, e, k - 1, is_input);
        let sp0 = set_part(eid, oa, na.take(k - 1), is_input);
        let t0 = apply_attr_ops(e, sp0);
        let tk = na.take(k);
        let a = na[k - 1];
        assert(tk.subrange(0, k - 1) =~= na.take(k - 1));
        assert(tk[k - 1] == a);
        assert(tk =~= na.take(k - 1).push(a));
        assert forall|j: int| 0 <= j < k - 1 implies #[trigger] na.take(k - 1)[j].name != a.name by {
            assert(na.take(k - 1)[j] == na[j]);
        }
        if should_set(oa, a) {
            lemma_apply_attr_ops_concat(e, sp0, set_ops(eid, a, is_input));
            if is_checked_name(a.name) && is_input {
                lemma_apply_two(
                    t0,
                    OpView::SetAttr { node: eid, name: a.name, value: a.value },
                    OpView::SetChecked { node: eid, checked: true },
                );
            } else {
                lemma_apply_one(t0, OpView::SetAttr { node: eid, name: a.name, value: a.value });
            }
            let t1 = apply_attr_ops(e, set_part(eid, oa, tk, is_input));
            assert(t1.attributes == set_attr_in(t0.attributes, a.name, a.value));
            lemma_find_after_set(t0.attributes, a.name, a.value, a.name);
            assert forall|nm: Seq<char>|
                #[trigger] find_value(t1.attributes, nm) == (if has_name(tk, nm) {
                    find_value(na, nm)
                } else {
                    find_value(oa, nm)
                }) by {
                lemma_find_after_set(t0.attributes, a.name, a.value, nm);
                lemma_find_value_push(na.take(k - 1), a, nm);
                if nm == a.name {
                    lemma_find_value_found(na, a.name, k - 1);
                }
            }
        } else {
            assert(set_part(eid, oa, tk, is_input) == sp0);
            assert(find_value(oa, a.name) == Some(a.value));
            assert forall|nm: Seq<char>|
                #[trigger] find_value(t0.attributes, nm) == (if has_name(tk, nm) {
                    find_value(na, nm)
                } else {
                    find_value(oa, nm)
                }) by {
                lemma_find_value_push(na.take(k - 1), a, nm);
                if nm == a.name {
                    if has_name(na.take(k - 1), a.name) {
                        lemma_has_name_exists(na.take(k - 1), a.name);
                        assert(false);
                    }
                    lemma_find_value_found(na, a.name, k - 1);
                }
            }
        }
    }
}

proof fn lemma_remove_part_assignment(
    eid: u64,
    oa: Seq<AttrView>,
    na: Seq<AttrView>,
    t: LiveElemView,
    k: int,
    is_input: bool,
)
    requires
        distinct_attr_names(t.attributes),
        0 <= k <= oa.len(),
        forall|nm: Seq<char>|
            #[trigger] find_value(t.attributes, nm) == if has_name(na, nm) {
                find_value(na, nm)
            } else {
                find_value(oa, nm)
            },
    ensures
        distinct_attr_names(
            apply_attr_ops(t, remove_part(eid, oa.take(k), na, is_input)).attributes,
        ),
        forall|nm: Seq<char>|
            #[trigger] find_value(
                apply_attr_ops(t, remove_part(eid, oa.take(k), na, is_input)).attributes,
                nm,
            ) == if has_name(na, nm) {
                find_value(na, nm)
            } else if has_name(oa.take(k), nm) {
                None
            } else {
                find_value(oa, nm)
            },
    decreases k,
{
    if k == 0 {
        assert(oa.take(0) =~= Seq::<AttrView>::empty());
        assert(apply_attr_ops(t, remove_part(eid, oa.take(0), na, is_input)) == t);
        assert forall|nm: Seq<char>| !has_name(Seq::<AttrView>::empty(), nm) by {}
    } else {
        lemma_remove_part_assignment(eid, oa, na, t, k - 1, is_input);
        let rp0 = remove_part(eid, oa.take(k - 1), na, is_input);
        let u0 = apply_attr_ops(t, rp0);
        let tk = oa.take(k);
        let a = oa[k - 1];
        assert(tk.subrange(0, k - 1) =~= oa.take(k - 1));
        assert(tk[k - 1] == a);
        assert(tk =~= oa.take(k - 1).push(a));
        if !has_name(na, a.name) {
            lemma_apply_attr_ops_concat(t, rp0, remove_ops(eid, a, is_input));
            if is_checked_name(a.name) && is_input {
                lemma_apply_two(
                    u0,
                    OpView::RemoveAttr { node: eid, name: a.name },
                    OpView::SetChecked { node: eid, checked: false },
                );
            } else {
                lemma_apply_one(u0, OpView::RemoveAttr { node: eid, name: a.name });
            }
            let u1 = apply_attr_ops(t, remove_part(eid, tk, na, is_input));
            assert(u1.attributes == remove_attr_in(u0.attributes, a.name));
            lemma_find_after_remove(u0.attributes, a.name, a.name);
            assert forall|nm: Seq<char>|
                #[trigger] find_value(u1.attributes, nm) == (if has_name(na, nm) {
                    find_value(na, nm)
                } else if has_name(tk, nm) {
                    None
                } else {
                    find_value(oa, nm)
                }) by {
                lemma_find_after_remove(u0.attributes, a.name, nm);
                lemma_find_value_push(oa.take(k - 1), a, nm);
            }
        } else {
            assert(remove_part(eid, tk, na, is_input) == rp0);
            assert forall|nm: Seq<char>|
                #[trigger] find_value(u0.attributes, nm) == (if has_name(na, nm) {
                    find_value(na, nm)
                } else if has_name(tk, nm) {
                    None
                } else {
                    find_value(oa, nm)
                }) by {
                lemma_find_value_push(oa.take(k - 1), a, nm);
            }
        }
    }
}

/// After an attribute patch of a live element whose attribute assignment
/// matched the previous virtual list, the element's assignment is the next
/// list's: every name resolves to its value in the next list, and every
/// other name is gone — provided no list involved carries two attributes of
/// one name.
pub proof fn lemma_attr_patch_assignment(
    eid: u64,
    e: LiveElemView,
    oa: Seq<AttrView>,
    na: Seq<AttrView>,
    is_input: bool,
)
    requires
        distinct_attr_names(e.attributes),
        distinct_attr_names(oa),
        distinct_attr_names(na),
        forall|nm: Seq<char>| find_value(e.attributes, nm) == find_value(oa, nm),
    ensures
        distinct_attr_names(apply_attr_ops(e, attr_diff_ops(eid, oa, na, is_input)).attributes),
        forall|nm: Seq<char>|
            #[trigger] find_value(
                apply_attr_ops(e, attr_diff_ops(eid, oa, na, is_input)).attributes,
                nm,
            ) == find_value(na, nm),
{
    let sp = set_part(eid, oa, na, is_input);
    let rp = remove_part(eid, oa, na, is_input);
    lemma_apply_attr_ops_concat(e, sp, rp);
    assert(na.take(na.len() as int) =~= na);
    lemma_set_part_assignment(eid, oa, na, e, na.len() as int, is_input);
    let t = apply_attr_ops(e, sp);
    assert(oa.take(oa.len() as int) =~= oa);
    lemma_remove_part_assignment(eid, oa, na, t, oa.len() as int, is_input);
    let u = apply_attr_ops(t, rp);
    assert forall|nm: Seq<char>|
        #[trigger] find_value(u.attributes, nm) == find_value(na, nm) by {
        if !has_name(na, nm) {
            assert(find_value(na, nm) is None);
        }
    }
}

// ---------------------------------------------------------------------------
// Shape predicates over trees
// ---------------------------------------------------------------------------

/// Two virtual nodes agree in kind and, for elements, in tag name and
/// customization tag: the live node is then patched in place rather than
/// replaced.
pub open spec fn compatible(o: NodeView, n: NodeView) -> bool {
    match (o, n) {
        (NodeView::Text(_), NodeView::Text(_)) => true,
        (NodeView::Element(x), NodeView::Element(y)) => x.tag_name == y.tag_name && x.is == y.is,
        _ => false,
    }
}

/// Two virtual nodes are structurally identical: same kinds, text, tags,
/// customization tags and attribute lists throughout. Event sinks and
/// capture handles are not part of the structure.
pub open spec fn same_shape(o: NodeView, n: NodeView) -> bool
    decreases o,
{
    match (o, n) {
        (NodeView::Text(a), NodeView::Text(b)) => a == b,
        (NodeView::Element(x), NodeView::Element(y)) => {
            &&& x.tag_name == y.tag_name
            &&& x.is == y.is
            &&& x.attributes == y.attributes
            &&& same_shape_seq(x.children, y.children)
        },
        _ => false,
    }
}

/// Structural identity of two node sequences, position by position.
pub open spec fn same_shape_seq(o: Seq<NodeView>, n: Seq<NodeView>) -> bool
    decreases o,
{
    if o.len() != n.len() {
        false
    } else if o.len() == 0 {
        true
    } else {
        same_shape_seq(o.subrange(0, o.len() - 1), n.subrange(0, n.len() - 1)) && same_shape(
            o[o.len() - 1],
            n[n.len() - 1],
        )
    }
}

/// No element of the tree carries two attributes of the same name.
pub open spec fn tidy(v: NodeView) -> bool
    decreases v,
{
    match v {
        NodeView::Text(_) => true,
        NodeView::Element(e) => distinct_attr_names(e.attributes) && tidy_seq(e.children),
    }
}

/// Every element of every tree of the sequence is tidy.
pub open spec fn tidy_seq(vs: Seq<NodeView>) -> bool
    decreases vs,
{
    if vs.len() == 0 {
        true
    } else {
        tidy_seq(vs.subrange(0, vs.len() - 1)) && tidy(vs[vs.len() - 1])
    }
}

/// A live node agrees with a virtual node in kind, and their element
/// subtrees agree in child count throughout: the precondition under which
/// the reconciler walks the two in lockstep.
pub open spec fn conforms(l: LiveView, v: NodeView) -> bool
    decreases v,
{
    match (l, v) {
        (LiveView::Text(_), NodeView::Text(_)) => true,
        (LiveView::Element(le), NodeView::Element(ve)) => conforms_seq(le.children, ve.children),
        _ => false,
    }
}

/// Kind conformance of two node sequences, position by position.
pub open spec fn conforms_seq(ls: Seq<LiveView>, vs: Seq<NodeView>) -> bool
    decreases vs,
{
    if ls.len() != vs.len() {
        false
    } else if vs.len() == 0 {
        true
    } else {
        conforms_seq(ls.subrange(0, ls.len() - 1), vs.subrange(0, vs.len() - 1)) && conforms(
            ls[ls.len() - 1],
            vs[vs.len() - 1],
        )
    }
}

proof fn lemma_same_shape_seq_index(o: Seq<NodeView>, n: Seq<NodeView>, i: int)
    requires
        same_shape_seq(o, n),
        0 <= i < o.len(),
    ensures
        o.len() == n.len(),
        same_shape(o[i], n[i]),
    decreases o,
{
    if i < o.len() - 1 {
        lemma_same_shape_seq_index(o.subrange(0, o.len() - 1), n.subrange(0, n.len() - 1), i);
    }
}

proof fn lemma_tidy_seq_index(vs: Seq<NodeView>, i: int)
    requires
        tidy_seq(vs),
        0 <= i < vs.len(),
    ensures
        tidy(vs[i]),
    decreases vs,
{
    if i < vs.len() - 1 {
        lemma_tidy_seq_index(vs.subrange(0, vs.len() - 1), i);
    }
}

proof fn lemma_conforms_seq_index(ls: Seq<LiveView>, vs: Seq<NodeView>, i: int)
    requires
        conforms_seq(ls, vs),
        0 <= i < vs.len(),
    ensures
        ls.len() == vs.len(),
        conforms(ls[i], vs[i]),
    decreases vs,
{
    if i < vs.len() - 1 {
        lemma_conforms_seq_index(ls.subrange(0, ls.len() - 1), vs.subrange(0, vs.len() - 1), i);
    }
}

proof fn lemma_conforms_seq_push(ls: Seq<LiveView>, vs: Seq<NodeView>, l: LiveView, v: NodeView)
    requires
        conforms_seq(ls, vs),
        conforms(l, v),
    ensures
        conforms_seq(ls.push(l), vs.push(v)),
{
    assert(ls.push(l).subrange(0, ls.len() as int) =~= ls);
    assert(vs.push(v).subrange(0, vs.len() as int) =~= vs);
}

// ---------------------------------------------------------------------------
// Fresh construction of live nodes
// ---------------------------------------------------------------------------

/// Whether the tag names a form-control input, compared ignoring ASCII
/// case.
pub open spec fn is_input_tag(tag: Seq<char>) -> bool {
    ascii_caseless_eq(tag, "input"@)
}

/// A virtual attribute list as a freshly created live element holds it:
/// each attribute set in order, so that repeated names collapse to the last
/// value.
pub open spec fn fresh_attrs(attrs: Seq<AttrView>) -> Seq<AttrView>
    decreases attrs.len(),
{
    if attrs.len() == 0 {
        Seq::empty()
    } else {
        set_attr_in(
            fresh_attrs(attrs.subrange(0, attrs.len() - 1)),
            attrs[attrs.len() - 1].name,
            attrs[attrs.len() - 1].value,
        )
    }
}

/// Whether some attribute of the list is the "checked" attribute.
pub open spec fn has_checked_attr(attrs: Seq<AttrView>) -> bool {
    exists|i: int| 0 <= i < attrs.len() && is_checked_name(#[trigger] attrs[i].name)
}

/// A live element freshly built from a virtual element: same tag and
/// customization tag, the attributes set in order, the input flag decided
/// from the tag name, the checked state decided from the attributes, and
/// every child freshly built.
pub open spec fn fresh_like_elem(le: LiveElemView, ve: ElemView) -> bool
    decreases ve,
{
    &&& le.tag_name == ve.tag_name
    &&& le.is == ve.is
    &&& le.attributes == fresh_attrs(ve.attributes)
    &&& le.is_input == is_input_tag(ve.tag_name)
    &&& le.checked == (le.is_input && has_checked_attr(ve.attributes))
    &&& fresh_like_seq(le.children, ve.children)
}

/// A live node freshly built from a virtual node.
pub open spec fn fresh_like(l: LiveView, v: NodeView) -> bool
    decreases v,
{
    match (l, v) {
        (LiveView::Text(t), NodeView::Text(d)) => t.data == d,
        (LiveView::Element(le), NodeView::Element(ve)) => fresh_like_elem(le, ve),
        _ => false,
    }
}

/// Fresh construction of a node sequence, position by position.
pub open spec fn fresh_like_seq(ls: Seq<LiveView>, vs: Seq<NodeView>) -> bool
    decreases vs,
{
    if ls.len() != vs.len() {
        false
    } else if vs.len() == 0 {
        true
    } else {
        fresh_like_seq(ls.subrange(0, ls.len() - 1), vs.subrange(0, vs.len() - 1)) && fresh_like(
            ls[ls.len() - 1],
            vs[vs.len() - 1],
        )
    }
}

/// The tail of an operation run commits a node: one spawn per pending sink,
/// in order, then one fulfill per pending capture handle, in order, all
/// against the committed live node.
pub open spec fn spawn_suffix(
    add: Seq<OpView>,
    sinks: Seq<u64>,
    refs: Seq<u64>,
    target: u64,
) -> bool {
    &&& add.len() >= sinks.len() + refs.len()
    &&& forall|j: int|
        0 <= j < sinks.len() ==> {
            let op = #[trigger] add[add.len() - sinks.len() - refs.len() + j];
            op is SpawnSink && sink_of(op) == sinks[j] && target_of(op) == target
        }
    &&& forall|j: int|
        0 <= j < refs.len() ==> #[trigger] add[add.len() - refs.len() + j] == (OpView::FulfillRef {
            handle: refs[j],
            target,
        })
}

// ---------------------------------------------------------------------------
// The patch, as a mathematical function
// ---------------------------------------------------------------------------
//
// The reconciler is deterministic: given the live tree, the two virtual
// trees and the next free identifier, the resulting live tree, the operation
// log and the advanced counter are all fixed. The spec functions below state
// that function; each executable patch function ensures it computes exactly
// this.

/// What building or patching one node yields: the resulting live node, the
/// operations performed, and the identifier counter afterwards.
pub ghost struct BuiltNode {
    pub live: LiveView,
    pub ops: Seq<OpView>,
    pub next: u64,
}

/// What building or patching a node sequence yields.
pub ghost struct BuiltSeq {
    pub lives: Seq<LiveView>,
    pub ops: Seq<OpView>,
    pub next: u64,
}

/// What spawning a run of sinks yields: the spawn operations and the counter
/// after one task identifier per sink.
pub ghost struct SpawnRun {
    pub ops: Seq<OpView>,
    pub next: u64,
}

/// One spawn operation per pending sink, in order, each with the next task
/// identifier.
pub open spec fn spawn_run(sinks: Seq<u64>, target: u64, next: u64) -> SpawnRun
    decreases sinks.len(),
{
    if sinks.len() == 0 {
        SpawnRun { ops: Seq::empty(), next }
    } else {
        let pre = spawn_run(sinks.subrange(0, sinks.len() - 1), target, next);
        SpawnRun {
            ops: pre.ops.push(
                OpView::SpawnSink { task: pre.next, sink: sinks[sinks.len() - 1], target },
            ),
            next: bump(pre.next),
        }
    }
}

/// One fulfill operation per pending capture handle, in order.
pub open spec fn fulfill_run(refs: Seq<u64>, target: u64) -> Seq<OpView>
    decreases refs.len(),
{
    if refs.len() == 0 {
        Seq::empty()
    } else {
        fulfill_run(refs.subrange(0, refs.len() - 1), target).push(
            OpView::FulfillRef { handle: refs[refs.len() - 1], target },
        )
    }
}

/// A live element built afresh from a virtual element: a new identifier,
/// then the children built afresh in order, then this element's sinks
/// spawned and capture handles filled.
pub open spec fn build_elem(e: ElemView, next: u64) -> BuiltNode
    decreases e,
{
    let id = next;
    let kids = build_seq(e.children, bump(next));
    let srun = spawn_run(e.sink_spawners, id, kids.next);
    BuiltNode {
        live: LiveView::Element(
            LiveElemView {
                id,
                tag_name: e.tag_name,
                is: e.is,
                attributes: fresh_attrs(e.attributes),
                is_input: is_input_tag(e.tag_name),
                checked: is_input_tag(e.tag_name) && has_checked_attr(e.attributes),
                children: kids.lives,
            },
        ),
        ops: kids.ops + srun.ops + fulfill_run(e.element_refs, id),
        next: srun.next,
    }
}

/// A live node built afresh from a virtual node.
pub open spec fn build_node(v: NodeView, next: u64) -> BuiltNode
    decreases v,
{
    match v {
        NodeView::Text(d) => BuiltNode {
            live: LiveView::Text(LiveTextView { id: next, data: d }),
            ops: Seq::empty(),
            next: bump(next),
        },
        NodeView::Element(e) => build_elem(e, next),
    }
}

/// A run of live nodes built afresh, in order.
pub open spec fn build_seq(vs: Seq<NodeView>, next: u64) -> BuiltSeq
    decreases vs,
{
    if vs.len() == 0 {
        BuiltSeq { lives: Seq::empty(), ops: Seq::empty(), next }
    } else {
        let pre = build_seq(vs.subrange(0, vs.len() - 1), next);
        let b = build_node(vs[vs.len() - 1], pre.next);
        BuiltSeq { lives: pre.lives.push(b.live), ops: pre.ops + b.ops, next: b.next }
    }
}

/// Excess next children appended fresh, in order: each child is built, then
/// appended to the parent.
pub open spec fn append_run(vs: Seq<NodeView>, parent: u64, next: u64) -> BuiltSeq
    decreases vs,
{
    if vs.len() == 0 {
        BuiltSeq { lives: Seq::empty(), ops: Seq::empty(), next }
    } else {
        let pre = append_run(vs.subrange(0, vs.len() - 1), parent, next);
        let b = build_node(vs[vs.len() - 1], pre.next);
        BuiltSeq {
            lives: pre.lives.push(b.live),
            ops: pre.ops + b.ops.push(OpView::AppendChild { parent, child: b.live.id() }),
            next: b.next,
        }
    }
}

/// The patch of one live node from a previous to a next virtual node: text
/// data updated in place, a compatible element patched (attributes, children
/// positionally, then its sinks and capture handles), and anything else
/// replaced wholesale by a fresh build.
pub open spec fn node_patch(lp: LiveView, o: NodeView, n: NodeView, next: u64) -> BuiltNode
    decreases o, 1int, 0int,
{
    if compatible(o, n) {
        match (o, n) {
            (NodeView::Text(od), NodeView::Text(nd)) => BuiltNode {
                live: if od == nd {
                    lp
                } else {
                    LiveView::Text(LiveTextView { id: lp.id(), data: nd })
                },
                ops: if od == nd {
                    Seq::empty()
                } else {
                    seq![OpView::SetText { node: lp.id(), data: nd }]
                },
                next,
            },
            (NodeView::Element(oe), NodeView::Element(ne)) => {
                let le = lp->Element_0;
                let d = attr_diff_ops(le.id, oe.attributes, ne.attributes, le.is_input);
                let ea = apply_attr_ops(le, d);
                let kids = children_patch(le.children, oe.children, ne.children, le.id, next);
                let srun = spawn_run(ne.sink_spawners, le.id, kids.next);
                BuiltNode {
                    live: LiveView::Element(LiveElemView { children: kids.lives, ..ea }),
                    ops: d + kids.ops + srun.ops + fulfill_run(ne.element_refs, le.id),
                    next: srun.next,
                }
            },
            _ => BuiltNode { live: lp, ops: Seq::empty(), next },
        }
    } else {
        let b = build_node(n, next);
        BuiltNode {
            live: b.live,
            ops: b.ops.push(OpView::ReplaceNode { old_node: lp.id(), new_node: b.live.id() }),
            next: b.next,
        }
    }
}

/// The overlapping positions of a child-list patch: the first `k` children
/// patched index by index, in increasing order.
pub open spec fn overlap_patch(
    lps: Seq<LiveView>,
    os: Seq<NodeView>,
    ns: Seq<NodeView>,
    k: int,
    next: u64,
) -> BuiltSeq
    decreases os, 0int, k,
{
    if k <= 0 || k > os.len() {
        BuiltSeq { lives: Seq::empty(), ops: Seq::empty(), next }
    } else {
        let pre = overlap_patch(lps, os, ns, k - 1, next);
        let one = node_patch(lps[k - 1], os[k - 1], ns[k - 1], pre.next);
        BuiltSeq { lives: pre.lives.push(one.live), ops: pre.ops + one.ops, next: one.next }
    }
}

/// The positional patch of a whole child list: the overlap patched index by
/// index, excess previous children removed from the tail, excess next
/// children appended fresh in order.
pub open spec fn children_patch(
    lps: Seq<LiveView>,
    os: Seq<NodeView>,
    ns: Seq<NodeView>,
    parent: u64,
    next: u64,
) -> BuiltSeq
    decreases os, 1int, 0int,
{
    let k = if os.len() <= ns.len() {
        os.len() as int
    } else {
        ns.len() as int
    };
    let pat = overlap_patch(lps, os, ns, k, next);
    let removes = Seq::new((os.len() - k) as nat, |i: int| OpView::RemoveLastChild { parent });
    let app = append_run(ns.skip(k), parent, pat.next);
    BuiltSeq {
        lives: pat.lives + app.lives,
        ops: pat.ops + removes + app.ops,
        next: app.next,
    }
}

// ---------------------------------------------------------------------------
// The patched tree carries what the next tree describes
// ---------------------------------------------------------------------------

/// A live node carries exactly what a virtual node describes: equal text
/// data; for elements, the virtual node's tag and customization tag, the
/// same attribute name-to-value assignment (the live list duplicate-free, as
/// a platform attribute collection is), and matching children position by
/// position.
pub open spec fn matches_node(l: LiveView, v: NodeView) -> bool
    decreases v,
{
    match (l, v) {
        (LiveView::Text(t), NodeView::Text(d)) => t.data == d,
        (LiveView::Element(le), NodeView::Element(ve)) => {
            &&& le.tag_name == ve.tag_name
            &&& le.is == ve.is
            &&& distinct_attr_names(le.attributes)
            &&& (forall|nm: Seq<char>|
                find_value(le.attributes, nm) == find_value(ve.attributes, nm))
            &&& matches_seq(le.children, ve.children)
        },
        _ => false,
    }
}

/// Position-by-position content match of two node sequences.
pub open spec fn matches_seq(ls: Seq<LiveView>, vs: Seq<NodeView>) -> bool
    decreases vs,
{
    &&& ls.len() == vs.len()
    &&& forall|i: int| 0 <= i < vs.len() ==> matches_node(#[trigger] ls[i], vs[i])
}

/// An attribute list set in order onto an empty collection is itself, when
/// no two of its attributes share a name.
proof fn lemma_fresh_attrs_distinct(s: Seq<AttrView>)
    requires
        distinct_attr_names(s),
    ensures
        fresh_attrs(s) == s,
    decreases s.len(),
{
    if s.len() > 0 {
        let pre = s.subrange(0, s.len() - 1);
        lemma_fresh_attrs_distinct(pre);
        assert forall|j: int| 0 <= j < pre.len() implies #[trigger] pre[j].name != s[s.len()
            - 1].name by {
            assert(pre[j] == s[j]);
        }
        lemma_set_attr_in_missing(pre, s[s.len() - 1].name, s[s.len() - 1].value);
        assert(pre.push(
            AttrView { name: s[s.len() - 1].name, value: s[s.len() - 1].value },
        ) =~= s);
    }
}

/// A node built afresh from a tidy virtual node carries what it describes.
proof fn lemma_build_matches(v: NodeView, next: u64)
    requires
        tidy(v),
    ensures
        matches_node(build_node(v, next).live, v),
    decreases v,
{
    match v {
        NodeView::Text(_) => {},
        NodeView::Element(e) => {
            lemma_fresh_attrs_distinct(e.attributes);
            lemma_build_seq_matches(e.children, bump(next));
        },
    }
}

proof fn lemma_build_seq_matches(vs: Seq<NodeView>, next: u64)
    requires
        tidy_seq(vs),
    ensures
        matches_seq(build_seq(vs, next).lives, vs),
    decreases vs,
{
    if vs.len() > 0 {
        let pre = vs.subrange(0, vs.len() - 1);
        lemma_build_seq_matches(pre, next);
        lemma_tidy_seq_index(vs, vs.len() - 1);
        lemma_build_matches(vs[vs.len() - 1], build_seq(pre, next).next);
        let b = build_seq(vs, next);
        assert forall|i: int| 0 <= i < vs.len() implies matches_node(
            #[trigger] b.lives[i],
            vs[i],
        ) by {
            if i < vs.len() - 1 {
                assert(b.lives[i] == build_seq(pre, next).lives[i]);
                assert(pre[i] == vs[i]);
            }
        }
    }
}

proof fn lemma_append_run_matches(vs: Seq<NodeView>, parent: u64, next: u64)
    requires
        tidy_seq(vs),
    ensures
        matches_seq(append_run(vs, parent, next).lives, vs),
    decreases vs,
{
    if vs.len() > 0 {
        let pre = vs.subrange(0, vs.len() - 1);
        lemma_append_run_matches(pre, parent, next);
        lemma_tidy_seq_index(vs, vs.len() - 1);
        lemma_build_matches(vs[vs.len() - 1], append_run(pre, parent, next).next);
        let b = append_run(vs, parent, next);
        assert forall|i: int| 0 <= i < vs.len() implies matches_node(
            #[trigger] b.lives[i],
            vs[i],
        ) by {
            if i < vs.len() - 1 {
                assert(b.lives[i] == append_run(pre, parent, next).lives[i]);
                assert(pre[i] == vs[i]);
            }
        }
    }
}

/// Patching a live node that carries what the previous tidy virtual node
/// describes leaves it carrying what the next tidy virtual node describes.
pub proof fn lemma_node_patch_matches(lp: LiveView, o: NodeView, n: NodeView, next: u64)
    requires
        matches_node(lp, o),
        tidy(o),
        tidy(n),
    ensures
        matches_node(node_patch(lp, o, n, next).live, n),
    decreases o, 1int, 0int,
{
    if compatible(o, n) {
        match (o, n) {
            (NodeView::Text(od), NodeView::Text(nd)) => {},
            (NodeView::Element(oe), NodeView::Element(ne)) => {
                let le = lp->Element_0;
                let d = attr_diff_ops(le.id, oe.attributes, ne.attributes, le.is_input);
                lemma_apply_attr_ops_frame(le, d);
                lemma_attr_patch_assignment(le.id, le, oe.attributes, ne.attributes, le.is_input);
                lemma_children_patch_matches(le.children, oe.children, ne.children, le.id, next);
            },
            _ => {},
        }
    } else {
        lemma_build_matches(n, next);
    }
}

/// The positional child-list patch of matching, tidy lists yields the next
/// list's content at every position.
pub proof fn lemma_children_patch_matches(
    lps: Seq<LiveView>,
    os: Seq<NodeView>,
    ns: Seq<NodeView>,
    parent: u64,
    next: u64,
)
    requires
        matches_seq(lps, os),
        tidy_seq(os),
        tidy_seq(ns),
    ensures
        matches_seq(children_patch(lps, os, ns, parent, next).lives, ns),
    decreases os, 1int, 0int,
{
    let k = if os.len() <= ns.len() {
        os.len() as int
    } else {
        ns.len() as int
    };
    lemma_overlap_patch_matches(lps, os, ns, k, next);
    let pat = overlap_patch(lps, os, ns, k, next);
    let suf = ns.skip(k);
    lemma_tidy_seq_subrange(ns, k, ns.len() as int);
    lemma_append_run_matches(suf, parent, pat.next);
    let app = append_run(suf, parent, pat.next);
    let b = children_patch(lps, os, ns, parent, next);
    assert(b.lives == pat.lives + app.lives);
    assert forall|i: int| 0 <= i < ns.len() implies matches_node(
        #[trigger] b.lives[i],
        ns[i],
    ) by {
        if i < k {
            assert(b.lives[i] == pat.lives[i]);
            assert(ns.take(k)[i] == ns[i]);
        } else {
            assert(b.lives[i] == app.lives[i - k]);
            assert(suf[i - k] == ns[i]);
        }
    }
}

proof fn lemma_tidy_seq_subrange(s: Seq<NodeView>, a: int, b: int)
    requires
        tidy_seq(s),
        0 <= a <= b <= s.len(),
    ensures
        tidy_seq(s.subrange(a, b)),
    decreases b - a,
{
    if b > a {
        lemma_tidy_seq_subrange(s, a, b - 1);
        let sub = s.subrange(a, b);
        assert(sub.subrange(0, sub.len() - 1) =~= s.subrange(a, b - 1));
        assert(sub[sub.len() - 1] == s[b - 1]);
        lemma_tidy_seq_index(s, b - 1);
    } else {
        assert(s.subrange(a, a) =~= Seq::<NodeView>::empty());
    }
}

proof fn lemma_overlap_patch_matches(
    lps: Seq<LiveView>,
    os: Seq<NodeView>,
    ns: Seq<NodeView>,
    k: int,
    next: u64,
)
    requires
        matches_seq(lps, os),
        tidy_seq(os),
        tidy_seq(ns),
        0 <= k <= os.len(),
        k <= ns.len(),
    ensures
        matches_seq(overlap_patch(lps, os, ns, k, next).lives, ns.take(k)),
    decreases os, 0int, k,
{
    if k > 0 {
        lemma_overlap_patch_matches(lps, os, ns, k - 1, next);
        let pre = overlap_patch(lps, os, ns, k - 1, next);
        lemma_tidy_seq_index(os, k - 1);
        lemma_tidy_seq_index(ns, k - 1);
        lemma_node_patch_matches(lps[k - 1], os[k - 1], ns[k - 1], pre.next);
        let one = node_patch(lps[k - 1], os[k - 1], ns[k - 1], pre.next);
        let b = overlap_patch(lps, os, ns, k, next);
        assert forall|i: int| 0 <= i < k implies matches_node(
            #[trigger] b.lives[i],
            ns.take(k)[i],
        ) by {
            if i < k - 1 {
                assert(b.lives[i] == pre.lives[i]);
                assert(ns.take(k - 1)[i] == ns[i]);
            }
        }
    } else {
        assert(ns.take(0) =~= Seq::<NodeView>::empty());
    }
}

/// A freshly built node conforms to the virtual node it was built from.
pub proof fn lemma_fresh_like_conforms(l: LiveView, v: NodeView)
    requires
        fresh_like(l, v),
    ensures
        conforms(l, v),
    decreases v,
{
    match (l, v) {
        (LiveView::Element(le), NodeView::Element(ve)) => {
            lemma_fresh_like_seq_conforms(le.children, ve.children);
        },
        _ => {},
    }
}

proof fn lemma_fresh_like_seq_conforms(ls: Seq<LiveView>, vs: Seq<NodeView>)
    requires
        fresh_like_seq(ls, vs),
    ensures
        conforms_seq(ls, vs),
    decreases vs,
{
    if vs.len() > 0 {
        lemma_fresh_like_seq_conforms(ls.subrange(0, ls.len() - 1), vs.subrange(0, vs.len() - 1));
        lemma_fresh_like_conforms(ls[ls.len() - 1], vs[vs.len() - 1]);
    }
}

/// The identifier of a live node.
fn node_id(l: &LiveNode) -> (r: u64)
    ensures
        r == l.deep_view().id(),
{
    match l {
        LiveNode::Text(t) => t.id,
        LiveNode::Element(e) => e.id,
    }
}

/// Builds a live element afresh from a virtual element: a new identifier,
/// the attributes set in order, every child built afresh, then this
/// element's event sinks spawned and capture handles filled.
fn fresh_element(v: &VElement, gen: &mut IdGen, ops: &mut Vec<DomOp>) -> (r: LiveElement)
    ensures
        fresh_like_elem(r.deep_view(), v.deep_view()),
        extends(old(ops).deep_view(), final(ops).deep_view()),
        no_mutations(added(old(ops).deep_view(), final(ops).deep_view())),
        spawn_suffix(
            added(old(ops).deep_view(), final(ops).deep_view()),
            v.sink_spawners@,
            v.element_refs@,
            r.id,
        ),
        ({
            let b = build_elem(v.deep_view(), old(gen).next);
            &&& LiveView::Element(r.deep_view()) == b.live
            &&& final(ops).deep_view() == old(ops).deep_view() + b.ops
            &&& final(gen).next == b.next
        }),
    decreases v,
{
    let ghost base = ops.deep_view();
    let ghost next0 = gen.next;
    proof {
        assert(base.take(base.len() as int) =~= base);
    }
    let id = gen.fresh();
    let ghost g0 = gen.next;
    let is_input = eq_ascii(v.tag_name.as_str(), "input");

    let ghost av = v.attributes.deep_view();
    let mut attributes: Vec<Attr> = Vec::new();
    let mut has_checked = false;
    let na = v.attributes.len();
    let mut i: usize = 0;
    proof {
        assert(av.take(0) =~= Seq::<AttrView>::empty());
        assert(attributes.deep_view() =~= Seq::<AttrView>::empty());
    }
    while i < na
        invariant
            0 <= i <= na,
            na == v.attributes.len(),
            av == v.attributes.deep_view(),
            attributes.deep_view() == fresh_attrs(av.take(i as int)),
            has_checked == has_checked_attr(av.take(i as int)),
            ops.deep_view() == base,
        decreases na - i,
    {
        let ghost hc_pre = has_checked;
        let a = &v.attributes[i];
        live_set_attr(&mut attributes, &a.name, &a.value);
        let a_checked = eq_ascii(a.name.as_str(), "checked");
        if a_checked {
            has_checked = true;
        }
        proof {
            let t1 = av.take(i as int + 1);
            assert(t1.subrange(0, i as int) =~= av.take(i as int));
            assert(t1[i as int] == av[i as int]);
            assert(attributes.deep_view() == fresh_attrs(t1));
            if a_checked {
                assert(is_checked_name(t1[i as int].name));
                assert(has_checked_attr(t1));
            } else {
                if hc_pre {
                    let w = choose|w: int|
                        0 <= w < i && is_checked_name(#[trigger] av.take(i as int)[w].name);
                    assert(is_checked_name(t1[w].name));
                    assert(has_checked_attr(t1));
                } else {
                    assert forall|w: int| 0 <= w < t1.len() implies !is_checked_name(
                        #[trigger] t1[w].name,
                    ) by {
                        if w < i {
                            assert(t1[w] == av.take(i as int)[w]);
                        }
                    }
                }
            }
        }
        i = i + 1;
    }
    proof {
        assert(av.take(na as int) =~= av);
    }
    let checked = is_input && has_checked;

    let ghost cv = vnodes_deep(v.children@);
    let mut children: Vec<LiveNode> = Vec::new();
    let nc = v.children.len();
    let mut j: usize = 0;
    proof {
        lemma_vnodes_deep(v.children@);
        assert(cv.take(0) =~= Seq::<NodeView>::empty());
        assert(children.deep_view() =~= Seq::<LiveView>::empty());
    }
    proof {
        assert(children.deep_view() == build_seq(cv.take(0), g0).lives);
        assert(base + build_seq(cv.take(0), g0).ops =~= base);
    }
    while j < nc
        invariant
            0 <= j <= nc,
            nc == v.children.len(),
            cv == vnodes_deep(v.children@),
            cv.len() == nc,
            forall|w: int| 0 <= w < nc ==> cv[w] == v.children@[w].deep_view(),
            fresh_like_seq(children.deep_view(), cv.take(j as int)),
            extends(base, ops.deep_view()),
            no_mutations(added(base, ops.deep_view())),
            children.deep_view() == build_seq(cv.take(j as int), g0).lives,
            ops.deep_view() == base + build_seq(cv.take(j as int), g0).ops,
            gen.next == build_seq(cv.take(j as int), g0).next,
        decreases nc - j,
    {
        let ghost mid = ops.deep_view();
        let ghost bs0 = build_seq(cv.take(j as int), g0);
        let c = fresh_node(&v.children[j], gen, ops);
        proof {
            lemma_added_chain(base, mid, ops.deep_view());
            lemma_no_mutations_concat(
                added(base, mid),
                added(mid, ops.deep_view()),
            );
        }
        let ghost kids_pre = children.deep_view();
        children.push(c);
        proof {
            let t1 = cv.take(j as int + 1);
            assert(t1.subrange(0, j as int) =~= cv.take(j as int));
            assert(t1[j as int] == cv[j as int]);
            assert(children.deep_view() =~= kids_pre.push(c.deep_view()));
            assert(children.deep_view().subrange(0, j as int) =~= kids_pre);
            assert(fresh_like_seq(children.deep_view(), t1));
            let b = build_node(cv[j as int], bs0.next);
            assert(c.deep_view() == b.live);
            assert(ops.deep_view() =~= base + (bs0.ops + b.ops));
            assert(build_seq(t1, g0).lives == bs0.lives.push(b.live));
            assert(build_seq(t1, g0).ops == bs0.ops + b.ops);
            assert(build_seq(t1, g0).next == b.next);
        }
        j = j + 1;
    }
    proof {
        assert(cv.take(nc as int) =~= cv);
    }
    let ghost bs_full = build_seq(cv, g0);

    let ghost ops_c = ops.deep_view();
    let ghost g1 = gen.next;
    let ghost sv = v.sink_spawners@;
    let ns = v.sink_spawners.len();
    let mut k: usize = 0;
    proof {
        assert(ops_c + spawn_run(sv.take(0), id, g1).ops =~= ops_c);
    }
    while k < ns
        invariant
            0 <= k <= ns,
            ns == v.sink_spawners.len(),
            sv == v.sink_spawners@,
            extends(base, ops.deep_view()),
            no_mutations(added(base, ops.deep_view())),
            ops.deep_view().len() == ops_c.len() + k,
            ops.deep_view().take(ops_c.len() as int) == ops_c,
            forall|j: int|
                0 <= j < k ==> {
                    let op = #[trigger] ops.deep_view()[ops_c.len() + j];
                    op is SpawnSink && sink_of(op) == v.sink_spawners@[j] && target_of(op) == id
                },
            ops.deep_view() == ops_c + spawn_run(sv.take(k as int), id, g1).ops,
            gen.next == spawn_run(sv.take(k as int), id, g1).next,
        decreases ns - k,
    {
        let ghost mid = ops.deep_view();
        let ghost sr0 = spawn_run(sv.take(k as int), id, g1);
        let task = gen.fresh();
        ops.push(DomOp::SpawnSink { task, sink: v.sink_spawners[k], target: id });
        proof {
            assert(ops.deep_view() =~= mid.push(
                OpView::SpawnSink { task, sink: v.sink_spawners@[k as int], target: id },
            ));
            assert(ops.deep_view().take(mid.len() as int) =~= mid);
            assert(ops.deep_view().take(ops_c.len() as int) =~= ops_c);
            lemma_added_chain(base, mid, ops.deep_view());
            assert(no_mutations(added(mid, ops.deep_view())));
            lemma_no_mutations_concat(added(base, mid), added(mid, ops.deep_view()));
            let t1 = sv.take(k as int + 1);
            assert(t1.subrange(0, k as int) =~= sv.take(k as int));
            assert(t1[k as int] == sv[k as int]);
            assert(task == sr0.next);
            assert(spawn_run(t1, id, g1).ops == sr0.ops.push(
                OpView::SpawnSink { task: sr0.next, sink: sv[k as int], target: id },
            ));
            assert(ops.deep_view() =~= ops_c + spawn_run(t1, id, g1).ops);
        }
        k = k + 1;
    }

    let ghost ops_s = ops.deep_view();
    let ghost rv = v.element_refs@;
    let nr = v.element_refs.len();
    let mut m: usize = 0;
    proof {
        assert(ops_s + fulfill_run(rv.take(0), id) =~= ops_s);
    }
    while m < nr
        invariant
            0 <= m <= nr,
            nr == v.element_refs.len(),
            rv == v.element_refs@,
            extends(base, ops.deep_view()),
            no_mutations(added(base, ops.deep_view())),
            ops.deep_view().len() == ops_s.len() + m,
            ops.deep_view().take(ops_s.len() as int) == ops_s,
            forall|j: int|
                0 <= j < m ==> #[trigger] ops.deep_view()[ops_s.len() + j] == (OpView::FulfillRef {
                    handle: v.element_refs@[j],
                    target: id,
                }),
            ops.deep_view() == ops_s + fulfill_run(rv.take(m as int), id),
        decreases nr - m,
    {
        let ghost mid = ops.deep_view();
        ops.push(DomOp::FulfillRef { handle: v.element_refs[m], target: id });
        proof {
            assert(ops.deep_view() =~= mid.push(
                OpView::FulfillRef { handle: v.element_refs@[m as int], target: id },
            ));
            assert(ops.deep_view().take(mid.len() as int) =~= mid);
            assert(ops.deep_view().take(ops_s.len() as int) =~= ops_s);
            lemma_added_chain(base, mid, ops.deep_view());
            assert(no_mutations(added(mid, ops.deep_view())));
            lemma_no_mutations_concat(added(base, mid), added(mid, ops.deep_view()));
            let t1 = rv.take(m as int + 1);
            assert(t1.subrange(0, m as int) =~= rv.take(m as int));
            assert(t1[m as int] == rv[m as int]);
            assert(fulfill_run(t1, id) == fulfill_run(rv.take(m as int), id).push(
                OpView::FulfillRef { handle: rv[m as int], target: id },
            ));
            assert(ops.deep_view() =~= ops_s + fulfill_run(t1, id));
        }
        m = m + 1;
    }
    proof {
        let fin = ops.deep_view();
        let add = added(base, fin);
        let sinks = v.sink_spawners@;
        let refs = v.element_refs@;
        assert(fin.len() == ops_c.len() + sinks.len() + refs.len());
        assert(add.len() == fin.len() - base.len());
        assert forall|j: int|
            0 <= j < sinks.len() implies {
                let op = #[trigger] add[add.len() - sinks.len() - refs.len() + j];
                op is SpawnSink && sink_of(op) == sinks[j] && target_of(op) == id
            } by {
            let p = add.len() - sinks.len() - refs.len() + j;
            assert(add[p] == fin[base.len() + p]);
            assert(base.len() + p == ops_c.len() + j);
            assert(fin[ops_c.len() + j] == ops_s[ops_c.len() + j]);
        }
        assert forall|j: int|
            0 <= j < refs.len() implies #[trigger] add[add.len() - refs.len() + j]
                == (OpView::FulfillRef { handle: refs[j], target: id }) by {
            let p = add.len() - refs.len() + j;
            assert(add[p] == fin[base.len() + p]);
            assert(base.len() + p == ops_s.len() + j);
        }
    }

    let r = LiveElement {
        id,
        tag_name: v.tag_name.clone(),
        is: match &v.is {
            Some(s) => Some(s.clone()),
            None => None,
        },
        attributes,
        is_input,
        checked,
        children,
    };
    proof {
        lemma_live_nodes_deep(r.children@);
        assert(r.deep_view().children =~= r.children.deep_view());
        assert(fresh_like_elem(r.deep_view(), v.deep_view()));
        let b = build_elem(v.deep_view(), next0);
        assert(v.deep_view().children == cv);
        assert(v.deep_view().sink_spawners == sv);
        assert(v.deep_view().element_refs == rv);
        assert(g0 == bump(next0));
        assert(g1 == bs_full.next);
        assert(sv.take(ns as int) =~= sv);
        assert(rv.take(nr as int) =~= rv);
        assert(ops_c =~= base + bs_full.ops);
        assert(ops_s =~= ops_c + spawn_run(sv, id, g1).ops);
        assert(ops.deep_view() =~= ops_s + fulfill_run(rv, id));
        assert(b.ops == bs_full.ops + spawn_run(sv, id, g1).ops + fulfill_run(rv, id));
        assert(ops.deep_view() =~= base + b.ops);
        assert(LiveView::Element(r.deep_view()) =~~= b.live);
        assert(gen.next == b.next);
    }
    r
}

/// Builds a live node afresh from a virtual node.
fn fresh_node(v: &VNode, gen: &mut IdGen, ops: &mut Vec<DomOp>) -> (r: LiveNode)
    ensures
        fresh_like(r.deep_view(), v.deep_view()),
        extends(old(ops).deep_view(), final(ops).deep_view()),
        no_mutations(added(old(ops).deep_view(), final(ops).deep_view())),
        v.deep_view() is Element ==> spawn_suffix(
            added(old(ops).deep_view(), final(ops).deep_view()),
            v.deep_view()->Element_0.sink_spawners,
            v.deep_view()->Element_0.element_refs,
            r.deep_view().id(),
        ),
        ({
            let b = build_node(v.deep_view(), old(gen).next);
            &&& r.deep_view() == b.live
            &&& final(ops).deep_view() == old(ops).deep_view() + b.ops
            &&& final(gen).next == b.next
        }),
    decreases v,
{
    match v {
        VNode::Text(s) => {
            let id = gen.fresh();
            proof {
                assert(ops.deep_view().take(ops.deep_view().len() as int) =~= ops.deep_view());
                assert(ops.deep_view() =~= ops.deep_view() + Seq::<OpView>::empty());
            }
            LiveNode::Text(LiveText { id, data: s.clone() })
        },
        VNode::Element(e) => {
            let el = fresh_element(e, gen, ops);
            LiveNode::Element(el)
        },
    }
}

// ---------------------------------------------------------------------------
// The node and child-list patch
// ---------------------------------------------------------------------------

/// Patches a live element in place against a next virtual element of the
/// same tag and customization tag: its attributes are patched per the diff
/// policy, its children positionally, and then the next element's sinks are
/// spawned against it and its capture handles filled.
#[verifier::rlimit(100)]
#[verifier::spinoff_prover]
fn patch_element(le: LiveElement, oe: &VElement, ne: &VElement, gen: &mut IdGen, ops: &mut Vec<
    DomOp,
>) -> (r: LiveElement)
    requires
        conforms_seq(le.deep_view().children, vnodes_deep(oe.children@)),
    ensures
        conforms_seq(r.deep_view().children, vnodes_deep(ne.children@)),
        r.id == le.id,
        extends(old(ops).deep_view(), final(ops).deep_view()),
        same_shape(NodeView::Element(oe.deep_view()), NodeView::Element(ne.deep_view())) && tidy(
            NodeView::Element(oe.deep_view()),
        ) ==> no_mutations(added(old(ops).deep_view(), final(ops).deep_view())),
        ({
            let add = added(old(ops).deep_view(), final(ops).deep_view());
            let d = attr_diff_ops(
                le.id,
                oe.attributes.deep_view(),
                ne.attributes.deep_view(),
                le.is_input,
            );
            &&& add.len() >= d.len()
            &&& add.take(d.len() as int) == d
            &&& spawn_suffix(add, ne.sink_spawners@, ne.element_refs@, le.id)
        }),
        ({
            let d = attr_diff_ops(
                le.id,
                oe.attributes.deep_view(),
                ne.attributes.deep_view(),
                le.is_input,
            );
            let kids = children_patch(
                le.deep_view().children,
                vnodes_deep(oe.children@),
                vnodes_deep(ne.children@),
                le.id,
                old(gen).next,
            );
            let srun = spawn_run(ne.sink_spawners@, le.id, kids.next);
            &&& r.deep_view() == (LiveElemView {
                children: kids.lives,
                ..apply_attr_ops(le.deep_view(), d)
            })
            &&& final(ops).deep_view() == old(ops).deep_view() + (d + (kids.ops + (srun.ops
                + fulfill_run(ne.element_refs@, le.id))))
            &&& final(gen).next == srun.next
        }),
    decreases oe,
{
    let ghost base = ops.deep_view();
    let ghost next0 = gen.next;
    proof {
        assert(base.take(base.len() as int) =~= base);
    }
    let ghost live0 = le.deep_view();
    let mut el = le;
    patch_attributes(&mut el, &oe.attributes, &ne.attributes, ops);
    let ghost ops1 = ops.deep_view();
    proof {
        assert(ops1.take(base.len() as int) =~= base);
        lemma_apply_attr_ops_frame(
            live0,
            attr_diff_ops(
                live0.id,
                oe.attributes.deep_view(),
                ne.attributes.deep_view(),
                live0.is_input,
            ),
        );
    }
    let LiveElement { id, tag_name, is, attributes, is_input, checked, children } = el;
    proof {
        lemma_live_nodes_deep(children@);
        assert(children.deep_view() =~= live0.children);
    }
    let out_children = patch_children(
        children,
        id,
        &oe.children,
        &ne.children,
        gen,
        ops,
    );
    let ghost ops2 = ops.deep_view();
    let ghost g1 = gen.next;
    let ghost sv = ne.sink_spawners@;
    proof {
        lemma_added_chain(base, ops1, ops2);
        assert(ops2.take(ops2.len() as int) =~= ops2);
        assert(ops2 + spawn_run(sv.take(0), id, g1).ops =~= ops2);
    }
    let ns = ne.sink_spawners.len();
    let mut k: usize = 0;
    while k < ns
        invariant
            0 <= k <= ns,
            ns == ne.sink_spawners.len(),
            sv == ne.sink_spawners@,
            extends(ops2, ops.deep_view()),
            no_mutations(added(ops2, ops.deep_view())),
            ops.deep_view().len() == ops2.len() + k,
            ops.deep_view().take(ops2.len() as int) == ops2,
            forall|j: int|
                0 <= j < k ==> {
                    let op = #[trigger] ops.deep_view()[ops2.len() + j];
                    op is SpawnSink && sink_of(op) == ne.sink_spawners@[j]
                        && target_of(op) == id
                },
            ops.deep_view() == ops2 + spawn_run(sv.take(k as int), id, g1).ops,
            gen.next == spawn_run(sv.take(k as int), id, g1).next,
        decreases ns - k,
    {
        let ghost mid = ops.deep_view();
        let ghost sr0 = spawn_run(sv.take(k as int), id, g1);
        let task = gen.fresh();
        ops.push(DomOp::SpawnSink { task, sink: ne.sink_spawners[k], target: id });
        proof {
            assert(ops.deep_view() =~= mid.push(
                OpView::SpawnSink {
                    task,
                    sink: ne.sink_spawners@[k as int],
                    target: id,
                },
            ));
            assert(ops.deep_view().take(mid.len() as int) =~= mid);
            assert(ops.deep_view().take(ops2.len() as int) =~= ops2);
            lemma_added_chain(ops2, mid, ops.deep_view());
            assert(no_mutations(added(mid, ops.deep_view())));
            lemma_no_mutations_concat(added(ops2, mid), added(mid, ops.deep_view()));
            let t1 = sv.take(k as int + 1);
            assert(t1.subrange(0, k as int) =~= sv.take(k as int));
            assert(t1[k as int] == sv[k as int]);
            assert(task == sr0.next);
            assert(spawn_run(t1, id, g1).ops == sr0.ops.push(
                OpView::SpawnSink { task: sr0.next, sink: sv[k as int], target: id },
            ));
            assert(ops.deep_view() =~= ops2 + spawn_run(t1, id, g1).ops);
        }
        k = k + 1;
    }
    let ghost ops3 = ops.deep_view();
    let ghost rv = ne.element_refs@;
    let nr = ne.element_refs.len();
    let mut m: usize = 0;
    proof {
        assert(ops3 + fulfill_run(rv.take(0), id) =~= ops3);
    }
    while m < nr
        invariant
            0 <= m <= nr,
            nr == ne.element_refs.len(),
            rv == ne.element_refs@,
            extends(ops2, ops.deep_view()),
            no_mutations(added(ops2, ops.deep_view())),
            ops.deep_view().len() == ops3.len() + m,
            ops.deep_view().take(ops3.len() as int) == ops3,
            forall|j: int|
                0 <= j < m ==> #[trigger] ops.deep_view()[ops3.len() + j]
                    == (OpView::FulfillRef {
                    handle: ne.element_refs@[j],
                    target: id,
                }),
            ops.deep_view() == ops3 + fulfill_run(rv.take(m as int), id),
        decreases nr - m,
    {
        let ghost mid = ops.deep_view();
        ops.push(DomOp::FulfillRef { handle: ne.element_refs[m], target: id });
        proof {
            assert(ops.deep_view() =~= mid.push(
                OpView::FulfillRef {
                    handle: ne.element_refs@[m as int],
                    target: id,
                },
            ));
            assert(ops.deep_view().take(mid.len() as int) =~= mid);
            assert(ops.deep_view().take(ops3.len() as int) =~= ops3);
            lemma_added_chain(ops2, mid, ops.deep_view());
            assert(no_mutations(added(mid, ops.deep_view())));
            lemma_no_mutations_concat(added(ops2, mid), added(mid, ops.deep_view()));
            let t1 = rv.take(m as int + 1);
            assert(t1.subrange(0, m as int) =~= rv.take(m as int));
            assert(t1[m as int] == rv[m as int]);
            assert(fulfill_run(t1, id) == fulfill_run(rv.take(m as int), id).push(
                OpView::FulfillRef { handle: rv[m as int], target: id },
            ));
            assert(ops.deep_view() =~= ops3 + fulfill_run(t1, id));
        }
        m = m + 1;
    }
    let r_el = LiveElement {
        id,
        tag_name,
        is,
        attributes,
        is_input,
        checked,
        children: out_children,
    };
    proof {
        lemma_added_chain(base, ops2, ops.deep_view());
        lemma_added_chain(ops1, ops2, ops.deep_view());
        let fin = ops.deep_view();
        let add = added(base, fin);
        let d = attr_diff_ops(
            live0.id,
            oe.attributes.deep_view(),
            ne.attributes.deep_view(),
            live0.is_input,
        );
        let sinks = ne.sink_spawners@;
        let refs = ne.element_refs@;
        assert(fin.len() == ops3.len() + refs.len());
        assert(ops3.len() == ops2.len() + sinks.len());
        assert(add.len() == fin.len() - base.len());
        assert forall|p: int| 0 <= p < d.len() implies add[p] == d[p] by {
            assert(add[p] == fin[base.len() + p]);
            assert(fin[base.len() + p] == ops1[base.len() + p]);
            assert(ops1[base.len() + p] == d[p]);
        }
        assert(add.take(d.len() as int) =~= d);
        assert forall|j: int|
            0 <= j < sinks.len() implies {
                let op = #[trigger] add[add.len() - sinks.len() - refs.len() + j];
                op is SpawnSink && sink_of(op) == sinks[j] && target_of(op) == id
            } by {
            let p = add.len() - sinks.len() - refs.len() + j;
            assert(add[p] == fin[base.len() + p]);
            assert(base.len() + p == ops2.len() + j);
            assert(fin[ops2.len() + j] == ops3[ops2.len() + j]);
        }
        assert forall|j: int|
            0 <= j < refs.len() implies #[trigger] add[add.len() - refs.len() + j]
                == (OpView::FulfillRef { handle: refs[j], target: id }) by {
            let p = add.len() - refs.len() + j;
            assert(add[p] == fin[base.len() + p]);
            assert(base.len() + p == ops3.len() + j);
        }
        lemma_live_nodes_deep(r_el.children@);
        assert(r_el.deep_view().children =~= r_el.children.deep_view());
        let ove = NodeView::Element(oe.deep_view());
        let nve = NodeView::Element(ne.deep_view());
        if same_shape(ove, nve) && tidy(ove) {
            let oa = oe.attributes.deep_view();
            let na = ne.attributes.deep_view();
            assert(oa == na);
            lemma_attr_diff_identical(live0.id, oa, live0.is_input);
            assert(added(base, ops1) =~= Seq::<OpView>::empty());
            assert(no_mutations(added(base, ops1)));
            assert(no_mutations(added(ops1, ops2)));
            lemma_no_mutations_concat(added(base, ops1), added(ops1, ops2));
            lemma_no_mutations_concat(added(base, ops2), added(ops2, ops.deep_view()));
            assert(no_mutations(added(base, ops.deep_view())));
        }
        let bkids = children_patch(
            live0.children,
            vnodes_deep(oe.children@),
            vnodes_deep(ne.children@),
            live0.id,
            next0,
        );
        assert(id == live0.id);
        assert(out_children.deep_view() == bkids.lives);
        assert(ops2 == ops1 + bkids.ops);
        assert(g1 == bkids.next);
        assert(ops1 == base + d);
        let srun = spawn_run(sinks, live0.id, g1);
        assert(sv.take(ns as int) =~= sv);
        assert(rv.take(nr as int) =~= rv);
        assert(ops3 =~= ops2 + srun.ops);
        assert(fin =~= ops3 + fulfill_run(refs, live0.id));
        assert(fin =~= base + (d + (bkids.ops + (srun.ops + fulfill_run(
            refs,
            live0.id,
        )))));
        let ea = apply_attr_ops(live0, d);
        assert(r_el.deep_view() =~~= (LiveElemView { children: bkids.lives, ..ea }));
        assert(gen.next == srun.next);
    }
    r_el
}

/// Patches one live node from the previous to the next virtual node. Text
/// against text updates the character data in place if it differs; an
/// element against an element of the same tag and customization tag is
/// patched in place (attributes, children, then this node's sinks and
/// capture handles); any other combination replaces the live node wholesale
/// with a fresh build.
#[verifier::rlimit(100)]
#[verifier::spinoff_prover]
pub fn patch_node(live: LiveNode, o: &VNode, n: &VNode, gen: &mut IdGen, ops: &mut Vec<DomOp>) -> (r:
    LiveNode)
    requires
        conforms(live.deep_view(), o.deep_view()),
    ensures
        conforms(r.deep_view(), n.deep_view()),
        extends(old(ops).deep_view(), final(ops).deep_view()),
        same_shape(o.deep_view(), n.deep_view()) && tidy(o.deep_view()) ==> no_mutations(
            added(old(ops).deep_view(), final(ops).deep_view()),
        ),
        !compatible(o.deep_view(), n.deep_view()) ==> {
            let add = added(old(ops).deep_view(), final(ops).deep_view());
            &&& add.len() >= 1
            &&& add[add.len() - 1] == (OpView::ReplaceNode {
                old_node: live.deep_view().id(),
                new_node: r.deep_view().id(),
            })
            &&& forall|i: int| 0 <= i < add.len() - 1 ==> !is_mutation(#[trigger] add[i])
            &&& fresh_like(r.deep_view(), n.deep_view())
            &&& n.deep_view() is Element ==> spawn_suffix(
                add.take(add.len() - 1),
                n.deep_view()->Element_0.sink_spawners,
                n.deep_view()->Element_0.element_refs,
                r.deep_view().id(),
            )
        },
        o.deep_view() is Text && n.deep_view() is Text ==> {
            let od = o.deep_view()->Text_0;
            let nd = n.deep_view()->Text_0;
            let add = added(old(ops).deep_view(), final(ops).deep_view());
            &&& r.deep_view() == (if od == nd {
                live.deep_view()
            } else {
                LiveView::Text(LiveTextView { id: live.deep_view().id(), data: nd })
            })
            &&& add == (if od == nd {
                Seq::<OpView>::empty()
            } else {
                seq![OpView::SetText { node: live.deep_view().id(), data: nd }]
            })
        },
        compatible(o.deep_view(), n.deep_view()) && o.deep_view() is Element ==> r.deep_view().id()
            == live.deep_view().id(),
        compatible(o.deep_view(), n.deep_view()) && o.deep_view() is Element ==> {
            let add = added(old(ops).deep_view(), final(ops).deep_view());
            let d = attr_diff_ops(
                live.deep_view().id(),
                o.deep_view()->Element_0.attributes,
                n.deep_view()->Element_0.attributes,
                live.deep_view()->Element_0.is_input,
            );
            &&& add.len() >= d.len()
            &&& add.take(d.len() as int) == d
            &&& spawn_suffix(
                add,
                n.deep_view()->Element_0.sink_spawners,
                n.deep_view()->Element_0.element_refs,
                live.deep_view().id(),
            )
        },
        ({
            let b = node_patch(live.deep_view(), o.deep_view(), n.deep_view(), old(gen).next);
            &&& r.deep_view() == b.live
            &&& final(ops).deep_view() == old(ops).deep_view() + b.ops
            &&& final(gen).next == b.next
        }),
    decreases o,
{
    let ghost base = ops.deep_view();
    let ghost next0 = gen.next;
    proof {
        assert(base.take(base.len() as int) =~= base);
    }
    match (live, o, n) {
        (LiveNode::Text(t), VNode::Text(od), VNode::Text(nd)) => {
            proof {
                assert(compatible(o.deep_view(), n.deep_view()));
            }
            if *od == *nd {
                proof {
                    assert(added(base, ops.deep_view()) =~= Seq::<OpView>::empty());
                    assert(no_mutations(added(base, ops.deep_view())));
                    assert(ops.deep_view() =~= base + Seq::<OpView>::empty());
                }
                LiveNode::Text(t)
            } else {
                ops.push(DomOp::SetText { node: t.id, data: nd.clone() });
                proof {
                    assert(ops.deep_view() =~= base.push(
                        OpView::SetText { node: t.id, data: nd@ },
                    ));
                    assert(ops.deep_view().take(base.len() as int) =~= base);
                    assert(added(base, ops.deep_view()) =~= seq![
                        OpView::SetText { node: t.id, data: nd@ },
                    ]);
                    assert(!same_shape(o.deep_view(), n.deep_view()));
                    assert(ops.deep_view() =~= base + seq![
                        OpView::SetText { node: t.id, data: nd@ },
                    ]);
                }
                LiveNode::Text(LiveText { id: t.id, data: nd.clone() })
            }
        },
        (LiveNode::Element(le), VNode::Element(oe), VNode::Element(ne)) => {
            let tag_eq = oe.tag_name == ne.tag_name;
            let is_eq = match (&oe.is, &ne.is) {
                (Some(a), Some(b)) => *a == *b,
                (None, None) => true,
                _ => false,
            };
            if tag_eq && is_eq {
                let ghost live0 = le.deep_view();
                let r_el = patch_element(le, oe, ne, gen, ops);
                proof {
                    let ov = o.deep_view();
                    let nv = n.deep_view();
                    assert(ov->Element_0 == oe.deep_view());
                    assert(nv->Element_0 == ne.deep_view());
                    assert(live.deep_view()->Element_0 == live0);
                    assert(compatible(ov, nv));
                    let d = attr_diff_ops(
                        live0.id,
                        oe.attributes.deep_view(),
                        ne.attributes.deep_view(),
                        live0.is_input,
                    );
                    lemma_apply_attr_ops_frame(live0, d);
                    let bkids = children_patch(
                        live0.children,
                        vnodes_deep(oe.children@),
                        vnodes_deep(ne.children@),
                        live0.id,
                        next0,
                    );
                    let srun = spawn_run(ne.sink_spawners@, live0.id, bkids.next);
                    let bn = node_patch(live.deep_view(), ov, nv, next0);
                    assert(bn.live == LiveView::Element(
                        LiveElemView { children: bkids.lives, ..apply_attr_ops(live0, d) },
                    ));
                    assert(bn.ops == d + bkids.ops + srun.ops + fulfill_run(
                        ne.element_refs@,
                        live0.id,
                    ));
                    assert(bn.next == srun.next);
                    assert(LiveNode::Element(r_el).deep_view() == bn.live);
                    assert(ops.deep_view() =~= base + bn.ops);
                    assert(conforms(LiveNode::Element(r_el).deep_view(), nv));
                    if same_shape(ov, nv) && tidy(ov) {
                        assert(no_mutations(added(base, ops.deep_view())));
                    }
                }
                LiveNode::Element(r_el)
            } else {
                let f = fresh_node(n, gen, ops);
                let ghost ops1 = ops.deep_view();
                let fid = node_id(&f);
                ops.push(DomOp::ReplaceNode { old_node: le.id, new_node: fid });
                proof {
                    assert(ops.deep_view() =~= ops1.push(
                        OpView::ReplaceNode { old_node: le.id, new_node: fid },
                    ));
                    assert(ops.deep_view().take(ops1.len() as int) =~= ops1);
                    lemma_added_chain(base, ops1, ops.deep_view());
                    lemma_fresh_like_conforms(f.deep_view(), n.deep_view());
                    let add = added(base, ops.deep_view());
                    assert(add[add.len() - 1] == (OpView::ReplaceNode {
                        old_node: le.id,
                        new_node: fid,
                    }));
                    assert forall|i: int| 0 <= i < add.len() - 1 implies !is_mutation(
                        #[trigger] add[i],
                    ) by {
                        assert(add[i] == added(base, ops1)[i]);
                    }
                    assert(add.take(add.len() - 1) =~= added(base, ops1));
                    let b2 = build_node(n.deep_view(), next0);
                    assert(!compatible(o.deep_view(), n.deep_view()));
                    assert(fid == b2.live.id());
                    assert(live.deep_view().id() == le.id);
                    assert(ops.deep_view() =~= base + b2.ops.push(
                        OpView::ReplaceNode { old_node: le.id, new_node: fid },
                    ));
                }
                f
            }
        },
        (l_any, _, _) => {
            let oid = node_id(&l_any);
            let f = fresh_node(n, gen, ops);
            let ghost ops1 = ops.deep_view();
            let fid = node_id(&f);
            ops.push(DomOp::ReplaceNode { old_node: oid, new_node: fid });
            proof {
                assert(ops.deep_view() =~= ops1.push(
                    OpView::ReplaceNode { old_node: oid, new_node: fid },
                ));
                assert(ops.deep_view().take(ops1.len() as int) =~= ops1);
                lemma_added_chain(base, ops1, ops.deep_view());
                lemma_fresh_like_conforms(f.deep_view(), n.deep_view());
                let add = added(base, ops.deep_view());
                assert(add[add.len() - 1] == (OpView::ReplaceNode {
                    old_node: oid,
                    new_node: fid,
                }));
                assert forall|i: int| 0 <= i < add.len() - 1 implies !is_mutation(
                    #[trigger] add[i],
                ) by {
                    assert(add[i] == added(base, ops1)[i]);
                }
                assert(add.take(add.len() - 1) =~= added(base, ops1));
                let b2 = build_node(n.deep_view(), next0);
                assert(fid == b2.live.id());
                assert(live.deep_view().id() == oid);
                assert(ops.deep_view() =~= base + b2.ops.push(
                    OpView::ReplaceNode { old_node: oid, new_node: fid },
                ));
                let ov = o.deep_view();
                let nv = n.deep_view();
                if ov is Text && nv is Text {
                    // the previous and next virtual nodes agree in kind, so
                    // the live node disagrees with the previous one, against
                    // conformance
                    assert(l_any is Element);
                    assert(!conforms(l_any.deep_view(), ov));
                    assert(false);
                }
                if ov is Element && nv is Element {
                    assert(l_any is Text);
                    assert(!conforms(l_any.deep_view(), ov));
                    assert(false);
                }
            }
            f
        },
    }
}

/// Patches a live child list positionally: nodes are patched index by index
/// up to the shorter length, excess previous children are removed from the
/// tail, and excess next children are appended fresh, in order.
#[verifier::rlimit(100)]
#[verifier::spinoff_prover]
pub fn patch_children(
    live_children: Vec<LiveNode>,
    parent: u64,
    o: &Vec<VNode>,
    n: &Vec<VNode>,
    gen: &mut IdGen,
    ops: &mut Vec<DomOp>,
) -> (r: Vec<LiveNode>)
    requires
        conforms_seq(live_children.deep_view(), vnodes_deep(o@)),
    ensures
        conforms_seq(r.deep_view(), vnodes_deep(n@)),
        extends(old(ops).deep_view(), final(ops).deep_view()),
        same_shape_seq(vnodes_deep(o@), vnodes_deep(n@)) && tidy_seq(vnodes_deep(o@))
            ==> no_mutations(added(old(ops).deep_view(), final(ops).deep_view())),
        forall|w: int|
            0 <= w < vnodes_deep(o@).len() && w < vnodes_deep(n@).len() && compatible(
                vnodes_deep(o@)[w],
                #[trigger] vnodes_deep(n@)[w],
            ) ==> r.deep_view()[w].id() == live_children.deep_view()[w].id(),
        forall|w: int|
            vnodes_deep(o@).len() <= w < vnodes_deep(n@).len() ==> fresh_like(
                #[trigger] r.deep_view()[w],
                vnodes_deep(n@)[w],
            ),
        ({
            let b = children_patch(
                live_children.deep_view(),
                vnodes_deep(o@),
                vnodes_deep(n@),
                parent,
                old(gen).next,
            );
            &&& r.deep_view() == b.lives
            &&& final(ops).deep_view() == old(ops).deep_view() + b.ops
            &&& final(gen).next == b.next
        }),
    decreases o@,
{
    let ghost base = ops.deep_view();
    let ghost live0 = live_children.deep_view();
    let ghost ov = vnodes_deep(o@);
    let ghost nv = vnodes_deep(n@);
    let ghost g0 = gen.next;
    proof {
        assert(base.take(base.len() as int) =~= base);
        lemma_vnodes_deep(o@);
        lemma_vnodes_deep(n@);
    }
    let n_old = o.len();
    let n_new = n.len();
    let overlap = if n_old < n_new {
        n_old
    } else {
        n_new
    };
    let mut rest = live_children;
    let mut out: Vec<LiveNode> = Vec::new();
    let mut i: usize = 0;
    proof {
        assert(rest.deep_view() =~= live0.skip(0));
        assert(out.deep_view() =~= Seq::<LiveView>::empty());
        assert(nv.take(0) =~= Seq::<NodeView>::empty());
        assert(base + overlap_patch(live0, ov, nv, 0, g0).ops =~= base);
    }
    while i < overlap
        invariant
            0 <= i <= overlap,
            overlap <= n_old,
            overlap <= n_new,
            n_old == o.len(),
            n_new == n.len(),
            ov == vnodes_deep(o@),
            nv == vnodes_deep(n@),
            ov.len() == n_old,
            nv.len() == n_new,
            forall|w: int| 0 <= w < n_old ==> ov[w] == o@[w].deep_view(),
            forall|w: int| 0 <= w < n_new ==> nv[w] == n@[w].deep_view(),
            live0.len() == n_old,
            conforms_seq(live0, ov),
            rest.deep_view() == live0.skip(i as int),
            out.deep_view().len() == i,
            conforms_seq(out.deep_view(), nv.take(i as int)),
            extends(base, ops.deep_view()),
            (same_shape_seq(ov, nv) && tidy_seq(ov)) ==> no_mutations(
                added(base, ops.deep_view()),
            ),
            forall|w: int|
                0 <= w < i && compatible(ov[w], #[trigger] nv[w]) ==> out.deep_view()[w].id()
                    == live0[w].id(),
            out.deep_view() == overlap_patch(live0, ov, nv, i as int, g0).lives,
            ops.deep_view() == base + overlap_patch(live0, ov, nv, i as int, g0).ops,
            gen.next == overlap_patch(live0, ov, nv, i as int, g0).next,
        decreases overlap - i,
    {
        proof {
            assert(live0.skip(i as int).len() == live0.len() - i);
            assert(rest.deep_view().len() == rest@.len());
        }
        let ghost rest_sh = rest@;
        let ghost rest_deep = rest.deep_view();
        let lv = rest.remove(0);
        proof {
            assert(rest_deep == live0.skip(i as int));
            assert(lv == rest_sh[0]);
            assert(rest_deep[0] == rest_sh[0].deep_view());
            assert(lv.deep_view() == live0[i as int]);
            assert(rest@ == rest_sh.remove(0));
            assert(rest_sh.remove(0) =~= rest_sh.subrange(1, rest_sh.len() as int));
            assert forall|w: int| 0 <= w < rest.deep_view().len() implies rest.deep_view()[w]
                == live0.skip(i as int + 1)[w] by {
                assert(rest.deep_view()[w] == rest@[w].deep_view());
                assert(rest@[w] == rest_sh[w + 1]);
                assert(rest_deep[w + 1] == rest_sh[w + 1].deep_view());
                assert(rest_deep[w + 1] == live0[i as int + 1 + w]);
            }
            assert(rest.deep_view() =~= live0.skip(i as int + 1));
            lemma_conforms_seq_index(live0, ov, i as int);
        }
        let ghost mid = ops.deep_view();
        let ghost ob0 = overlap_patch(live0, ov, nv, i as int, g0);
        let rr = patch_node(lv, &o[i], &n[i], gen, ops);
        let ghost out_pre = out.deep_view();
        out.push(rr);
        proof {
            lemma_added_chain(base, mid, ops.deep_view());
            assert(out.deep_view() =~= out_pre.push(rr.deep_view()));
            assert(nv.take(i as int + 1) =~= nv.take(i as int).push(nv[i as int]));
            lemma_conforms_seq_push(out_pre, nv.take(i as int), rr.deep_view(), nv[i as int]);
            if same_shape_seq(ov, nv) && tidy_seq(ov) {
                lemma_same_shape_seq_index(ov, nv, i as int);
                lemma_tidy_seq_index(ov, i as int);
                assert(no_mutations(added(mid, ops.deep_view())));
                lemma_no_mutations_concat(added(base, mid), added(mid, ops.deep_view()));
            }
            if compatible(ov[i as int], nv[i as int]) {
                assert(rr.deep_view().id() == live0[i as int].id());
            }
            let one = node_patch(live0[i as int], ov[i as int], nv[i as int], ob0.next);
            let ob1 = overlap_patch(live0, ov, nv, i as int + 1, g0);
            assert(rr.deep_view() == one.live);
            assert(ob1.lives == ob0.lives.push(one.live));
            assert(ob1.ops == ob0.ops + one.ops);
            assert(ob1.next == one.next);
            assert(ops.deep_view() =~= base + ob1.ops);
        }
        i = i + 1;
    }
    let ghost ob_full = overlap_patch(live0, ov, nv, overlap as int, g0);

    let remove_count = n_old - overlap;
    let mut j: usize = 0;
    proof {
        assert(base + ob_full.ops + Seq::new(
            0,
            |q: int| OpView::RemoveLastChild { parent },
        ) =~= base + ob_full.ops);
    }
    while j < remove_count
        invariant
            0 <= j <= remove_count,
            remove_count == n_old - overlap,
            ov == vnodes_deep(o@),
            nv == vnodes_deep(n@),
            ov.len() == n_old,
            nv.len() == n_new,
            overlap <= n_new,
            remove_count > 0 ==> overlap == n_new,
            extends(base, ops.deep_view()),
            (same_shape_seq(ov, nv) && tidy_seq(ov)) ==> no_mutations(
                added(base, ops.deep_view()),
            ),
            ops.deep_view() == base + ob_full.ops + Seq::new(
                j as nat,
                |q: int| OpView::RemoveLastChild { parent },
            ),
            gen.next == ob_full.next,
        decreases remove_count - j,
    {
        let ghost mid = ops.deep_view();
        ops.push(DomOp::RemoveLastChild { parent });
        let _ = rest.pop();
        proof {
            assert(ops.deep_view() =~= mid.push(OpView::RemoveLastChild { parent }));
            assert(ops.deep_view().take(mid.len() as int) =~= mid);
            lemma_added_chain(base, mid, ops.deep_view());
            if same_shape_seq(ov, nv) {
                // identical shapes have identical lengths, so there is
                // nothing to remove
                assert(ops.deep_view() =~= base + ob_full.ops + Seq::new(
                    (j + 1) as nat,
                    |q: int| OpView::RemoveLastChild { parent },
                ));
                assert(ov.len() == nv.len());
                assert(false);
            }
            assert(ops.deep_view() =~= base + ob_full.ops + Seq::new(
                (j + 1) as nat,
                |q: int| OpView::RemoveLastChild { parent },
            ));
        }
        j = j + 1;
    }
    let ghost removes_full = Seq::new(
        (n_old - overlap) as nat,
        |q: int| OpView::RemoveLastChild { parent },
    );
    proof {
        assert(ops.deep_view() =~= base + ob_full.ops + removes_full);
        assert(out.deep_view() =~= ob_full.lives + append_run(
            nv.subrange(overlap as int, overlap as int),
            parent,
            ob_full.next,
        ).lives);
        assert(ops.deep_view() =~= base + ob_full.ops + removes_full + append_run(
            nv.subrange(overlap as int, overlap as int),
            parent,
            ob_full.next,
        ).ops);
    }

    let mut k: usize = overlap;
    while k < n_new
        invariant
            overlap <= k <= n_new,
            n_new == n.len(),
            ov == vnodes_deep(o@),
            nv == vnodes_deep(n@),
            ov.len() == n_old,
            nv.len() == n_new,
            k > overlap ==> overlap == n_old,
            n_new > overlap ==> overlap == n_old,
            forall|w: int| 0 <= w < n_new ==> nv[w] == n@[w].deep_view(),
            live0 == live_children.deep_view(),
            live0.len() == n_old,
            out.deep_view().len() == k,
            conforms_seq(out.deep_view(), nv.take(k as int)),
            extends(base, ops.deep_view()),
            (same_shape_seq(ov, nv) && tidy_seq(ov)) ==> no_mutations(
                added(base, ops.deep_view()),
            ),
            forall|w: int|
                0 <= w < overlap && compatible(ov[w], #[trigger] nv[w]) ==> out.deep_view()[w].id()
                    == live0[w].id(),
            forall|w: int|
                overlap <= w < k ==> fresh_like(#[trigger] out.deep_view()[w], nv[w]),
            out.deep_view() == ob_full.lives + append_run(
                nv.subrange(overlap as int, k as int),
                parent,
                ob_full.next,
            ).lives,
            ops.deep_view() == base + ob_full.ops + removes_full + append_run(
                nv.subrange(overlap as int, k as int),
                parent,
                ob_full.next,
            ).ops,
            gen.next == append_run(
                nv.subrange(overlap as int, k as int),
                parent,
                ob_full.next,
            ).next,
        decreases n_new - k,
    {
        let ghost mid = ops.deep_view();
        let ghost ar0 = append_run(nv.subrange(overlap as int, k as int), parent, ob_full.next);
        let f = fresh_node(&n[k], gen, ops);
        let ghost fv = f.deep_view();
        let ghost ops1 = ops.deep_view();
        let fid = node_id(&f);
        ops.push(DomOp::AppendChild { parent, child: fid });
        let ghost out_pre = out.deep_view();
        out.push(f);
        proof {
            assert(ops.deep_view() =~= ops1.push(OpView::AppendChild { parent, child: fid }));
            assert(ops.deep_view().take(ops1.len() as int) =~= ops1);
            lemma_added_chain(base, mid, ops1);
            lemma_added_chain(base, ops1, ops.deep_view());
            lemma_fresh_like_conforms(fv, nv[k as int]);
            assert(out.deep_view() =~= out_pre.push(fv));
            assert(nv.take(k as int + 1) =~= nv.take(k as int).push(nv[k as int]));
            lemma_conforms_seq_push(out_pre, nv.take(k as int), fv, nv[k as int]);
            if same_shape_seq(ov, nv) {
                assert(ov.len() == nv.len());
                assert(false);
            }
            let s1 = nv.subrange(overlap as int, k as int + 1);
            assert(s1.subrange(0, s1.len() - 1) =~= nv.subrange(overlap as int, k as int));
            assert(s1[s1.len() - 1] == nv[k as int]);
            let b = build_node(nv[k as int], ar0.next);
            assert(fv == b.live);
            assert(fid == b.live.id());
            let ar1 = append_run(s1, parent, ob_full.next);
            assert(ar1.lives == ar0.lives.push(b.live));
            assert(ar1.ops == ar0.ops + b.ops.push(
                OpView::AppendChild { parent, child: b.live.id() },
            ));
            assert(ar1.next == b.next);
            assert(ops.deep_view() =~= base + ob_full.ops + removes_full + ar1.ops);
            assert(out.deep_view() =~= ob_full.lives + ar1.lives);
        }
        k = k + 1;
    }
    proof {
        assert(nv.take(n_new as int) =~= nv);
        let bfull = children_patch(live0, ov, nv, parent, g0);
        let kk = if ov.len() <= nv.len() {
            ov.len() as int
        } else {
            nv.len() as int
        };
        assert(kk == overlap as int);
        assert(nv.skip(overlap as int) =~= nv.subrange(overlap as int, n_new as int));
        let ar = append_run(nv.subrange(overlap as int, n_new as int), parent, ob_full.next);
        assert(bfull.lives == ob_full.lives + ar.lives);
        assert(bfull.ops =~= ob_full.ops + removes_full + ar.ops);
        assert(out.deep_view() == bfull.lives);
        assert(ops.deep_view() =~= base + bfull.ops);
        assert(gen.next == bfull.next);
    }
    out
}

/// Patches the live tree under `container` from the previous to the next
/// virtual tree: the container's child list is reconciled positionally
/// against the two root forests. Every operation performed on the live tree
/// is appended to `ops` in order; the resulting children, the operations and
/// the advanced identifier counter are exactly [`children_patch`] of the
/// inputs. Patching a tree onto a structurally identical tidy tree performs
/// no mutation: only event sinks are spawned and capture handles filled.
/// When the live children carried what the previous roots describe,
/// [`lemma_children_patch_matches`] yields that afterwards they carry what
/// the next roots describe.
pub fn patch_dom(
    container: &mut LiveElement,
    old_tree: &VDom,
    new_tree: &VDom,
    gen: &mut IdGen,
    ops: &mut Vec<DomOp>,
)
    requires
        old_tree.finished(),
        new_tree.finished(),
        conforms_seq(old(container).deep_view().children, old_tree.roots()),
    ensures
        conforms_seq(final(container).deep_view().children, new_tree.roots()),
        final(container).id == old(container).id,
        final(container).tag_name == old(container).tag_name,
        final(container).is == old(container).is,
        final(container).attributes == old(container).attributes,
        final(container).is_input == old(container).is_input,
        final(container).checked == old(container).checked,
        extends(old(ops).deep_view(), final(ops).deep_view()),
        same_shape_seq(old_tree.roots(), new_tree.roots()) && tidy_seq(old_tree.roots())
            ==> no_mutations(added(old(ops).deep_view(), final(ops).deep_view())),
        forall|w: int|
            0 <= w < old_tree.roots().len() && w < new_tree.roots().len() && compatible(
                old_tree.roots()[w],
                #[trigger] new_tree.roots()[w],
            ) ==> final(container).deep_view().children[w].id() == old(
                container,
            ).deep_view().children[w].id(),
        forall|w: int|
            old_tree.roots().len() <= w < new_tree.roots().len() ==> fresh_like(
                #[trigger] final(container).deep_view().children[w],
                new_tree.roots()[w],
            ),
        ({
            let b = children_patch(
                old(container).deep_view().children,
                old_tree.roots(),
                new_tree.roots(),
                old(container).id,
                old(gen).next,
            );
            &&& final(container).deep_view().children == b.lives
            &&& final(ops).deep_view() == old(ops).deep_view() + b.ops
            &&& final(gen).next == b.next
        }),
{
    proof {
        old_tree.lemma_tree_views();
        new_tree.lemma_tree_views();
        lemma_live_nodes_deep(container.children@);
        assert(container.deep_view().children =~= container.children.deep_view());
    }
    let mut kids: Vec<LiveNode> = Vec::new();
    core::mem::swap(&mut kids, &mut container.children);
    let parent = container.id;
    let out = patch_children(kids, parent, &old_tree.nodes, &new_tree.nodes, gen, ops);
    container.children = out;
    proof {
        lemma_live_nodes_deep(container.children@);
        assert(container.deep_view().children =~= container.children.deep_view());
    }
}

} // verus!
