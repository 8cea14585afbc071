use guise::caseless::eq_ascii;
use guise::live::{IdGen, LiveElement, LiveNode};
use guise::ops::{DomOp, collect_spawn_tasks};
use guise::patch_dom::{patch_attributes, patch_dom};
use guise::vdom::{Attr, VDom};

fn container() -> LiveElement {
    LiveElement {
        id: 0,
        tag_name: "host".to_string(),
        is: None,
        attributes: Vec::new(),
        is_input: false,
        checked: false,
        children: Vec::new(),
    }
}

fn attr(name: &str, value: &str) -> Attr {
    Attr { name: name.to_string(), value: value.to_string() }
}

fn mutation_count(ops: &[DomOp]) -> usize {
    ops.iter()
        .filter(|op| !matches!(op, DomOp::SpawnSink { .. } | DomOp::FulfillRef { .. }))
        .count()
}

fn sample_tree() -> VDom {
    let mut t = VDom::new();
    t.open_child("div".to_string());
    t.attr("class".to_string(), "box".to_string());
    t.text("hello".to_string());
    t.open_child("span".to_string());
    t.text("inner".to_string());
    t.close_child();
    t.close_child();
    t
}

fn text_forest(texts: &[&str]) -> VDom {
    let mut t = VDom::new();
    for s in texts {
        t.text(s.to_string());
    }
    t
}

#[test]
fn repatch_identical_tree_emits_no_mutations() {
    let mut c = container();
    let mut gen = IdGen::new();
    let empty = VDom::new();
    let t1 = sample_tree();
    let mut setup_ops: Vec<DomOp> = Vec::new();
    patch_dom(&mut c, &empty, &t1, &mut gen, &mut setup_ops);
    assert_eq!(c.children.len(), 1);

    let t2 = sample_tree();
    let mut ops: Vec<DomOp> = Vec::new();
    patch_dom(&mut c, &t1, &t2, &mut gen, &mut ops);
    assert_eq!(mutation_count(&ops), 0);
    assert_eq!(ops.len(), 0);
}

#[test]
fn positional_diff_patches_in_place_and_removes_tail() {
    let mut c = container();
    let mut gen = IdGen::new();
    let empty = VDom::new();
    let prev = text_forest(&["a", "b", "c"]);
    let mut setup_ops: Vec<DomOp> = Vec::new();
    patch_dom(&mut c, &empty, &prev, &mut gen, &mut setup_ops);
    assert_eq!(c.children.len(), 3);

    let next = text_forest(&["a", "x"]);
    let mut ops: Vec<DomOp> = Vec::new();
    patch_dom(&mut c, &prev, &next, &mut gen, &mut ops);
    assert_eq!(ops.len(), 2);
    assert!(matches!(&ops[0], DomOp::SetText { data, .. } if data == "x"));
    assert!(matches!(&ops[1], DomOp::RemoveLastChild { parent: 0 }));
    assert_eq!(c.children.len(), 2);
    assert!(matches!(&c.children[0], LiveNode::Text(t) if t.data == "a"));
    assert!(matches!(&c.children[1], LiveNode::Text(t) if t.data == "x"));
}

#[test]
fn positional_diff_appends_excess_children_in_order() {
    let mut c = container();
    let mut gen = IdGen::new();
    let empty = VDom::new();
    let prev = text_forest(&["a"]);
    let mut setup_ops: Vec<DomOp> = Vec::new();
    patch_dom(&mut c, &empty, &prev, &mut gen, &mut setup_ops);

    let next = text_forest(&["a", "b", "c"]);
    let mut ops: Vec<DomOp> = Vec::new();
    patch_dom(&mut c, &prev, &next, &mut gen, &mut ops);
    assert_eq!(ops.len(), 2);
    assert!(matches!(&ops[0], DomOp::AppendChild { parent: 0, .. }));
    assert!(matches!(&ops[1], DomOp::AppendChild { parent: 0, .. }));
    assert_eq!(c.children.len(), 3);
    assert!(matches!(&c.children[1], LiveNode::Text(t) if t.data == "b"));
    assert!(matches!(&c.children[2], LiveNode::Text(t) if t.data == "c"));
}

#[test]
fn tag_mismatch_forces_full_rebuild() {
    let mut c = container();
    let mut gen = IdGen::new();
    let empty = VDom::new();
    let mut prev = VDom::new();
    prev.open_child("div".to_string());
    prev.attr("class".to_string(), "a".to_string());
    prev.close_child();
    let mut setup_ops: Vec<DomOp> = Vec::new();
    patch_dom(&mut c, &empty, &prev, &mut gen, &mut setup_ops);

    let mut next = VDom::new();
    next.open_child("span".to_string());
    next.attr("class".to_string(), "b".to_string());
    next.close_child();
    let mut ops: Vec<DomOp> = Vec::new();
    patch_dom(&mut c, &prev, &next, &mut gen, &mut ops);
    assert_eq!(ops.len(), 1);
    assert!(matches!(&ops[0], DomOp::ReplaceNode { .. }));
    assert!(!ops.iter().any(|op| matches!(op, DomOp::SetAttr { .. } | DomOp::RemoveAttr { .. })));
    match &c.children[0] {
        LiveNode::Element(e) => {
            assert_eq!(e.tag_name, "span");
            assert_eq!(e.attributes.len(), 1);
            assert_eq!(e.attributes[0].name, "class");
            assert_eq!(e.attributes[0].value, "b");
        },
        LiveNode::Text(_) => panic!("expected an element"),
    }
}

#[test]
fn customization_mismatch_forces_full_rebuild() {
    let mut c = container();
    let mut gen = IdGen::new();
    let empty = VDom::new();
    let mut prev = VDom::new();
    prev.open_child("div".to_string());
    prev.close_child();
    let mut setup_ops: Vec<DomOp> = Vec::new();
    patch_dom(&mut c, &empty, &prev, &mut gen, &mut setup_ops);

    let mut next = VDom::new();
    next.open_child_customized("div".to_string(), Some("x-fancy".to_string()));
    next.close_child();
    let mut ops: Vec<DomOp> = Vec::new();
    patch_dom(&mut c, &prev, &next, &mut gen, &mut ops);
    assert_eq!(ops.len(), 1);
    assert!(matches!(&ops[0], DomOp::ReplaceNode { .. }));
    match &c.children[0] {
        LiveNode::Element(e) => assert_eq!(e.is.as_deref(), Some("x-fancy")),
        LiveNode::Text(_) => panic!("expected an element"),
    }
}

#[test]
fn attribute_diff_is_minimal() {
    let mut el = LiveElement {
        id: 9,
        tag_name: "div".to_string(),
        is: None,
        attributes: vec![attr("class", "a"), attr("id", "x")],
        is_input: false,
        checked: false,
        children: Vec::new(),
    };
    let old_attrs = vec![attr("class", "a"), attr("id", "x")];
    let new_attrs = vec![attr("class", "b"), attr("id", "x")];
    let mut ops: Vec<DomOp> = Vec::new();
    patch_attributes(&mut el, &old_attrs, &new_attrs, &mut ops);
    assert_eq!(ops.len(), 1);
    assert!(
        matches!(&ops[0], DomOp::SetAttr { node: 9, name, value } if name == "class" && value == "b")
    );
    assert_eq!(el.attributes.len(), 2);
    assert_eq!(el.attributes[0].value, "b");
    assert_eq!(el.attributes[1].value, "x");
}

#[test]
fn adding_checked_attribute_checks_a_live_input() {
    let mut el = LiveElement {
        id: 4,
        tag_name: "input".to_string(),
        is: None,
        attributes: Vec::new(),
        is_input: true,
        checked: false,
        children: Vec::new(),
    };
    let old_attrs: Vec<Attr> = Vec::new();
    let new_attrs = vec![attr("checked", "")];
    let mut ops: Vec<DomOp> = Vec::new();
    patch_attributes(&mut el, &old_attrs, &new_attrs, &mut ops);
    assert_eq!(ops.len(), 2);
    assert!(matches!(&ops[0], DomOp::SetAttr { node: 4, name, .. } if name == "checked"));
    assert!(matches!(&ops[1], DomOp::SetChecked { node: 4, checked: true }));
    assert!(el.checked);
}

#[test]
fn removing_checked_attribute_unchecks_a_live_input() {
    let mut el = LiveElement {
        id: 5,
        tag_name: "input".to_string(),
        is: None,
        attributes: vec![attr("checked", "")],
        is_input: true,
        checked: true,
        children: Vec::new(),
    };
    let old_attrs = vec![attr("checked", "")];
    let new_attrs: Vec<Attr> = Vec::new();
    let mut ops: Vec<DomOp> = Vec::new();
    patch_attributes(&mut el, &old_attrs, &new_attrs, &mut ops);
    assert_eq!(ops.len(), 2);
    assert!(matches!(&ops[0], DomOp::RemoveAttr { node: 5, name } if name == "checked"));
    assert!(matches!(&ops[1], DomOp::SetChecked { node: 5, checked: false }));
    assert!(!el.checked);
}

#[test]
fn checked_name_matches_ignoring_ascii_case() {
    let mut el = LiveElement {
        id: 6,
        tag_name: "input".to_string(),
        is: None,
        attributes: Vec::new(),
        is_input: true,
        checked: false,
        children: Vec::new(),
    };
    let old_attrs: Vec<Attr> = Vec::new();
    let new_attrs = vec![attr("CHECKED", "")];
    let mut ops: Vec<DomOp> = Vec::new();
    patch_attributes(&mut el, &old_attrs, &new_attrs, &mut ops);
    assert!(ops.iter().any(|op| matches!(op, DomOp::SetChecked { checked: true, .. })));
    assert!(el.checked);
}

#[test]
fn checked_attribute_on_non_input_sets_no_checked_state() {
    let mut el = LiveElement {
        id: 7,
        tag_name: "div".to_string(),
        is: None,
        attributes: Vec::new(),
        is_input: false,
        checked: false,
        children: Vec::new(),
    };
    let old_attrs: Vec<Attr> = Vec::new();
    let new_attrs = vec![attr("checked", "")];
    let mut ops: Vec<DomOp> = Vec::new();
    patch_attributes(&mut el, &old_attrs, &new_attrs, &mut ops);
    assert_eq!(ops.len(), 1);
    assert!(matches!(&ops[0], DomOp::SetAttr { .. }));
    assert!(!el.checked);
}

#[test]
fn ascii_caseless_comparison_is_exact() {
    assert!(eq_ascii("Checked", "cHECKED"));
    assert!(eq_ascii("checked", "checked"));
    assert!(!eq_ascii("checked", "checkedx"));
    assert!(!eq_ascii("checked", "cheval"));
    assert!(!eq_ascii("\u{e9}", "\u{c9}"));
}

#[test]
fn fresh_input_takes_checked_state_from_its_attributes() {
    let mut c = container();
    let mut gen = IdGen::new();
    let empty = VDom::new();
    let mut next = VDom::new();
    next.open_child("input".to_string());
    next.boolean_attr("checked".to_string());
    next.close_child();
    let mut ops: Vec<DomOp> = Vec::new();
    patch_dom(&mut c, &empty, &next, &mut gen, &mut ops);
    match &c.children[0] {
        LiveNode::Element(e) => {
            assert!(e.is_input);
            assert!(e.checked);
            assert_eq!(e.attributes.len(), 1);
            assert_eq!(e.attributes[0].name, "checked");
            assert_eq!(e.attributes[0].value, "");
        },
        LiveNode::Text(_) => panic!("expected an element"),
    }
}

#[test]
fn fresh_element_collapses_repeated_attribute_names() {
    let mut c = container();
    let mut gen = IdGen::new();
    let empty = VDom::new();
    let mut next = VDom::new();
    next.open_child("div".to_string());
    next.attr("x".to_string(), "1".to_string());
    next.attr("x".to_string(), "2".to_string());
    next.close_child();
    let mut ops: Vec<DomOp> = Vec::new();
    patch_dom(&mut c, &empty, &next, &mut gen, &mut ops);
    match &c.children[0] {
        LiveNode::Element(e) => {
            assert_eq!(e.attributes.len(), 1);
            assert_eq!(e.attributes[0].value, "2");
        },
        LiveNode::Text(_) => panic!("expected an element"),
    }
}

#[test]
fn repatching_duplicate_attribute_names_resets_the_collapsed_value() {
    let mut el = LiveElement {
        id: 8,
        tag_name: "div".to_string(),
        is: None,
        attributes: vec![attr("x", "2")],
        is_input: false,
        checked: false,
        children: Vec::new(),
    };
    let attrs = vec![attr("x", "1"), attr("x", "2")];
    let mut ops: Vec<DomOp> = Vec::new();
    patch_attributes(&mut el, &attrs, &attrs, &mut ops);
    assert_eq!(ops.len(), 1);
    assert!(matches!(&ops[0], DomOp::SetAttr { name, value, .. } if name == "x" && value == "2"));
}

#[test]
fn compatible_element_is_patched_in_place_to_the_next_content() {
    let mut c = container();
    let mut gen = IdGen::new();
    let empty = VDom::new();
    let mut prev = VDom::new();
    prev.open_child("div".to_string());
    prev.attr("class".to_string(), "a".to_string());
    prev.text("before".to_string());
    prev.close_child();
    let mut setup_ops: Vec<DomOp> = Vec::new();
    patch_dom(&mut c, &empty, &prev, &mut gen, &mut setup_ops);
    let old_id = match &c.children[0] {
        LiveNode::Element(e) => e.id,
        LiveNode::Text(_) => panic!("expected an element"),
    };

    let mut next = VDom::new();
    next.open_child("div".to_string());
    next.attr("class".to_string(), "b".to_string());
    next.text("after".to_string());
    next.close_child();
    let mut ops: Vec<DomOp> = Vec::new();
    patch_dom(&mut c, &prev, &next, &mut gen, &mut ops);
    assert_eq!(ops.len(), 2);
    assert!(matches!(&ops[0], DomOp::SetAttr { name, value, .. } if name == "class" && value == "b"));
    assert!(matches!(&ops[1], DomOp::SetText { data, .. } if data == "after"));
    match &c.children[0] {
        LiveNode::Element(e) => {
            assert_eq!(e.id, old_id);
            assert_eq!(e.tag_name, "div");
            assert_eq!(e.attributes.len(), 1);
            assert_eq!(e.attributes[0].name, "class");
            assert_eq!(e.attributes[0].value, "b");
            assert!(matches!(&e.children[0], LiveNode::Text(t) if t.data == "after"));
        },
        LiveNode::Text(_) => panic!("expected an element"),
    }
}

#[test]
fn patching_empty_to_empty_does_nothing() {
    let mut c = container();
    let mut gen = IdGen::new();
    let prev = VDom::new();
    let next = VDom::new();
    let mut ops: Vec<DomOp> = Vec::new();
    patch_dom(&mut c, &prev, &next, &mut gen, &mut ops);
    assert_eq!(ops.len(), 0);
    assert_eq!(c.children.len(), 0);
}

#[test]
fn attribute_diff_sets_then_removes() {
    let mut el = LiveElement {
        id: 3,
        tag_name: "div".to_string(),
        is: None,
        attributes: vec![attr("a", "1"), attr("b", "2")],
        is_input: false,
        checked: false,
        children: Vec::new(),
    };
    let old_attrs = vec![attr("a", "1"), attr("b", "2")];
    let new_attrs = vec![attr("b", "3")];
    let mut ops: Vec<DomOp> = Vec::new();
    patch_attributes(&mut el, &old_attrs, &new_attrs, &mut ops);
    assert_eq!(ops.len(), 2);
    assert!(matches!(&ops[0], DomOp::SetAttr { node: 3, name, value } if name == "b" && value == "3"));
    assert!(matches!(&ops[1], DomOp::RemoveAttr { node: 3, name } if name == "a"));
    assert_eq!(el.attributes.len(), 1);
    assert_eq!(el.attributes[0].name, "b");
    assert_eq!(el.attributes[0].value, "3");
}

#[test]
fn sink_and_capture_marks_are_reported_for_committed_nodes() {
    let mut c = container();
    let mut gen = IdGen::new();
    let empty = VDom::new();
    let mut next = VDom::new();
    next.open_child("button".to_string());
    next.sink_event(7);
    next.element_ref(21);
    next.close_child();
    let mut ops: Vec<DomOp> = Vec::new();
    patch_dom(&mut c, &empty, &next, &mut gen, &mut ops);
    assert!(ops.iter().any(|op| matches!(op, DomOp::SpawnSink { sink: 7, .. })));
    assert!(ops.iter().any(|op| matches!(op, DomOp::FulfillRef { handle: 21, .. })));
    let tasks = collect_spawn_tasks(&ops);
    assert_eq!(tasks.len(), 1);
}

#[test]
fn repatching_an_unchanged_element_respawns_its_sinks() {
    let mut c = container();
    let mut gen = IdGen::new();
    let empty = VDom::new();
    let mut prev = VDom::new();
    prev.open_child("button".to_string());
    prev.sink_event(3);
    prev.close_child();
    let mut setup_ops: Vec<DomOp> = Vec::new();
    patch_dom(&mut c, &empty, &prev, &mut gen, &mut setup_ops);

    let mut next = VDom::new();
    next.open_child("button".to_string());
    next.sink_event(3);
    next.close_child();
    let mut ops: Vec<DomOp> = Vec::new();
    patch_dom(&mut c, &prev, &next, &mut gen, &mut ops);
    assert_eq!(mutation_count(&ops), 0);
    assert_eq!(ops.len(), 1);
    assert!(matches!(&ops[0], DomOp::SpawnSink { sink: 3, .. }));
}
