use guise::live::LiveElement;
use guise::ops::DomOp;
use guise::vdom::VDom;
use guise::view_model::{Gone, RenderPoll, ViewModel};
use guise::{AttrPoll, Attributes, Component};

fn host() -> LiveElement {
    LiveElement {
        id: 0,
        tag_name: "host".to_string(),
        is: None,
        attributes: Vec::new(),
        is_input: false,
        checked: false,
        children: Vec::new(),
    }
}

#[derive(Clone, Debug, PartialEq)]
struct Snap {
    last_name: Option<String>,
    last_value: Option<String>,
}

impl Attributes for Snap {
    fn fresh() -> Self {
        Snap { last_name: None, last_value: None }
    }

    fn update(&mut self, name: &String, value: Option<String>) {
        self.last_name = Some(name.clone());
        self.last_value = value;
    }

    fn snapshot(&self) -> Self {
        self.clone()
    }
}

#[test]
fn superseded_tree_sinks_are_cancelled_on_next_commit() {
    let mut comp: Component<Snap> = Component::new(host());
    comp.connected(99);

    let mut t1 = VDom::new();
    t1.open_child("button".to_string());
    t1.sink_event(7);
    t1.close_child();
    let out1 = comp.tree_produced(t1);
    assert_eq!(out1.aborted_tasks.len(), 0);
    let spawned: Vec<u64> = out1
        .ops
        .iter()
        .filter_map(|op| {
            if let DomOp::SpawnSink { task, sink, .. } = op {
                assert_eq!(*sink, 7);
                Some(*task)
            } else {
                None
            }
        })
        .collect();
    assert_eq!(spawned.len(), 1);

    let mut t2 = VDom::new();
    t2.text("replaced".to_string());
    let out2 = comp.tree_produced(t2);
    assert_eq!(out2.aborted_tasks, spawned);
}

#[test]
fn attribute_changes_coalesce_into_one_notification() {
    let mut comp: Component<Snap> = Component::new(host());
    comp.connected(1);

    match comp.poll_attributes() {
        AttrPoll::Changed(s) => assert_eq!(s, Snap::fresh()),
        _ => panic!("expected the initial snapshot"),
    }
    assert!(matches!(comp.poll_attributes(), AttrPoll::Pending));

    let wake1 = comp.attribute_changed(&"label".to_string(), Some("a".to_string()));
    assert!(wake1);
    let wake2 = comp.attribute_changed(&"label".to_string(), Some("b".to_string()));
    assert!(!wake2);

    match comp.poll_attributes() {
        AttrPoll::Changed(s) => {
            assert_eq!(s.last_name.as_deref(), Some("label"));
            assert_eq!(s.last_value.as_deref(), Some("b"));
        },
        _ => panic!("expected the merged snapshot"),
    }
}

#[test]
fn disconnect_aborts_everything_and_resets_attributes() {
    let mut comp: Component<Snap> = Component::new(host());
    comp.connected(42);

    let mut t1 = VDom::new();
    t1.open_child("button".to_string());
    t1.sink_event(5);
    t1.close_child();
    let out1 = comp.tree_produced(t1);
    let spawned: Vec<u64> = out1
        .ops
        .iter()
        .filter_map(|op| {
            if let DomOp::SpawnSink { task, .. } = op {
                Some(*task)
            } else {
                None
            }
        })
        .collect();

    comp.attribute_changed(&"label".to_string(), Some("a".to_string()));
    match comp.poll_attributes() {
        AttrPoll::Changed(_) => {},
        _ => panic!("expected a snapshot"),
    }

    let out = comp.disconnected(Snap::fresh());
    assert_eq!(out.render_abort, Some(42));
    assert!(out.wake_attr_reader);
    assert_eq!(out.aborted_tasks, spawned);
    assert!(matches!(comp.poll_attributes(), AttrPoll::Ended));

    comp.connected(43);
    match comp.poll_attributes() {
        AttrPoll::Changed(s) => assert_eq!(s, Snap::fresh()),
        _ => panic!("expected the reset snapshot"),
    }
}

#[test]
fn commit_reports_the_post_commit_callback() {
    let mut comp: Component<Snap> = Component::new(host());
    comp.connected(1);
    let mut t1 = VDom::new();
    t1.text("x".to_string());
    t1.on_rendered(17);
    let out1 = comp.tree_produced(t1);
    assert_eq!(out1.rendered, Some(17));

    let mut t2 = VDom::new();
    t2.text("x".to_string());
    let out2 = comp.tree_produced(t2);
    assert_eq!(out2.rendered, None);
}

#[test]
fn update_after_gone_returns_gone_and_mutates_nothing() {
    let mut vm = ViewModel::new(10u32);
    assert_eq!(vm.update(11), Ok(false));
    vm.mark_gone();
    assert_eq!(vm.update(12), Err(Gone));
    assert_eq!(*vm.value(), 11);
}

#[test]
fn model_updates_coalesce_between_renders() {
    let mut vm = ViewModel::new(0u32);
    assert!(matches!(vm.poll_render(), RenderPoll::Render));
    assert!(matches!(vm.poll_render(), RenderPoll::Pending));
    assert_eq!(vm.update(1), Ok(true));
    assert_eq!(vm.update(2), Ok(false));
    assert!(matches!(vm.poll_render(), RenderPoll::Render));
    assert_eq!(*vm.value(), 2);
}
