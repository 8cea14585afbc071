use guise::element_ref::ElementRef;
use guise::flatten_abridged::{FlatMapAbridged, FlattenAbridged, FlattenStep};
use guise::listener::Listener;
use guise::ops::DomOp;
use guise::sink_spawner::{SinkSpawner, SinkStep, SinkTask, SpawnState, StreamPoll};

#[test]
fn spawner_spawns_once_and_reports_its_task_for_teardown() {
    let mut sp = SinkSpawner::new(11);
    assert_eq!(sp.abort_task(), None);
    let op = sp.spawn(70, 3);
    assert!(matches!(op, DomOp::SpawnSink { task: 70, sink: 11, target: 3 }));
    assert_eq!(sp.abort_task(), Some(70));
}

#[test]
fn delivery_task_buffers_one_event_under_backpressure() {
    let mut task: SinkTask<u32> = SinkTask::new();
    assert_eq!(task.flush_buffered(true), None);

    let step = task.on_stream_event(StreamPoll::Item(1), false);
    assert!(matches!(step, SinkStep::Suspended));
    assert_eq!(task.flush_buffered(false), None);
    assert_eq!(task.flush_buffered(true), Some(1));

    let step = task.on_stream_event(StreamPoll::Item(2), true);
    assert!(matches!(step, SinkStep::Send(2)));
    let step = task.on_stream_event(StreamPoll::Pending, true);
    assert!(matches!(step, SinkStep::Wait));
    let step = task.on_stream_event(StreamPoll::End, true);
    assert!(matches!(step, SinkStep::Finish));
}

#[test]
fn abridged_flatten_switches_to_the_newest_inner_stream() {
    let mut fl: FlattenAbridged<u8, &str> = FlattenAbridged::new(0);
    assert!(matches!(fl.on_outer_pending(), FlattenStep::Wait));
    assert!(matches!(fl.on_outer_item("first"), FlattenStep::PollOuter));
    assert!(matches!(fl.on_outer_item("second"), FlattenStep::PollOuter));
    assert!(matches!(fl.on_outer_pending(), FlattenStep::PollInner));
    assert!(matches!(fl.on_inner_end(), FlattenStep::PollOuter));
    assert!(matches!(fl.on_outer_pending(), FlattenStep::Wait));
    assert!(!fl.is_terminated());
    assert!(matches!(fl.on_outer_end(), FlattenStep::Finished));
    assert!(fl.is_terminated());
}

#[test]
fn abridged_flat_map_wraps_the_flatten_state() {
    let mut fm: FlatMapAbridged<u8, &str, fn(u8) -> &'static str> = FlatMapAbridged::new(0, |_| "s");
    assert!(matches!(fm.on_outer_item("mapped"), FlattenStep::PollOuter));
}

#[test]
fn capture_handle_reads_none_before_first_commit() {
    let mut handle = ElementRef::new();
    assert_eq!(handle.get(), None);
    handle.set_element(12);
    assert_eq!(handle.get(), Some(12));
    handle.set_element(13);
    assert_eq!(handle.get(), Some(13));
}

#[test]
fn listener_hands_its_callback_back_out() {
    let listener = Listener::new(|x: u32| x + 1);
    let f = listener.into_callback();
    assert_eq!(f(41), 42);
}

#[test]
fn spawn_state_distinguishes_unused_from_spawned() {
    assert_ne!(SpawnState::Unused, SpawnState::Spawned(0));
    assert_eq!(SpawnState::Spawned(4), SpawnState::Spawned(4));
}
