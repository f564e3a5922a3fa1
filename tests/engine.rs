use gst_trace_engine::counters::{component_name, count_events, Count, Counters, PerfEvent, PerfRecord};
use gst_trace_engine::flow::{check_events, Command, Element, Finding, Flow, FlowError, Pad, TraceEvent, TsKind};
use gst_trace_engine::frames::{correlate, FrameEvent, FrameTable};
use gst_trace_engine::latency::{latency_diffs, LatencyTracker, TraceStamp};
use gst_trace_engine::markers::{element_of, pts_field, pulse};
use gst_trace_engine::ranking::{highlight_top, presentation_order, sorted_indices, RankError};

fn buffer(pad_ix: u32, element_ix: u32, pts: Option<u64>, dts: Option<u64>) -> TraceEvent {
    TraceEvent::Buffer { pad_ix, element_ix, pts, dts }
}

fn setup(command: Command) -> Flow {
    let mut f = Flow::new(command);
    f.parse(&TraceEvent::NewElement { ix: 1, name: "src".to_string() }).unwrap();
    f.parse(&TraceEvent::NewPad { ix: 7, parent_ix: 1, name: "out".to_string() }).unwrap();
    f
}

#[test]
fn first_buffer_never_flagged() {
    for command in [Command::DecreasingPts, Command::DecreasingDts, Command::DecreasingBoth] {
        let mut f = setup(command);
        let r = f.handle_buffer(7, 1, Some(5), Some(5)).unwrap();
        assert!(r.is_empty());
    }
}

#[test]
fn decreasing_pts_flagged_once() {
    let mut f = setup(Command::DecreasingPts);
    assert!(f.handle_buffer(7, 1, Some(5), None).unwrap().is_empty());
    let r = f.handle_buffer(7, 1, Some(3), None).unwrap();
    assert_eq!(r, vec![Finding { pad: 7, kind: TsKind::Pts, previous: 5, current: 3 }]);
}

#[test]
fn increasing_pts_not_flagged() {
    let mut f = setup(Command::DecreasingPts);
    assert!(f.handle_buffer(7, 1, Some(5), None).unwrap().is_empty());
    assert!(f.handle_buffer(7, 1, Some(7), None).unwrap().is_empty());
}

#[test]
fn decreasing_dts_flagged_once() {
    let mut f = setup(Command::DecreasingDts);
    assert!(f.handle_buffer(7, 1, None, Some(5)).unwrap().is_empty());
    let r = f.handle_buffer(7, 1, None, Some(3)).unwrap();
    assert_eq!(r, vec![Finding { pad: 7, kind: TsKind::Dts, previous: 5, current: 3 }]);
    assert!(f.handle_buffer(7, 1, None, Some(7)).unwrap().is_empty());
}

#[test]
fn mode_selects_kind() {
    let mut f = setup(Command::DecreasingDts);
    f.handle_buffer(7, 1, Some(5), Some(5)).unwrap();
    let r = f.handle_buffer(7, 1, Some(3), Some(9)).unwrap();
    assert!(r.is_empty());
    let mut g = setup(Command::DecreasingBoth);
    g.handle_buffer(7, 1, Some(5), Some(5)).unwrap();
    let r = g.handle_buffer(7, 1, Some(3), Some(2)).unwrap();
    assert_eq!(r.len(), 2);
    assert_eq!(r[0].kind, TsKind::Pts);
    assert_eq!(r[1].kind, TsKind::Dts);
}

#[test]
fn baseline_moves_after_violation() {
    let mut f = setup(Command::DecreasingPts);
    f.handle_buffer(7, 1, Some(10), None).unwrap();
    assert_eq!(f.handle_buffer(7, 1, Some(4), None).unwrap().len(), 1);
    assert!(f.handle_buffer(7, 1, Some(6), None).unwrap().is_empty());
    assert!(f.handle_buffer(7, 1, None, None).unwrap().is_empty());
    assert_eq!(f.pads[0].last_pts, Some(6));
}

#[test]
fn element_registration_keeps_first_name() {
    let mut f = Flow::new(Command::DecreasingPts);
    f.register_element(3, "first");
    f.register_element(3, "second");
    assert_eq!(f.element_name_for(3), Some("first".to_string()));
    assert_eq!(f.element_name_for(4), None);
    assert_eq!(f.elements.len(), 1);
    let e = Element::new(9, "x");
    assert_eq!(e.index, 9);
    assert_eq!(e.name, "x");
}

#[test]
fn pad_backfills_element_name() {
    let mut f = Flow::new(Command::DecreasingPts);
    f.register_pad(2, 5, "sink");
    assert_eq!(f.pads[0].element_name, None);
    f.register_element(5, "dec");
    f.handle_buffer(2, 5, Some(1), None).unwrap();
    assert_eq!(f.pads[0].element_name, Some("dec".to_string()));
    f.register_element(6, "other");
    f.handle_buffer(2, 6, Some(2), None).unwrap();
    assert_eq!(f.pads[0].element_name, Some("dec".to_string()));
    let p = Pad::new(1, "src", None);
    assert_eq!(p.last_pts, None);
}

#[test]
fn unknown_element_is_an_error() {
    let mut f = setup(Command::DecreasingPts);
    assert_eq!(f.handle_buffer(7, 99, Some(1), None), Err(FlowError::UnknownElement));
    assert_eq!(f.pads[0].last_pts, None);
    let events = vec![buffer(3, 1, Some(1), None)];
    assert_eq!(check_events(Command::DecreasingPts, &events), Err(FlowError::UnknownElement));
}

#[test]
fn unseen_pad_created_by_first_buffer() {
    let mut f = setup(Command::DecreasingBoth);
    let r = f.handle_buffer(99, 1, Some(8), Some(6)).unwrap();
    assert!(r.is_empty());
    assert_eq!(f.pads.len(), 2);
    assert_eq!(f.pads[1].index, 99);
    assert_eq!(f.pads[1].name, "");
    assert_eq!(f.pads[1].element_name, Some("src".to_string()));
    assert_eq!(f.pads[1].last_pts, Some(8));
    assert_eq!(f.pads[1].last_dts, Some(6));
    let r = f.handle_buffer(99, 1, Some(2), Some(9)).unwrap();
    assert_eq!(r, vec![Finding { pad: 99, kind: TsKind::Pts, previous: 8, current: 2 }]);
}

#[test]
fn parse_registration_is_first_writer_wins() {
    let mut f = Flow::new(Command::DecreasingPts);
    f.parse(&TraceEvent::NewElement { ix: 1, name: "a".to_string() }).unwrap();
    f.parse(&TraceEvent::NewElement { ix: 1, name: "b".to_string() }).unwrap();
    assert_eq!(f.elements.len(), 1);
    assert_eq!(f.elements[0].name, "a");
    f.parse(&TraceEvent::NewPad { ix: 4, parent_ix: 1, name: "src".to_string() }).unwrap();
    f.parse(&TraceEvent::NewPad { ix: 4, parent_ix: 2, name: "x".to_string() }).unwrap();
    assert_eq!(f.pads.len(), 1);
    assert_eq!(f.pads[0].name, "src");
    assert_eq!(f.pads[0].element_name, Some("a".to_string()));
    f.parse(&TraceEvent::NewPad { ix: 5, parent_ix: 3, name: "sink".to_string() }).unwrap();
    assert_eq!(f.pads[1].element_name, None);
}

#[test]
fn check_events_stream() {
    let events = vec![
        TraceEvent::NewElement { ix: 1, name: "src".to_string() },
        TraceEvent::NewPad { ix: 2, parent_ix: 1, name: "src".to_string() },
        TraceEvent::Other,
        buffer(2, 1, Some(5), None),
        buffer(2, 1, Some(3), None),
        buffer(2, 1, Some(7), None),
    ];
    let r = check_events(Command::DecreasingPts, &events).unwrap();
    assert_eq!(r, vec![Finding { pad: 2, kind: TsKind::Pts, previous: 5, current: 3 }]);
}

fn stamp(thread: &str, file: &str, line: u32, ts: u64) -> TraceStamp {
    TraceStamp { thread: thread.to_string(), file: file.to_string(), line, ts }
}

#[test]
fn latency_thread_deltas() {
    let recs = vec![stamp("t1", "a.c", 1, 100), stamp("t1", "a.c", 2, 150), stamp("t1", "a.c", 3, 140)];
    let d = latency_diffs(&recs);
    let thread: Vec<i128> = d.iter().map(|e| e.thread_diff).collect();
    assert_eq!(thread, vec![0, 50, -10]);
}

#[test]
fn latency_call_site_deltas() {
    let recs = vec![
        stamp("t1", "a.c", 1, 100),
        stamp("t2", "a.c", 1, 120),
        stamp("t1", "a.c", 1, 130),
        stamp("t1", "b.c", 1, 135),
        stamp("t2", "a.c", 1, 200),
    ];
    let d = latency_diffs(&recs);
    let thread: Vec<i128> = d.iter().map(|e| e.thread_diff).collect();
    let site: Vec<i128> = d.iter().map(|e| e.function_diff).collect();
    assert_eq!(thread, vec![0, 0, 30, 5, 80]);
    assert_eq!(site, vec![0, 0, 30, 0, 80]);
}

#[test]
fn latency_tracker_wide_delta() {
    let mut t = LatencyTracker::new();
    t.observe(&stamp("t", "f", 1, u64::MAX));
    let d = t.observe(&stamp("t", "f", 1, 0));
    assert_eq!(d.thread_diff, -(u64::MAX as i128));
    assert_eq!(d.function_diff, -(u64::MAX as i128));
}

#[test]
fn ranking_percentiles() {
    let diffs: Vec<i128> = (0..100).map(|i| (i * 7 % 13) as i128).collect();
    let count = |p: u64| highlight_top(&diffs, p).unwrap().top.iter().filter(|b| **b).count();
    assert_eq!(count(1), 1);
    assert_eq!(count(0), 0);
    assert_eq!(count(100), 100);
    assert_eq!(count(50), 50);
}

#[test]
fn ranking_marks_largest_diff() {
    let diffs: Vec<i128> = vec![5, 90, -3, 90, 10];
    let r = highlight_top(&diffs, 40).unwrap();
    assert_eq!(r.order, vec![1, 3, 4, 0, 2]);
    assert_eq!(r.top, vec![false, true, false, true, false]);
}

#[test]
fn ranking_small_count_rounds_down() {
    let diffs: Vec<i128> = vec![1, 2, 3];
    let r = highlight_top(&diffs, 1).unwrap();
    assert_eq!(r.top, vec![false, false, false]);
}

#[test]
fn ranking_rejects_bad_percentile() {
    let diffs: Vec<i128> = vec![1];
    assert_eq!(highlight_top(&diffs, 101).unwrap_err(), RankError::PercentileOutOfRange);
}

#[test]
fn ordering_helpers() {
    assert_eq!(sorted_indices(&vec![3, -1, 3, 0]), vec![1, 3, 0, 2]);
    assert_eq!(presentation_order(&vec![30, 10, 20, 10]), vec![1, 3, 2, 0]);
}

fn fev(frame: u64, comp: &str, event: PerfEvent, ts: u64) -> FrameEvent {
    FrameEvent { frame, component: comp.to_string(), event, ts }
}

#[test]
fn frame_first_ingress_last_egress() {
    let evs = vec![
        fev(42, "enc", PerfEvent::EmptyThisBuffer, 10),
        fev(42, "enc", PerfEvent::EmptyThisBuffer, 20),
        fev(42, "enc", PerfEvent::FillBufferDone, 30),
        fev(42, "enc", PerfEvent::FillBufferDone, 35),
    ];
    let t = correlate(&evs);
    let rows = t.report();
    assert_eq!(rows.len(), 1);
    assert_eq!(rows[0].frame, 42);
    assert_eq!(rows[0].component, "enc");
    assert_eq!(rows[0].ingress, Some(10));
    assert_eq!(rows[0].egress, Some(35));
    assert_eq!(rows[0].delta, Some(25));
}

#[test]
fn frame_report_order() {
    let mut t = FrameTable::new();
    t.record(9, &"dec".to_string(), PerfEvent::EmptyThisBuffer, 50);
    t.record(3, &"enc".to_string(), PerfEvent::EmptyThisBuffer, 40);
    t.record(3, &"dec".to_string(), PerfEvent::EmptyThisBuffer, 20);
    t.record(3, &"scl".to_string(), PerfEvent::FillThisBuffer, 5);
    let rows = t.report();
    let names: Vec<(u64, String)> = rows.iter().map(|r| (r.frame, r.component.clone())).collect();
    assert_eq!(
        names,
        vec![(3, "scl".to_string()), (3, "dec".to_string()), (3, "enc".to_string()), (9, "dec".to_string())]
    );
    assert_eq!(rows[0].delta, None);
}

#[test]
fn call_done_counts() {
    let mut recs = Vec::new();
    for _ in 0..3 {
        recs.push(PerfRecord { component: "dec0".to_string(), event: PerfEvent::EmptyThisBuffer });
    }
    for _ in 0..2 {
        recs.push(PerfRecord { component: "dec0".to_string(), event: PerfEvent::EmptyBufferDone });
    }
    recs.push(PerfRecord { component: "enc1".to_string(), event: PerfEvent::FillBufferDone });
    let c = count_events(&recs);
    assert_eq!(c.entries.len(), 2);
    assert_eq!(c.entries[0].name, "dec0");
    assert_eq!(c.entries[0].count.empty_call, 3);
    assert_eq!(c.entries[0].count.empty_done, 2);
    assert_eq!(c.entries[0].count.fill_call, 0);
    assert_eq!(c.entries[1].count.fill_done, 1);
}

#[test]
fn counters_by_hand() {
    let mut c = Counters::new();
    c.record(&"abcd".to_string(), PerfEvent::FillThisBuffer);
    c.record(&"abcd".to_string(), PerfEvent::Other);
    assert_eq!(c.entries[0].count, Count { empty_call: 0, empty_done: 0, fill_call: 1, fill_done: 0 });
    assert_eq!(Count::new().step(PerfEvent::EmptyBufferDone).empty_done, 1);
}

#[test]
fn event_names() {
    assert_eq!(PerfEvent::from_name(&"EmptyThisBuffer".to_string()), PerfEvent::EmptyThisBuffer);
    assert_eq!(PerfEvent::from_name(&"EmptyBufferDone".to_string()), PerfEvent::EmptyBufferDone);
    assert_eq!(PerfEvent::from_name(&"FillThisBuffer".to_string()), PerfEvent::FillThisBuffer);
    assert_eq!(PerfEvent::from_name(&"FillBufferDone".to_string()), PerfEvent::FillBufferDone);
    assert_eq!(PerfEvent::from_name(&"Other".to_string()), PerfEvent::Other);
}

#[test]
fn component_suffix() {
    let label: Vec<char> = "omxh264enc-omxh264enc0".chars().collect();
    let name: String = component_name(&label).unwrap().into_iter().collect();
    assert_eq!(name, "enc0");
    assert_eq!(component_name(&"abc".chars().collect()), None);
}

#[test]
fn markers() {
    assert_eq!(pulse(41), Some((41, 42)));
    assert_eq!(pulse(u64::MAX), None);
    let e: String = element_of(&"v4l2src0:src".chars().collect()).into_iter().collect();
    assert_eq!(e, "v4l2src0");
    let whole: String = element_of(&"plain".chars().collect()).into_iter().collect();
    assert_eq!(whole, "plain");
}

#[test]
fn empty_input_every_mode() {
    assert!(check_events(Command::DecreasingPts, &vec![]).unwrap().is_empty());
    assert!(latency_diffs(&vec![]).is_empty());
    let r = highlight_top(&vec![], 1).unwrap();
    assert!(r.top.is_empty() && r.order.is_empty());
    assert!(presentation_order(&vec![]).is_empty());
    assert!(correlate(&vec![]).report().is_empty());
    assert!(count_events(&vec![]).entries.is_empty());
}

#[test]
fn pts_field_of_message() {
    let get = |m: &str| pts_field(&m.chars().collect()).map(|v| v.into_iter().collect::<String>());
    assert_eq!(
        get("calling chainfunction &foo with buffer 0x1, pts 0:00:01.000000000, dts 99:99:99"),
        Some("0:00:01.000000000".to_string())
    );
    assert_eq!(get("pts 5"), Some("5".to_string()));
    assert_eq!(get("no timestamp here"), None);
    assert_eq!(get("pts a pts b"), Some("a ".to_string()));
}
