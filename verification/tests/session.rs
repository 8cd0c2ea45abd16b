use std::collections::HashMap;

use camera::session::{capture_end_ops, start_ops, start_recording, stop_recording, MetaOp};
use camera::streams::{capture_step, live_deadline, live_output_step, segment_step, PumpAction};

#[derive(Clone, Debug, PartialEq)]
enum Val {
    Flag(bool),
    Text(String),
}

fn apply(m: &mut HashMap<String, Val>, ops: &[MetaOp]) {
    for op in ops {
        match op {
            MetaOp::SetFlag { key, flag } => {
                m.insert(key.clone(), Val::Flag(*flag));
            }
            MetaOp::SetText { key, text } => {
                m.insert(key.clone(), Val::Text(text.clone()));
            }
            MetaOp::Remove { key } => {
                m.remove(key);
            }
        }
    }
}

fn current(m: &HashMap<String, Val>) -> Option<String> {
    match m.get("pid") {
        Some(Val::Text(p)) => Some(p.clone()),
        _ => None,
    }
}

fn active(m: &HashMap<String, Val>) -> Vec<String> {
    let mut v: Vec<String> = m
        .iter()
        .filter(|(_, v)| **v == Val::Flag(true))
        .map(|(k, _)| k.clone())
        .collect();
    v.sort();
    v
}

#[test]
fn start_stops_previous_session() {
    let ops = start_ops(Some("old".to_string()), "new");
    assert_eq!(ops.len(), 3);
    assert!(matches!(&ops[0], MetaOp::SetFlag { key, flag: false } if key == "old"));
    assert!(matches!(&ops[1], MetaOp::SetText { key, text } if key == "pid" && text == "new"));
    assert!(matches!(&ops[2], MetaOp::SetFlag { key, flag: true } if key == "new"));
    let ops = start_ops(None, "first");
    assert_eq!(ops.len(), 2);
}

#[test]
fn only_the_newest_session_captures() {
    let mut m: HashMap<String, Val> = HashMap::new();
    m.insert("last_jpg".to_string(), Val::Text("x.jpg".to_string()));
    let ops = start_ops(current(&m), "s1");
    apply(&mut m, &ops);
    assert_eq!(active(&m), vec!["s1".to_string()]);
    let ops = start_ops(current(&m), "s2");
    apply(&mut m, &ops);
    assert_eq!(active(&m), vec!["s2".to_string()]);
    assert_eq!(current(&m), Some("s2".to_string()));
    assert_eq!(m.get("s1"), Some(&Val::Flag(false)));
    assert_eq!(m.get("last_jpg"), Some(&Val::Text("x.jpg".to_string())));
}

#[test]
fn stop_ends_every_session() {
    let mut m: HashMap<String, Val> = HashMap::new();
    let ops = start_ops(current(&m), "s1");
    apply(&mut m, &ops);
    let ops = stop_recording(current(&m));
    apply(&mut m, &ops);
    assert!(active(&m).is_empty());
    assert_eq!(current(&m), Some("s1".to_string()));
    // Stopping twice changes nothing more.
    let ops = stop_recording(current(&m));
    apply(&mut m, &ops);
    assert!(active(&m).is_empty());
    assert!(stop_recording(None).is_empty());
}

#[test]
fn end_of_current_capture_clears_session() {
    let mut m: HashMap<String, Val> = HashMap::new();
    let ops = start_ops(current(&m), "s1");
    apply(&mut m, &ops);
    apply(&mut m, &capture_end_ops("s1"));
    assert_eq!(current(&m), None);
    assert!(active(&m).is_empty());
    assert!(!m.contains_key("s1"));
}

#[test]
fn end_of_stale_capture_forgets_newer_session() {
    // The capture loop of a replaced session removes `pid` as it ends, though
    // a newer session is running: the newer session keeps capturing, unrecorded.
    let mut m: HashMap<String, Val> = HashMap::new();
    let ops = start_ops(current(&m), "s1");
    apply(&mut m, &ops);
    let ops = start_ops(current(&m), "s2");
    apply(&mut m, &ops);
    apply(&mut m, &capture_end_ops("s1"));
    assert_eq!(current(&m), None);
    assert_eq!(active(&m), vec!["s2".to_string()]);
}

#[test]
fn start_recording_makes_new_session_current() {
    let a = start_recording(None, "qhkzxw18f2a3b4c5d");
    assert_eq!(a.pid, "qhkzxw18f2a3b4c5d");
    assert_eq!(a.ops.len(), 2);
    let b = start_recording(Some(a.pid.clone()), "rjmtyv18f2a3b4c6e");
    assert_eq!(b.pid, "rjmtyv18f2a3b4c6e");
    assert_eq!(b.ops.len(), 3);
    assert!(matches!(&b.ops[0], MetaOp::SetFlag { key, flag: false } if *key == a.pid));
    assert!(matches!(&b.ops[1], MetaOp::SetText { key, text } if key == "pid" && *text == b.pid));
    assert!(matches!(&b.ops[2], MetaOp::SetFlag { key, flag: true } if *key == b.pid));
}

#[test]
fn segments_are_archived_in_order() {
    // Segment 0 exists alone, then 0 and 1, then nothing new, then 1 and 2.
    let (next, done) = segment_step(0, true, false);
    assert_eq!((next, done), (0, None));
    let (next, done) = segment_step(next, true, true);
    assert_eq!((next, done), (1, Some(0)));
    let (next, done) = segment_step(next, true, false);
    assert_eq!((next, done), (1, None));
    let (next, done) = segment_step(next, true, true);
    assert_eq!((next, done), (2, Some(1)));
    assert_eq!(segment_step(7, false, true), (7, None));
}

#[test]
fn live_output_waits_until_deadline() {
    let d = live_deadline(1000);
    assert_eq!(d, 11000);
    assert_eq!(live_output_step(Some(512), 5000, d), PumpAction::Forward(512));
    assert_eq!(live_output_step(Some(0), 5000, d), PumpAction::Wait);
    assert_eq!(live_output_step(Some(0), 11000, d), PumpAction::Wait);
    assert_eq!(live_output_step(Some(0), 11001, d), PumpAction::Stop);
    assert_eq!(live_output_step(None, 5000, d), PumpAction::Stop);
}

#[test]
fn capture_loop_ends_on_empty_or_failed_read() {
    assert_eq!(capture_step(Some(4096)), PumpAction::Forward(4096));
    assert_eq!(capture_step(Some(0)), PumpAction::Stop);
    assert_eq!(capture_step(None), PumpAction::Stop);
}
