use devflow_recorder::ingest::BrowserActivityPayload;
use devflow_recorder::recorder::RecorderState;
use devflow_recorder::timeline::{
    activity_duration_ms, activity_has_open_segment, activity_to_event, close_open_activity,
    open_activity_index, prune_timeline, resume_or_push_activity, timeline_order,
    update_activity_metadata, ActivitySegment, TrackedActivity,
};
use devflow_recorder::window::ActiveWindow;

fn window(app: &str, title: &str) -> ActiveWindow {
    ActiveWindow {
        app: app.to_string(),
        title: title.to_string(),
        source: "test".to_string(),
        pid: None,
    }
}

fn activity(id: &str, key: &str, last: u128, segments: Vec<ActivitySegment>) -> TrackedActivity {
    TrackedActivity {
        id: id.to_string(),
        activity_key: key.to_string(),
        first_started_at_ms: segments.first().map(|s| s.started_at_ms).unwrap_or(last),
        last_seen_at_ms: last,
        app: "App".to_string(),
        title: id.to_string(),
        normalized_title: id.to_string(),
        source: "src".to_string(),
        pid: None,
        segments,
    }
}

fn seg(start: u128, end: Option<u128>) -> ActivitySegment {
    ActivitySegment { started_at_ms: start, ended_at_ms: end }
}

fn no_tools() -> Vec<String> {
    Vec::new()
}

#[test]
fn first_focus_starts_an_activity() {
    let mut state = RecorderState::new();
    assert!(state.is_recording_enabled());
    let persist = state.record_window_activity(&window("Firefox", "Docs"), &no_tools(), &None, 1_000);
    assert!(persist);
    assert_eq!(state.timeline.len(), 1);
    let a = &state.timeline[0];
    assert_eq!(a.id, "activity-1000");
    assert_eq!(a.activity_key, "firefox:docs");
    assert_eq!(a.title, "Docs");
    assert_eq!(a.segments.len(), 1);
    assert!(activity_has_open_segment(a));
}

#[test]
fn repeated_focus_merges_into_one_segment() {
    let mut state = RecorderState::new();
    let w = window("Firefox", "Docs");
    state.record_window_activity(&w, &no_tools(), &None, 1_000);
    let persist = state.record_window_activity(&w, &no_tools(), &None, 5_000);
    assert!(persist);
    assert_eq!(state.timeline.len(), 1);
    assert_eq!(state.timeline[0].segments.len(), 1);
    assert_eq!(state.timeline[0].last_seen_at_ms, 5_000);
    assert!(state.pending_focus.is_none());
}

#[test]
fn switch_waits_fifteen_seconds_for_confirmation() {
    let mut state = RecorderState::new();
    let a = window("Firefox", "Docs");
    let b = window("Code", "main.rs");
    state.record_window_activity(&a, &no_tools(), &None, 1_000);
    assert!(!state.record_window_activity(&b, &no_tools(), &None, 6_000));
    assert_eq!(state.timeline.len(), 1);
    assert_eq!(state.pending_focus.as_ref().unwrap().started_at_ms, 6_000);
    assert!(!state.record_window_activity(&b, &no_tools(), &None, 20_999));
    assert_eq!(state.timeline.len(), 1);
    assert!(state.record_window_activity(&b, &no_tools(), &None, 21_000));
    assert_eq!(state.timeline.len(), 2);
    let first = &state.timeline[0];
    assert_eq!(first.segments[0].ended_at_ms, Some(6_000));
    assert_eq!(first.last_seen_at_ms, 6_000);
    let second = &state.timeline[1];
    assert_eq!(second.id, "activity-6000");
    assert_eq!(second.segments[0].started_at_ms, 6_000);
    assert!(activity_has_open_segment(second));
    assert!(state.pending_focus.is_none());
    let open: Vec<_> = state.timeline.iter().filter(|a| activity_has_open_segment(a)).collect();
    assert_eq!(open.len(), 1);
}

#[test]
fn a_different_pending_window_restarts_the_wait() {
    let mut state = RecorderState::new();
    state.record_window_activity(&window("A", "a"), &no_tools(), &None, 0);
    state.record_window_activity(&window("B", "b"), &no_tools(), &None, 1_000);
    state.record_window_activity(&window("C", "c"), &no_tools(), &None, 10_000);
    assert_eq!(state.pending_focus.as_ref().unwrap().started_at_ms, 10_000);
    assert!(!state.record_window_activity(&window("C", "c"), &no_tools(), &None, 20_000));
    assert!(state.record_window_activity(&window("C", "c"), &no_tools(), &None, 25_000));
    assert_eq!(state.timeline[1].app, "C");
}

#[test]
fn disabling_closes_and_stops_recording() {
    let mut state = RecorderState::new();
    state.record_window_activity(&window("Firefox", "Docs"), &no_tools(), &None, 1_000);
    assert!(!state.set_recording_enabled(false, 30_000));
    assert!(!state.is_recording_enabled());
    assert_eq!(state.timeline[0].segments[0].ended_at_ms, Some(30_000));
    assert!(!state.record_window_activity(&window("Code", "x"), &no_tools(), &None, 40_000));
    assert_eq!(state.timeline.len(), 1);
    assert!(state.set_recording_enabled(true, 50_000));
    assert!(state.record_window_activity(&window("Code", "x"), &no_tools(), &None, 60_000));
    assert_eq!(state.timeline.len(), 2);
}

#[test]
fn ignored_windows_are_not_recorded() {
    let mut state = RecorderState::new();
    assert!(!state.record_window_activity(&window("devflow_recorder", "x"), &no_tools(), &None, 1));
    assert!(state.timeline.is_empty());
}

#[test]
fn close_current_recording_leaves_none_open() {
    let mut state = RecorderState::new();
    state.record_window_activity(&window("A", "a"), &no_tools(), &None, 100);
    state.close_current_recording(900);
    assert!(open_activity_index(&state.timeline).is_none());
    assert_eq!(state.timeline[0].last_seen_at_ms, 900);
}

#[test]
fn recent_activity_is_resumed_with_a_new_segment() {
    let mut tl = vec![activity("a", "app:x", 1_000, vec![seg(0, Some(1_000))])];
    let w = window("App", "x");
    resume_or_push_activity(&mut tl, &w, &no_tools(), &None, 1_000 + 30 * 60 * 1000);
    assert_eq!(tl.len(), 1);
    assert_eq!(tl[0].segments.len(), 2);
    assert_eq!(tl[0].segments[1].ended_at_ms, None);
    assert_eq!(tl[0].last_seen_at_ms, 1_000 + 30 * 60 * 1000);
}

#[test]
fn stale_activity_is_not_resumed() {
    let mut tl = vec![activity("a", "app:x", 1_000, vec![seg(0, Some(1_000))])];
    let w = window("App", "x");
    let ts = 1_000 + 30 * 60 * 1000 + 1;
    resume_or_push_activity(&mut tl, &w, &no_tools(), &None, ts);
    assert_eq!(tl.len(), 2);
    assert_eq!(tl[1].id, format!("activity-{ts}"));
    assert_eq!(tl[1].first_started_at_ms, ts);
}

#[test]
fn close_open_activity_ends_the_first_open_one() {
    let mut tl = vec![
        activity("a", "k1", 10, vec![seg(0, Some(10))]),
        activity("b", "k2", 20, vec![seg(15, None)]),
    ];
    assert_eq!(open_activity_index(&tl), Some(1));
    close_open_activity(&mut tl, 50);
    assert_eq!(tl[1].segments[0].ended_at_ms, Some(50));
    assert_eq!(tl[1].last_seen_at_ms, 50);
    assert_eq!(tl[0].last_seen_at_ms, 10);
    assert_eq!(open_activity_index(&tl), None);
}

#[test]
fn update_metadata_refreshes_title_and_time() {
    let mut a = activity("a", "k", 10, vec![seg(0, None)]);
    let w = ActiveWindow {
        app: "Terminal".to_string(),
        title: "u@h: ~/work/site".to_string(),
        source: "gnome".to_string(),
        pid: Some(9),
    };
    update_activity_metadata(&mut a, &w, &vec!["codex".to_string()], 99);
    assert_eq!(a.title, "site · codex");
    assert_eq!(a.normalized_title, "site · codex");
    assert_eq!(a.app, "Terminal");
    assert_eq!(a.pid, Some(9));
    assert_eq!(a.last_seen_at_ms, 99);
    assert_eq!(a.activity_key, "k");
}

#[test]
fn prune_drops_least_recently_seen() {
    let mut tl: Vec<TrackedActivity> = (0..102u128)
        .map(|i| activity(&format!("a{i}"), &format!("k{i}"), 1_000 + i, vec![seg(i, Some(1_000 + i))]))
        .collect();
    tl[50].last_seen_at_ms = 1;
    prune_timeline(&mut tl);
    assert_eq!(tl.len(), 100);
    assert!(tl.iter().all(|a| a.id != "a50" && a.id != "a0"));
    assert_eq!(tl[0].id, "a1");
}

#[test]
fn duration_sums_segments_up_to_now() {
    let a = activity("a", "k", 0, vec![seg(0, Some(1_000)), seg(2_000, None), seg(9_000, Some(8_000))]);
    assert_eq!(activity_duration_ms(&a, 5_000), 1_000 + 3_000);
    let b = activity("b", "k", 0, vec![seg(u128::MAX - 1, Some(u128::MAX)), seg(0, Some(u128::MAX))]);
    assert_eq!(activity_duration_ms(&b, 0), 0);
}

#[test]
fn activity_event_reports_labels_and_durations() {
    let a = activity("a", "k", 3_661_000, vec![seg(61_000, Some(3_661_000))]);
    let e = activity_to_event(&a, 0, 0);
    assert_eq!(e.id, "a");
    assert_eq!(e.started_at, "00:01");
    assert_eq!(e.ended_at, "01:01");
    assert_eq!(e.duration_seconds, 3_600);
    assert_eq!(e.duration_minutes, 60);
    assert_eq!(e.context, "来源：src · 1 段累计");
    assert_eq!(e.kind, "当前窗口");
    assert_eq!(e.confidence, 93);
    let open = activity("o", "k", 0, vec![seg(0, None)]);
    let e = activity_to_event(&open, u128::MAX, 8 * 3600);
    assert_eq!(e.started_at, "08:00");
    assert_eq!(e.ended_at, "记录中");
    assert_eq!(e.duration_seconds, u32::MAX);
    assert_eq!(e.duration_minutes, u16::MAX);
}

#[test]
fn timeline_events_list_open_then_most_recent() {
    let mut state = RecorderState::new();
    state.timeline = vec![
        activity("old", "k1", 100, vec![seg(0, Some(100))]),
        activity("open", "k2", 50, vec![seg(40, None)]),
        activity("new", "k3", 300, vec![seg(200, Some(300))]),
        activity("tie", "k4", 300, vec![seg(250, Some(300))]),
    ];
    let order = timeline_order(&state.timeline);
    assert_eq!(order, vec![1, 2, 3, 0]);
    let events = state.timeline_events(1_000, 0);
    let ids: Vec<&str> = events.iter().map(|e| e.id.as_str()).collect();
    assert_eq!(ids, vec!["open", "new", "tie", "old"]);
}

#[test]
fn open_timeline_window_is_the_latest_open_activity() {
    let mut state = RecorderState::new();
    assert!(state.open_timeline_window().is_none());
    state.timeline = vec![
        activity("x", "k1", 10, vec![seg(0, None)]),
        activity("y", "k2", 10, vec![seg(0, None)]),
    ];
    let w = state.open_timeline_window().unwrap();
    assert_eq!(w.title, "y");
    assert_eq!(w.source, "src");
}

#[test]
fn browser_reports_answer_with_their_event() {
    let mut state = RecorderState::new();
    let payload = BrowserActivityPayload {
        title: "  Rust Docs ".to_string(),
        url: "https://doc.rust-lang.org/std/?search=x#main".to_string(),
        browser: None,
    };
    let (event, persist) = state.ingest_browser_activity(&payload, &None, 5_000, 0);
    assert!(persist);
    assert_eq!(event.title, "Rust Docs");
    assert_eq!(event.id, "activity-5000");
    assert_eq!(state.timeline[0].app, "Browser");
    assert_eq!(state.timeline[0].source, "browser-extension · https://doc.rust-lang.org/std/");
}

#[test]
fn unmatched_browser_report_gets_a_provisional_event() {
    let mut state = RecorderState::new();
    state.set_recording_enabled(false, 0);
    let payload = BrowserActivityPayload {
        title: "Page".to_string(),
        url: "https://e.org/a?b".to_string(),
        browser: Some("Firefox".to_string()),
    };
    let (event, persist) = state.ingest_browser_activity(&payload, &None, 7, 0);
    assert!(!persist);
    assert_eq!(event.id, "browser-7");
    assert_eq!(event.started_at, "刚刚");
    assert_eq!(event.ended_at, "记录中");
    assert_eq!(event.app, "Firefox");
    assert_eq!(event.context, "browser-extension · https://e.org/a");
    assert_eq!(event.kind, "网页");
    assert_eq!(event.confidence, 96);
    assert_eq!(event.privacy, "URL 参数已在本地脱敏");
}

#[test]
fn recording_keeps_at_most_one_hundred_activities() {
    let mut state = RecorderState::new();
    state.timeline = (0..100u128)
        .map(|i| activity(&format!("a{i}"), &format!("k{i}"), 10 + i, vec![seg(i, Some(10 + i))]))
        .collect();
    assert!(state.record_window_activity(&window("New", "one"), &no_tools(), &None, 10_000_000));
    assert_eq!(state.timeline.len(), 100);
    assert!(state.timeline.iter().all(|a| a.id != "a0"));
    assert_eq!(state.timeline[99].id, "activity-10000000");
}
