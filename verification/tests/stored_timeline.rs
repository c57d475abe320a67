use devflow_recorder::storage::{
    activity_from_rows, activity_row, bridge_token, bridge_token_path, database_path,
    load_cutoff_ms, segment_rows, ActivityRow, SegmentRow,
};
use devflow_recorder::timeline::{ActivitySegment, TrackedActivity};

fn sample() -> TrackedActivity {
    TrackedActivity {
        id: "activity-1000".to_string(),
        activity_key: "code:main.rs".to_string(),
        first_started_at_ms: 1_000,
        last_seen_at_ms: 9_000,
        app: "Code".to_string(),
        title: "main.rs".to_string(),
        normalized_title: "main.rs".to_string(),
        source: "hyprctl activewindow".to_string(),
        pid: Some(4_321),
        segments: vec![
            ActivitySegment { started_at_ms: 1_000, ended_at_ms: Some(5_000) },
            ActivitySegment { started_at_ms: 6_000, ended_at_ms: None },
        ],
    }
}

#[test]
fn database_lives_under_the_data_directory() {
    let xdg = Some("/data".to_string());
    let home = Some("/home/u".to_string());
    assert_eq!(database_path(&xdg, &home), Some("/data/devflow-recorder/devflow-recorder.sqlite".to_string()));
    assert_eq!(
        database_path(&None, &home),
        Some("/home/u/.local/share/devflow-recorder/devflow-recorder.sqlite".to_string())
    );
    assert_eq!(database_path(&Some("/data/".to_string()), &None), Some("/data/devflow-recorder/devflow-recorder.sqlite".to_string()));
    assert_eq!(database_path(&Some(String::new()), &None), Some("devflow-recorder/devflow-recorder.sqlite".to_string()));
    assert_eq!(database_path(&None, &None), None);
}

#[test]
fn bridge_token_sits_beside_the_database() {
    let home = Some("/home/u".to_string());
    assert_eq!(bridge_token_path(&None, &home), Some("/home/u/.local/share/devflow-recorder/bridge-token".to_string()));
    assert_eq!(bridge_token_path(&None, &None), None);
    let db = std::path::PathBuf::from(database_path(&None, &home).unwrap());
    assert_eq!(
        db.with_file_name("bridge-token").to_str().unwrap(),
        bridge_token_path(&None, &home).unwrap()
    );
}

#[test]
fn bridge_token_is_hex_time_and_pid() {
    assert_eq!(bridge_token(0x18c2f, 0x4d2), "18c2f-4d2");
    assert_eq!(bridge_token(0, 0), "0-0");
    assert_eq!(bridge_token(255, 16), format!("{:x}-{:x}", 255u128, 16u32));
    assert_eq!(bridge_token(u128::MAX, u32::MAX), format!("{:x}-{:x}", u128::MAX, u32::MAX));
}

#[test]
fn activity_rows_hold_clamped_times() {
    let mut a = sample();
    a.last_seen_at_ms = u128::MAX;
    let row = activity_row(&a);
    assert_eq!(row.id, "activity-1000");
    assert_eq!(row.first_started_at_ms, 1_000);
    assert_eq!(row.last_seen_at_ms, i64::MAX);
    assert_eq!(row.pid, Some(4_321));
    let segs = segment_rows(&a);
    assert_eq!(segs.len(), 2);
    assert_eq!((segs[0].started_at_ms, segs[0].ended_at_ms), (1_000, Some(5_000)));
    assert_eq!((segs[1].started_at_ms, segs[1].ended_at_ms), (6_000, None));
}

#[test]
fn stored_activity_reads_back_unchanged() {
    let a = sample();
    let back = activity_from_rows(activity_row(&a), &segment_rows(&a));
    assert_eq!(back.id, a.id);
    assert_eq!(back.activity_key, a.activity_key);
    assert_eq!(back.first_started_at_ms, a.first_started_at_ms);
    assert_eq!(back.last_seen_at_ms, a.last_seen_at_ms);
    assert_eq!(back.app, a.app);
    assert_eq!(back.title, a.title);
    assert_eq!(back.normalized_title, a.normalized_title);
    assert_eq!(back.source, a.source);
    assert_eq!(back.pid, a.pid);
    assert_eq!(back.segments.len(), 2);
    assert_eq!(back.segments[1].started_at_ms, 6_000);
    assert_eq!(back.segments[1].ended_at_ms, None);
}

#[test]
fn odd_rows_read_back_safely() {
    let row = ActivityRow {
        id: "x".to_string(),
        activity_key: "k".to_string(),
        first_started_at_ms: -5,
        last_seen_at_ms: 7,
        app: "a".to_string(),
        title: "t".to_string(),
        normalized_title: "t".to_string(),
        source: "s".to_string(),
        pid: Some(-1),
    };
    let a = activity_from_rows(row, &vec![SegmentRow { started_at_ms: -1, ended_at_ms: Some(-2) }]);
    assert_eq!(a.first_started_at_ms, 0);
    assert_eq!(a.last_seen_at_ms, 7);
    assert_eq!(a.pid, None);
    assert_eq!(a.segments[0].started_at_ms, 0);
    assert_eq!(a.segments[0].ended_at_ms, Some(0));
    let mut row2 = activity_row(&sample());
    row2.pid = Some(i64::from(u32::MAX) + 1);
    assert_eq!(activity_from_rows(row2, &Vec::new()).pid, None);
}

#[test]
fn load_cutoff_is_the_local_day_start() {
    assert_eq!(load_cutoff_ms(86_400_000 + 1, 0), 86_400_000);
    assert_eq!(load_cutoff_ms(86_400_000, 8 * 3600), 57_600_000);
}
