use devflow_recorder::clock::{
    day_start_ms, i64_from_u128, local_timezone_offset_seconds, parse_fixed_timezone_offset,
    short_age_label, time_label, u128_from_i64,
};
use devflow_recorder::ingest::{
    active_window_from_gnome_payload, read_gnome_window, GnomeWindowPayload, ReceivedGnomeWindow,
};
use devflow_recorder::json::{find_focused_node, Json};
use devflow_recorder::provider::{
    detect_compositor, get_environment_snapshot, gnome_provider_status, gnome_report_age,
    hyprland_window_from_output, provider_statuses, read_active_window, sway_window_from_output,
    DesktopProbe,
};

fn gnome(title: &str, received_at_ms: u128) -> ReceivedGnomeWindow {
    ReceivedGnomeWindow {
        payload: GnomeWindowPayload {
            title: title.to_string(),
            app: Some("Files".to_string()),
            app_id: None,
            wm_class: None,
            pid: None,
            workspace: None,
            focused_at: None,
        },
        received_at_ms,
    }
}

#[test]
fn time_labels_use_the_zone_offset() {
    let ts = (13 * 3600 + 5 * 60 + 59) * 1000 + 999;
    assert_eq!(time_label(ts, 0), "13:05");
    assert_eq!(time_label(ts, 8 * 3600), "21:05");
    assert_eq!(time_label(0, 8 * 3600), "08:00");
    assert_eq!(time_label(86_400_000 * 5 + 60_000, 0), "00:01");
    assert_eq!(time_label(1_000, u64::MAX), "00:00");
    assert_eq!(time_label(61_000, u64::MAX), "00:01");
}

#[test]
fn clock_reads_a_time_after_the_epoch() {
    assert!(devflow_recorder::clock::now_ms() > 1_600_000_000_000);
}

#[test]
fn age_labels_pick_the_largest_unit() {
    assert_eq!(short_age_label(0), "0ms");
    assert_eq!(short_age_label(999), "999ms");
    assert_eq!(short_age_label(1_000), "1s");
    assert_eq!(short_age_label(59_999), "59s");
    assert_eq!(short_age_label(60_000), "1m");
    assert_eq!(short_age_label(3_599_999), "59m");
    assert_eq!(short_age_label(3_600_000), "1h");
    assert_eq!(short_age_label(7_200_000), "2h");
}

#[test]
fn fixed_zone_offsets_are_parsed() {
    assert_eq!(parse_fixed_timezone_offset("UTC"), Some(0));
    assert_eq!(parse_fixed_timezone_offset("UTC+8"), Some(28_800));
    assert_eq!(parse_fixed_timezone_offset("UTC+08"), Some(28_800));
    assert_eq!(parse_fixed_timezone_offset("UTC-3"), None);
    assert_eq!(parse_fixed_timezone_offset("UTC+"), None);
    assert_eq!(parse_fixed_timezone_offset("Asia/Shanghai"), None);
    assert_eq!(parse_fixed_timezone_offset("UTC+99999999999999999999"), None);
    assert_eq!(parse_fixed_timezone_offset("UTC+18446744073709551615"), Some(u64::MAX));
}

#[test]
fn zone_offset_defaults_to_eight_hours() {
    assert_eq!(local_timezone_offset_seconds(&None), 28_800);
    assert_eq!(local_timezone_offset_seconds(&Some("UTC".to_string())), 0);
    assert_eq!(local_timezone_offset_seconds(&Some("UTC+2".to_string())), 7_200);
    assert_eq!(local_timezone_offset_seconds(&Some("Europe/Berlin".to_string())), 28_800);
}

#[test]
fn day_start_is_local_midnight() {
    assert_eq!(day_start_ms(86_400_000 * 3 + 5, 0), 86_400_000 * 3);
    assert_eq!(day_start_ms(86_400_000, 8 * 3600), 57_600_000);
    assert_eq!(day_start_ms(86_400_000 * 2 - 1, 8 * 3600), 144_000_000);
}

#[test]
fn time_values_convert_with_clamping() {
    assert_eq!(i64_from_u128(5), 5);
    assert_eq!(i64_from_u128(u128::MAX), i64::MAX);
    assert_eq!(i64_from_u128(i64::MAX as u128 + 1), i64::MAX);
    assert_eq!(u128_from_i64(7), 7);
    assert_eq!(u128_from_i64(-1), 0);
    assert_eq!(u128_from_i64(i64::MIN), 0);
}

#[test]
fn gnome_window_is_read_while_fresh() {
    let w = read_gnome_window(&Some(gnome(" Home ", 1_000)), 121_000).unwrap();
    assert_eq!(w.title, "Home");
    assert_eq!(w.app, "Files");
    assert!(read_gnome_window(&Some(gnome("Home", 1_000)), 121_001).is_none());
    assert!(read_gnome_window(&Some(gnome("   ", 1_000)), 1_000).is_none());
    assert!(read_gnome_window(&None, 0).is_none());
    assert!(read_gnome_window(&Some(gnome("Home", 5_000)), 1_000).is_some());
}

#[test]
fn gnome_payload_names_fall_back_in_order() {
    let mut p = gnome("t", 0).payload;
    p.app = None;
    assert_eq!(active_window_from_gnome_payload(&p).unwrap().app, "GNOME Window");
    p.wm_class = Some("Wm".to_string());
    assert_eq!(active_window_from_gnome_payload(&p).unwrap().app, "Wm");
    p.app_id = Some("id".to_string());
    assert_eq!(active_window_from_gnome_payload(&p).unwrap().app, "id");
}

#[test]
fn hyprland_output_becomes_a_window() {
    let w = hyprland_window_from_output(br#"{"class":"kitty","title":"  vim  ","pid":4294967297}"#).unwrap();
    assert_eq!(w.app, "kitty");
    assert_eq!(w.title, "vim");
    assert_eq!(w.source, "hyprctl activewindow");
    assert_eq!(w.pid, Some(1));
    let w = hyprland_window_from_output(br#"{"class":3}"#).unwrap();
    assert_eq!(w.app, "Unknown");
    assert_eq!(w.title, "Untitled");
    assert_eq!(w.pid, None);
    assert!(hyprland_window_from_output(b"not json").is_none());
}

#[test]
fn sway_output_finds_the_focused_node() {
    let tree = br#"{"focused":false,"nodes":[{"focused":false,"nodes":[]},{"focused":false,"floating_nodes":[{"focused":true,"name":"Editor","window_properties":{"class":"Code"},"pid":12}]}]}"#;
    let w = sway_window_from_output(tree).unwrap();
    assert_eq!(w.app, "Code");
    assert_eq!(w.title, "Editor");
    assert_eq!(w.source, "swaymsg get_tree");
    assert_eq!(w.pid, Some(12));
    assert!(sway_window_from_output(br#"{"focused":false,"nodes":[]}"#).is_none());
    assert!(sway_window_from_output(b"[").is_none());
}

#[test]
fn focused_node_search_prefers_the_node_itself() {
    let leaf = Json::Object(vec![("focused".to_string(), Json::Bool(true))]);
    let root = Json::Object(vec![
        ("focused".to_string(), Json::Bool(false)),
        ("nodes".to_string(), Json::Array(vec![Json::Null, leaf])),
    ]);
    let found = find_focused_node(&root).unwrap();
    assert!(matches!(found, Json::Object(entries) if entries.len() == 1));
    assert!(find_focused_node(&Json::Null).is_none());
}

#[test]
fn hyprland_is_tried_before_sway() {
    let hypr = Some(br#"{"class":"foot","title":"t"}"#.to_vec());
    let sway = Some(br#"{"focused":true,"app_id":"alacritty","name":"s"}"#.to_vec());
    assert_eq!(read_active_window(&hypr, &sway).unwrap().app, "foot");
    assert_eq!(read_active_window(&None, &sway).unwrap().app, "alacritty");
    assert_eq!(read_active_window(&Some(b"oops".to_vec()), &sway).unwrap().app, "alacritty");
    assert!(read_active_window(&None, &None).is_none());
}

#[test]
fn compositor_is_detected_from_sockets_then_desktop() {
    assert_eq!(detect_compositor("GNOME", true, true), "Hyprland");
    assert_eq!(detect_compositor("GNOME", false, true), "Sway");
    assert_eq!(detect_compositor("KDE", false, false), "KDE / KWin");
    assert_eq!(detect_compositor("ubuntu:GNOME", false, false), "GNOME / Mutter");
    assert_eq!(detect_compositor("xfce", false, false), "unknown");
}

#[test]
fn gnome_status_reflects_report_age() {
    let s = gnome_provider_status(Some(2_500));
    assert_eq!(s.state, "ready");
    assert_eq!(s.detail, "GNOME Shell 扩展正在上报窗口元数据，最近一次在 2s 前。");
    let s = gnome_provider_status(Some(10_001));
    assert_eq!(s.state, "partial");
    assert_eq!(s.detail, "本地接收端已启动，但 GNOME Shell 扩展最近一次上报是 10s 前，可能已停用。");
    assert_eq!(gnome_provider_status(None).state, "standby");
    assert_eq!(gnome_report_age(&Some(gnome("x", 10)), 5), Some(0));
    assert_eq!(gnome_report_age(&Some(gnome("x", 10)), 25), Some(15));
    assert_eq!(gnome_report_age(&None, 25), None);
}

#[test]
fn provider_list_depends_on_the_desktop() {
    let ids = |v: Vec<devflow_recorder::provider::ProviderStatus>| -> Vec<String> {
        v.into_iter().map(|p| p.id).collect()
    };
    assert_eq!(
        ids(provider_statuses("ubuntu:GNOME", &Some("wayland".to_string()), false, false, false, None)),
        vec!["hyprland", "sway", "browser-extension", "gnome-shell-extension"]
    );
    assert_eq!(
        ids(provider_statuses("KDE", &Some("x11".to_string()), false, false, true, None)),
        vec!["hyprland", "sway", "browser-extension", "kwin", "x11-fallback"]
    );
    let v = provider_statuses("Hyprland", &None, true, false, false, None);
    assert_eq!(v.len(), 3);
    assert_eq!(v[0].state, "ready");
    assert_eq!(v[1].state, "standby");
    assert_eq!(v[2].state, "planned");
}

#[test]
fn environment_snapshot_combines_the_probe() {
    let probe = DesktopProbe {
        session_type: None,
        current_desktop: None,
        desktop_session: Some("plasma".to_string()),
        wayland_display: Some("wayland-0".to_string()),
        x11_display: None,
        hyprland_signature: false,
        swaysock: true,
        hyprctl_exists: true,
        swaymsg_exists: true,
        qdbus_exists: false,
    };
    let snap = get_environment_snapshot(&probe, None);
    assert_eq!(snap.session_type, "unknown");
    assert_eq!(snap.desktop, "plasma");
    assert_eq!(snap.compositor, "Sway");
    assert_eq!(snap.wayland_display.as_deref(), Some("wayland-0"));
    assert_eq!(snap.providers.len(), 4);
    assert_eq!(snap.providers[1].state, "ready");
    assert_eq!(snap.providers[3].id, "kwin");
    assert_eq!(snap.providers[3].state, "standby");
}
