use devflow_recorder::window::{
    activity_key_for_window, activity_key_title_for_window, base_display_title_for_window,
    display_activity_title, display_title_for_window, is_terminal_app, normalize_title_for_activity,
    sanitize_title, sanitize_url, should_ignore_activity, terminal_cwd_hint, terminal_title_tail,
    ActiveWindow,
};

fn window(app: &str, title: &str, pid: Option<u32>) -> ActiveWindow {
    ActiveWindow {
        app: app.to_string(),
        title: title.to_string(),
        source: "test".to_string(),
        pid,
    }
}

#[test]
fn sanitize_title_trims_and_names_empty_titles() {
    assert_eq!(sanitize_title("  hello world \t"), "hello world");
    assert_eq!(sanitize_title("   "), "Untitled");
    assert_eq!(sanitize_title(""), "Untitled");
}

#[test]
fn sanitize_title_caps_at_160_characters() {
    let long: String = "é".repeat(200);
    let r = sanitize_title(&long);
    assert_eq!(r.chars().count(), 160);
    assert_eq!(r, "é".repeat(160));
}

#[test]
fn sanitize_url_drops_query_and_fragment() {
    assert_eq!(sanitize_url("https://example.com/path?q=1#top"), "https://example.com/path");
    assert_eq!(sanitize_url("https://example.com/a#frag?x=1"), "https://example.com/a");
    assert_eq!(sanitize_url("https://example.com/plain"), "https://example.com/plain");
    let r = sanitize_url("http://h/p?secret=1");
    assert!(!r.contains('?') && !r.contains('#'));
    assert!("http://h/p?secret=1".starts_with(&r));
}

#[test]
fn normalize_title_drops_spinner_and_space() {
    assert_eq!(normalize_title_for_activity("⠋ Building project  "), "Building project");
    assert_eq!(normalize_title_for_activity("\u{2800}\u{28ff} \tx"), "x");
    assert_eq!(normalize_title_for_activity("⠙⠹"), "");
}

#[test]
fn display_activity_title_falls_back_to_raw() {
    assert_eq!(display_activity_title("  raw title ", ""), "raw title");
    assert_eq!(display_activity_title("raw", "normalized"), "normalized");
    assert_eq!(display_activity_title("   ", ""), "Untitled");
}

#[test]
fn terminal_apps_are_recognised() {
    assert!(is_terminal_app("GNOME-Terminal"));
    assert!(is_terminal_app("org.gnome.Terminal"));
    assert!(is_terminal_app("终端"));
    assert!(!is_terminal_app("Firefox"));
    assert!(!is_terminal_app("kitty"));
}

#[test]
fn terminal_title_tail_takes_last_component() {
    assert_eq!(terminal_title_tail("user@host: ~/code/devflow"), "devflow");
    assert_eq!(terminal_title_tail("user@host: ~"), "~");
    assert_eq!(terminal_title_tail("user@host: /home/u/p/ · codex"), "p");
    assert_eq!(terminal_title_tail("plain"), "plain");
    assert_eq!(terminal_title_tail("user@host: ///"), "///");
    assert_eq!(terminal_title_tail("user@host: "), "Untitled");
}

#[test]
fn terminal_cwd_hint_reads_the_location() {
    let home = Some("/home/u".to_string());
    let h = terminal_cwd_hint("u@h: ~/proj/", &home).unwrap();
    assert_eq!((h.path.as_str(), h.exact), ("/home/u/proj", false));
    let h = terminal_cwd_hint("u@h: ~", &home).unwrap();
    assert_eq!((h.path.as_str(), h.exact), ("/home/u", true));
    assert!(terminal_cwd_hint("u@h: ~", &None).is_none());
    assert!(terminal_cwd_hint("u@h: ~/x", &None).is_none());
    let h = terminal_cwd_hint("u@h: /srv/app/", &None).unwrap();
    assert_eq!((h.path.as_str(), h.exact), ("/srv/app", false));
    let h = terminal_cwd_hint("u@h: proj · node", &None).unwrap();
    assert_eq!((h.path.as_str(), h.exact), ("proj", true));
    assert!(terminal_cwd_hint("u@h: ", &None).is_none());
    let h = terminal_cwd_hint("u@h: ~/~/deep", &home).unwrap();
    assert_eq!(h.path, "/home/u/deep");
}

#[test]
fn display_title_appends_terminal_tools() {
    let tools = vec!["codex".to_string(), "node x2".to_string()];
    let term = window("gnome-terminal", "u@h: ~/code/app", Some(42));
    assert_eq!(display_title_for_window(&term, &tools), "app · codex, node x2");
    let no_pid = window("gnome-terminal", "u@h: ~/code/app", None);
    assert_eq!(display_title_for_window(&no_pid, &tools), "app");
    let editor = window("Code", "  main.rs - app ", Some(7));
    assert_eq!(display_title_for_window(&editor, &tools), "main.rs - app");
    assert_eq!(display_title_for_window(&term, &Vec::new()), "app");
    assert_eq!(base_display_title_for_window(&term), "app");
}

#[test]
fn activity_keys_group_terminals_by_directory() {
    let home = Some("/home/u".to_string());
    let w = window("Gnome-Terminal", "u@h: ~/Code/App/", Some(1));
    assert_eq!(activity_key_title_for_window(&w, &home), "/home/u/Code/App");
    assert_eq!(activity_key_for_window(&w, &home), "gnome-terminal:/home/u/code/app");
    let e = window("Firefox", "⠋  Docs Page ", None);
    assert_eq!(activity_key_title_for_window(&e, &home), "⠋  Docs Page");
    assert_eq!(activity_key_for_window(&e, &home), "firefox:docs page");
}

#[test]
fn recorder_windows_are_ignored() {
    assert!(should_ignore_activity(&window("DevFlow_Recorder", "x", None)));
    assert!(should_ignore_activity(&window("app", "DevFlow Recorder", None)));
    assert!(!should_ignore_activity(&window("app", "DevFlow Recorder 2", None)));
}
