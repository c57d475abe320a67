use devflow_recorder::process::{
    is_interesting_terminal_process, lex_less_str, normalize_process_cwd, parse_child_pids,
    process_argv0_basename, process_display_name, process_matches_terminal_cwd,
    sanitize_process_name, terminal_process_names, terminal_process_rank, ProcessObservation,
    ProcessWalk,
};
use devflow_recorder::window::TerminalCwdHint;
use std::collections::HashMap;

fn hint(path: &str, exact: bool) -> Option<TerminalCwdHint> {
    Some(TerminalCwdHint { path: path.to_string(), exact })
}

fn obs(cwd: &str, comm: &str, children: &str) -> ProcessObservation {
    ProcessObservation {
        cwd_link: Some(cwd.to_string()),
        comm: Some(format!("{comm}\n")),
        cmdline: None,
        children: Some(children.to_string()),
    }
}

/// Runs a walk over a fake process table.
fn walk(root: u32, cwd_hint: Option<TerminalCwdHint>, table: &HashMap<u32, ProcessObservation>) -> Vec<String> {
    let mut w = ProcessWalk::new(root, cwd_hint);
    while let Some(pid) = w.next_pid() {
        let o = table.get(&pid).cloned().unwrap_or(ProcessObservation {
            cwd_link: None,
            comm: None,
            cmdline: None,
            children: None,
        });
        w.visit(&o);
    }
    terminal_process_names(&w)
}

#[test]
fn process_names_keep_safe_characters() {
    assert_eq!(sanitize_process_name("  node\n"), "node");
    assert_eq!(sanitize_process_name("my tool(1)!"), "mytool1");
    assert_eq!(sanitize_process_name("a.b-c_d"), "a.b-c_d");
    assert_eq!(sanitize_process_name(&"x".repeat(60)), "x".repeat(48));
    assert_eq!(sanitize_process_name("é"), "");
}

#[test]
fn shells_and_terminals_are_not_interesting() {
    for name in ["bash", "ZSH", "tmux", "gnome-terminal-server", "Alacritty", "sudo"] {
        assert!(!is_interesting_terminal_process(name), "{name}");
    }
    for name in ["node", "codex", "cargo", "bash2"] {
        assert!(is_interesting_terminal_process(name), "{name}");
    }
}

#[test]
fn tool_ranks_follow_the_listing_order() {
    assert_eq!(terminal_process_rank("reasonix"), 0);
    assert_eq!(terminal_process_rank("hermes"), 1);
    assert_eq!(terminal_process_rank("codex"), 2);
    assert_eq!(terminal_process_rank("npm"), 3);
    assert_eq!(terminal_process_rank("npmrundev"), 3);
    assert_eq!(terminal_process_rank("node"), 4);
    assert_eq!(terminal_process_rank("cargo"), 10);
    assert_eq!(terminal_process_rank("Node"), 10);
}

#[test]
fn process_cwd_is_normalized() {
    assert_eq!(normalize_process_cwd("/home/u/p/"), Some("/home/u/p".to_string()));
    assert_eq!(normalize_process_cwd("/home/u/p"), Some("/home/u/p".to_string()));
    assert_eq!(normalize_process_cwd("/"), None);
    assert_eq!(normalize_process_cwd(""), None);
}

#[test]
fn cwd_matching_follows_the_hint() {
    let cwd = Some("/home/u/proj/src".to_string());
    assert!(process_matches_terminal_cwd(&cwd, &hint("/home/u/proj", false)));
    assert!(!process_matches_terminal_cwd(&cwd, &hint("/home/u/proj", true)));
    assert!(process_matches_terminal_cwd(&cwd, &hint("/home/u/proj/src", true)));
    assert!(!process_matches_terminal_cwd(&cwd, &hint("/home/u/pro", false)));
    assert!(process_matches_terminal_cwd(&cwd, &hint("src", true)));
    assert!(!process_matches_terminal_cwd(&cwd, &hint("proj", true)));
    assert!(!process_matches_terminal_cwd(&None, &hint("src", true)));
    assert!(!process_matches_terminal_cwd(&cwd, &None));
}

#[test]
fn argv0_basename_ignores_arguments() {
    assert_eq!(process_argv0_basename(b"/usr/bin/node\0server.js\0--port\0"), Some("node".to_string()));
    assert_eq!(process_argv0_basename(b"python3"), Some("python3".to_string()));
    assert_eq!(process_argv0_basename(b"\0secret"), None);
    assert_eq!(process_argv0_basename(b""), None);
    assert_eq!(process_argv0_basename(b"/opt/!!\0"), None);
    assert_eq!(
        process_argv0_basename(b"/bin/tool\0a"),
        process_argv0_basename(b"/bin/tool\0completely different")
    );
}

#[test]
fn display_name_prefers_reasonix_then_comm() {
    let comm = Some("node\n".to_string());
    assert_eq!(process_display_name(&comm, &Some(b"/x/reasonix-cli\0".to_vec())), Some("reasonix".to_string()));
    assert_eq!(process_display_name(&comm, &Some(b"/usr/bin/other\0".to_vec())), Some("node".to_string()));
    assert_eq!(process_display_name(&None, &Some(b"/usr/bin/other\0".to_vec())), Some("other".to_string()));
    assert_eq!(process_display_name(&Some("  \n".to_string()), &None), None);
}

#[test]
fn child_pids_are_parsed_from_whitespace() {
    assert_eq!(parse_child_pids("12 34\n56 x 4294967296 7"), vec![12, 34, 56, 7]);
    assert_eq!(parse_child_pids(""), Vec::<u32>::new());
    assert_eq!(parse_child_pids("+5"), vec![5]);
}

#[test]
fn names_compare_by_code_point() {
    assert!(lex_less_str("abc", "abd"));
    assert!(lex_less_str("ab", "abc"));
    assert!(!lex_less_str("abc", "abc"));
    assert!(!lex_less_str("b", "a"));
    assert!(lex_less_str("Z", "a"));
}

#[test]
fn walk_counts_tools_in_the_terminal_directory() {
    let mut table = HashMap::new();
    table.insert(1, obs("/home/u/proj", "gnome-terminal-server", "2 3"));
    table.insert(2, obs("/home/u/proj", "bash", "4 5 6"));
    table.insert(3, obs("/home/u/proj", "bash", "7"));
    table.insert(4, obs("/home/u/proj", "hermes", ""));
    table.insert(5, obs("/home/u/proj/sub", "hermes", ""));
    table.insert(6, obs("/tmp", "hermes", ""));
    table.insert(7, obs("/home/u/proj", "node", "8"));
    table.insert(8, obs("/home/u/proj", "codex", ""));
    let names = walk(1, hint("/home/u/proj", false), &table);
    assert_eq!(names, vec!["hermes x2", "codex", "node"]);
}

#[test]
fn walk_lists_at_most_four_tools() {
    let mut table = HashMap::new();
    table.insert(1, obs("/p", "kgx", "2 3 4 5 6 7"));
    table.insert(2, obs("/p", "zeta", ""));
    table.insert(3, obs("/p", "alpha", ""));
    table.insert(4, obs("/p", "node", ""));
    table.insert(5, obs("/p", "beta", ""));
    table.insert(6, obs("/p", "alpha", ""));
    table.insert(7, obs("/p", "gamma", ""));
    let names = walk(1, hint("/p", true), &table);
    assert_eq!(names, vec!["node", "alpha x2", "beta", "gamma"]);
}

#[test]
fn walk_without_hint_counts_nothing() {
    let mut table = HashMap::new();
    table.insert(1, obs("/p", "kgx", "2"));
    table.insert(2, obs("/p", "node", ""));
    assert!(walk(1, None, &table).is_empty());
}

#[test]
fn walk_visits_each_process_once() {
    let mut table = HashMap::new();
    table.insert(1, obs("/p", "kgx", "2 2 1"));
    table.insert(2, obs("/p", "node", "1 2"));
    let names = walk(1, hint("/p", true), &table);
    assert_eq!(names, vec!["node"]);
}

#[test]
fn walk_stops_after_eighty_processes() {
    let mut table = HashMap::new();
    let children: Vec<String> = (2..=120).map(|p| p.to_string()).collect();
    table.insert(1, obs("/p", "kgx", &children.join(" ")));
    for p in 2..=120u32 {
        table.insert(p, obs("/p", "node", ""));
    }
    let names = walk(1, hint("/p", true), &table);
    assert_eq!(names, vec!["node x79"]);
}
