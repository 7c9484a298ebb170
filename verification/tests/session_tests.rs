use workspace_engine::action::{Action, PipeMessage};
use workspace_engine::session_manager::{
    build_item_list, compose_items, dir_to_session_name, generate_child_name,
    handle_repo_scan_result, handle_session_action, join, launch_sk, name_in_use,
    open_session_manager, parse_item, parse_repos, picker_script, repo_root, session_name_for,
    shell_escape, LiveSession, ResurrectableSession, SessionManagerState, PICKER_HEAD,
    PICKER_PURPOSE, PICKER_TAIL, SCAN_PURPOSE, SCAN_SCRIPT,
};
use workspace_engine::text::{push_decimal, same_text};

fn live(name: &str, current: bool) -> LiveSession {
    LiveSession { name: name.to_string(), is_current_session: current }
}

fn exited(name: &str, secs: u64) -> ResurrectableSession {
    ResurrectableSession { name: name.to_string(), inactive_secs: secs }
}

fn answer(key: Option<&str>, payload: Option<&str>) -> PipeMessage {
    PipeMessage {
        name: "session-action".to_string(),
        args: key.iter().map(|k| ("key".to_string(), k.to_string())).collect(),
        payload: payload.map(|p| p.to_string()),
        from_cli: false,
    }
}

fn state_with(names: &[&str]) -> SessionManagerState {
    let mut sm = SessionManagerState::default();
    for n in names {
        sm.sessions.push(live(n, false));
    }
    sm
}

#[test]
fn default_state_is_idle_and_empty() {
    let sm = SessionManagerState::default();
    assert!(sm.sessions.is_empty());
    assert!(sm.resurrectable_sessions.is_empty());
    assert!(sm.repos.is_empty());
    assert_eq!(sm.sm_pane_id, None);
    assert!(!sm.pending_repo_scan);
}

#[test]
fn scan_result_composes_exited_then_dir() {
    let mut sm = SessionManagerState::default();
    sm.sessions.push(live("work", true));
    sm.resurrectable_sessions.push(exited("old", 5 * 3600));
    sm.pending_repo_scan = true;
    let request = handle_repo_scan_result(&mut sm, b"/home/u/proj/.git".to_vec());
    assert!(!sm.pending_repo_scan);
    assert_eq!(sm.repos, vec!["/home/u/proj".to_string()]);
    assert_eq!(build_item_list(&sm), "[exited] old\n[dir] /home/u/proj");
    match request {
        Some(Action::OpenFloatingShell { script, purpose }) => {
            assert_eq!(purpose, "session-manager-sk");
            assert_eq!(script, picker_script("[exited] old\n[dir] /home/u/proj"));
        }
        other => panic!("unexpected request: {:?}", other),
    }
    assert_eq!(sm.sm_pane_id, None);
}

#[test]
fn composition_orders_the_three_groups() {
    let mut sm = SessionManagerState::default();
    sm.sessions.push(live("b", false));
    sm.sessions.push(live("cur", true));
    sm.sessions.push(live("a", false));
    sm.resurrectable_sessions.push(exited("z", 1));
    sm.resurrectable_sessions.push(exited("y", 2));
    sm.repos.push("/r/2".to_string());
    sm.repos.push("/r/1".to_string());
    assert_eq!(
        compose_items(&sm),
        vec![
            "[session] b".to_string(),
            "[session] a".to_string(),
            "[exited] z".to_string(),
            "[exited] y".to_string(),
            "[dir] /r/2".to_string(),
            "[dir] /r/1".to_string(),
        ]
    );
    assert_eq!(
        build_item_list(&sm),
        "[session] b\n[session] a\n[exited] z\n[exited] y\n[dir] /r/2\n[dir] /r/1"
    );
}

#[test]
fn join_puts_newlines_between_lines_only() {
    assert_eq!(join(&vec![]), "");
    assert_eq!(join(&vec!["a".to_string()]), "a");
    assert_eq!(join(&vec!["a".to_string(), "".to_string(), "b".to_string()]), "a\n\nb");
}

#[test]
fn empty_list_launches_no_picker() {
    let mut sm = SessionManagerState::default();
    sm.sessions.push(live("only", true));
    assert_eq!(launch_sk(&sm), None);
    sm.pending_repo_scan = true;
    assert_eq!(handle_repo_scan_result(&mut sm, b"\n\n".to_vec()), None);
    assert!(!sm.pending_repo_scan);
    assert!(sm.repos.is_empty());
}

#[test]
fn scan_replaces_repos_wholesale() {
    let mut sm = SessionManagerState::default();
    sm.repos.push("/stale".to_string());
    let _ = handle_repo_scan_result(&mut sm, b"/a/.git\n/b/.git\n".to_vec());
    assert_eq!(sm.repos, vec!["/a".to_string(), "/b".to_string()]);
}

#[test]
fn scan_output_with_invalid_utf8_is_decoded_lossily() {
    let mut sm = SessionManagerState::default();
    let _ = handle_repo_scan_result(&mut sm, vec![b'/', 0xff, b'\n']);
    assert_eq!(sm.repos, vec!["/\u{fffd}".to_string()]);
}

#[test]
fn parse_repos_drops_empty_lines_and_strips_git() {
    assert_eq!(parse_repos(""), Vec::<String>::new());
    assert_eq!(
        parse_repos("a/.git\n\nb\r\nc/.git/.git"),
        vec!["a".to_string(), "b".to_string(), "c".to_string()]
    );
    assert_eq!(parse_repos("/.git\n"), vec!["".to_string()]);
    assert_eq!(parse_repos("\r\n"), Vec::<String>::new());
    assert_eq!(parse_repos("x\r"), vec!["x\r".to_string()]);
    assert_eq!(parse_repos("caf\u{e9}/.git\n"), vec!["caf\u{e9}".to_string()]);
}

#[test]
fn repo_root_strips_every_trailing_git() {
    assert_eq!(repo_root("/home/u/proj/.git"), "/home/u/proj");
    assert_eq!(repo_root("/home/u/proj"), "/home/u/proj");
    assert_eq!(repo_root("/x/.git/.git"), "/x");
    assert_eq!(repo_root("/x/.git/y"), "/x/.git/y");
    assert_eq!(repo_root(".git"), ".git");
    assert_eq!(repo_root(""), "");
}

#[test]
fn shell_escape_neutralizes_quotes_and_backslashes() {
    assert_eq!(shell_escape("plain"), "plain");
    assert_eq!(shell_escape("a'b"), "a'\\''b");
    assert_eq!(shell_escape("a\\b"), "a\\b");
    assert_eq!(shell_escape("'\\'"), "'\\''\\'\\''");
    assert_eq!(shell_escape("''"), "'\\'''\\''");
    assert_eq!(shell_escape("l1\nl2"), "l1\nl2");
    assert_eq!(shell_escape(""), "");
}

#[test]
fn picker_script_embeds_the_escaped_list() {
    let script = picker_script("[dir] /it's");
    assert_eq!(script, format!("{}{}{}", PICKER_HEAD, "'[dir] /it'\\''s'", PICKER_TAIL));
    assert!(script.starts_with("RESULT=$(printf '%s\\n' '[dir] /it'\\''s' | sk --ansi --expect 'ctrl-d,ctrl-n' --preview 'line={}; "));
    assert!(script.ends_with("zellij pipe --name session-action --args \"key=$KEY\" -- \"$ITEM\"; fi; zellij action close-pane"));
    assert_eq!(PICKER_PURPOSE, "session-manager-sk");
}

#[test]
fn parse_item_reads_tag_and_value() {
    assert_eq!(parse_item("[dir] /home/u/proj"), ("dir", "/home/u/proj"));
    assert_eq!(parse_item("[session]   spaced"), ("session", "spaced"));
    assert_eq!(parse_item("[a]b]c"), ("a", "b]c"));
    assert_eq!(parse_item("[]x"), ("", "x"));
    assert_eq!(parse_item("[tag]"), ("tag", ""));
    assert_eq!(parse_item("[tag] \t\u{a0} "), ("tag", ""));
    assert_eq!(parse_item("no bracket"), ("", "no bracket"));
    assert_eq!(parse_item("[unclosed"), ("", "[unclosed"));
    assert_eq!(parse_item(" [dir] x"), ("", " [dir] x"));
    assert_eq!(parse_item(""), ("", ""));
}

#[test]
fn confirm_on_dir_switches_with_cwd() {
    let sm = SessionManagerState::default();
    let request = handle_session_action(&sm, &answer(Some(""), Some("[dir] /home/u/proj")));
    assert_eq!(
        request,
        Some(Action::SwitchSessionWithCwd {
            name: "proj".to_string(),
            cwd: "/home/u/proj".to_string()
        })
    );
    let no_key = handle_session_action(&sm, &answer(None, Some("[dir] /home/u/proj")));
    assert_eq!(no_key, request);
    let enter = handle_session_action(&sm, &answer(Some("enter"), Some("[dir] /home/u/proj")));
    assert_eq!(enter, request);
    let dup = handle_session_action(&sm, &answer(Some("ctrl-n"), Some("[dir] /home/u/proj")));
    assert_eq!(dup, request);
}

#[test]
fn confirm_on_session_switches() {
    let sm = SessionManagerState::default();
    assert_eq!(
        handle_session_action(&sm, &answer(Some("enter"), Some("[session] work"))),
        Some(Action::SwitchSession { name: "work".to_string() })
    );
    assert_eq!(
        handle_session_action(&sm, &answer(None, Some("[exited] old"))),
        Some(Action::SwitchSession { name: "old".to_string() })
    );
}

#[test]
fn delete_key_kills_or_purges() {
    let sm = SessionManagerState::default();
    assert_eq!(
        handle_session_action(&sm, &answer(Some("ctrl-d"), Some("[session] work"))),
        Some(Action::KillSession { name: "work".to_string() })
    );
    assert_eq!(
        handle_session_action(&sm, &answer(Some("ctrl-d"), Some("[exited] old"))),
        Some(Action::DeleteDeadSession { name: "old".to_string() })
    );
    assert_eq!(handle_session_action(&sm, &answer(Some("ctrl-d"), Some("[dir] /x"))), None);
}

#[test]
fn duplicate_picks_the_first_free_child_name() {
    let sm = state_with(&["work", "work-1"]);
    assert_eq!(generate_child_name("work", &sm), "work-2");
    assert_eq!(
        handle_session_action(&sm, &answer(Some("ctrl-n"), Some("[session] work"))),
        Some(Action::SwitchSession { name: "work-2".to_string() })
    );
    assert_eq!(generate_child_name("work", &sm), generate_child_name("work", &sm));
}

#[test]
fn child_name_counts_resurrectable_names_and_fills_gaps() {
    let mut sm = state_with(&["w-1", "w-3"]);
    sm.resurrectable_sessions.push(exited("w-2", 9));
    assert_eq!(generate_child_name("w", &sm), "w-4");
    let gap = state_with(&["w-2", "w-01"]);
    assert_eq!(generate_child_name("w", &gap), "w-1");
    assert_eq!(generate_child_name("", &SessionManagerState::default()), "-1");
}

#[test]
fn child_name_goes_past_nine() {
    let names: Vec<String> = (1..=11).map(|k| format!("s-{}", k)).collect();
    let refs: Vec<&str> = names.iter().map(|s| s.as_str()).collect();
    let sm = state_with(&refs);
    assert_eq!(generate_child_name("s", &sm), "s-12");
}

#[test]
fn name_in_use_looks_at_both_lists() {
    let mut sm = state_with(&["a"]);
    sm.resurrectable_sessions.push(exited("b", 0));
    assert!(name_in_use(&sm, "a"));
    assert!(name_in_use(&sm, "b"));
    assert!(!name_in_use(&sm, "c"));
}

#[test]
fn unknown_answers_are_ignored() {
    let sm = SessionManagerState::default();
    assert_eq!(handle_session_action(&sm, &answer(Some(""), None)), None);
    assert_eq!(handle_session_action(&sm, &answer(Some(""), Some(""))), None);
    assert_eq!(handle_session_action(&sm, &answer(Some(""), Some("plain line"))), None);
    assert_eq!(handle_session_action(&sm, &answer(Some(""), Some("[other] x"))), None);
    assert_eq!(handle_session_action(&sm, &answer(Some("ctrl-x"), Some("[session] a"))), None);
    assert_eq!(handle_session_action(&sm, &answer(Some("ctrl-n"), Some("[other] a"))), None);
}

#[test]
fn dir_names_come_from_the_final_component() {
    assert_eq!(dir_to_session_name("/home/u/proj"), "proj");
    assert_eq!(dir_to_session_name("/home/u/proj/"), "proj");
    assert_eq!(dir_to_session_name("/"), "/");
    assert_eq!(dir_to_session_name("/a/.."), "/a/..");
    assert_eq!(session_name_for("/p/q", Some("q".to_string())), "q");
    assert_eq!(session_name_for("/p/q", None), "/p/q");
}

#[test]
fn open_twice_requests_one_scan() {
    let mut sm = SessionManagerState::default();
    let first = open_session_manager(&mut sm);
    assert_eq!(
        first,
        Some(Action::RunShell {
            script: "find ~/src -name .git -type d -maxdepth 5 2>/dev/null".to_string(),
            purpose: "scan-repos".to_string()
        })
    );
    assert!(sm.pending_repo_scan);
    let snapshot = sm.clone();
    assert_eq!(open_session_manager(&mut sm), None);
    assert_eq!(sm, snapshot);
    assert_eq!(SCAN_PURPOSE, "scan-repos");
    assert_eq!(SCAN_SCRIPT, "find ~/src -name .git -type d -maxdepth 5 2>/dev/null");
}

#[test]
fn open_is_turned_away_while_picker_is_open() {
    let mut sm = SessionManagerState::default();
    sm.sm_pane_id = Some(3);
    assert_eq!(open_session_manager(&mut sm), None);
    assert!(!sm.pending_repo_scan);
    assert_eq!(sm.sm_pane_id, Some(3));
}

#[test]
fn decimal_rendering_is_exact() {
    let mut s = String::from("n=");
    push_decimal(&mut s, 0);
    assert_eq!(s, "n=0");
    let mut t = String::new();
    push_decimal(&mut t, 1234567890);
    assert_eq!(t, "1234567890");
    let mut u = String::new();
    push_decimal(&mut u, u128::MAX);
    assert_eq!(u, "340282366920938463463374607431768211455");
}

#[test]
fn same_text_compares_characters() {
    assert!(same_text("abc", "abc"));
    assert!(!same_text("abc", "abd"));
    assert!(!same_text("abc", "ab"));
    assert!(same_text("", ""));
}

#[test]
fn picker_script_is_exact() {
    let expected = "RESULT=$(printf '%s\\n' '[session] a\n[dir] /b' | sk --ansi --expect 'ctrl-d,ctrl-n' --preview 'line={}; type=$(echo \"$line\" | sed \"s/^\\\\[\\\\([^]]*\\\\)\\\\].*/\\\\1/\"); name=$(echo \"$line\" | sed \"s/^\\\\[[^]]*\\\\] //\"); if [ \"$type\" = \"session\" ]; then echo \"Live session: $name\"; echo; zellij list-sessions 2>/dev/null | grep -A2 \"$name\" || true; elif [ \"$type\" = \"exited\" ]; then echo \"Exited session: $name\"; else ls --color=always -la \"$name\" 2>/dev/null; fi' --preview-window=right:50%); KEY=$(echo \"$RESULT\" | head -1); ITEM=$(echo \"$RESULT\" | sed -n 2p); if [ -n \"$ITEM\" ]; then zellij pipe --name session-action --args \"key=$KEY\" -- \"$ITEM\"; fi; zellij action close-pane";
    assert_eq!(picker_script("[session] a\n[dir] /b"), expected);
}

#[test]
fn backslash_reaches_the_picker_as_it_is() {
    let mut sm = SessionManagerState::default();
    sm.repos.push("/tmp/a\\b".to_string());
    match launch_sk(&sm) {
        Some(Action::OpenFloatingShell { script, .. }) => {
            assert!(script.starts_with("RESULT=$(printf '%s\\n' '[dir] /tmp/a\\b' | sk "));
        }
        other => panic!("unexpected request: {:?}", other),
    }
}

#[test]
fn scan_result_launches_no_picker_while_one_is_open() {
    let mut sm = SessionManagerState::default();
    sm.sm_pane_id = Some(4);
    sm.pending_repo_scan = true;
    sm.sessions.push(live("other", false));
    assert_eq!(launch_sk(&sm), None);
    assert_eq!(handle_repo_scan_result(&mut sm, b"/a/.git\n".to_vec()), None);
    assert!(!sm.pending_repo_scan);
    assert_eq!(sm.repos, vec!["/a".to_string()]);
    assert_eq!(sm.sm_pane_id, Some(4));
    sm.sm_pane_id = None;
    assert!(launch_sk(&sm).is_some());
}
