use workspace_engine::action::{Action, PipeMessage};
use workspace_engine::engine::{Event, State};
use workspace_engine::session_manager::{LiveSession, ResurrectableSession};
use workspace_engine::task_manager::TaskInfo;

fn call(name: &str, key: Option<&str>, task_id: Option<&str>, payload: Option<&str>, from_cli: bool) -> PipeMessage {
    let mut args: Vec<(String, String)> = Vec::new();
    if let Some(k) = key {
        args.push(("key".to_string(), k.to_string()));
    }
    if let Some(t) = task_id {
        args.push(("task_id".to_string(), t.to_string()));
    }
    PipeMessage {
        name: name.to_string(),
        args,
        payload: payload.map(|p| p.to_string()),
        from_cli,
    }
}

#[test]
fn new_state_is_empty() {
    let state = State::new();
    assert_eq!(state.tasks.len(), 0);
    assert!(!state.got_permissions);
    assert!(!state.sm.pending_repo_scan);
    assert_eq!(state.sm.sm_pane_id, None);
}

#[test]
fn permission_grant_hides_the_engine() {
    let mut state = State::new();
    assert_eq!(state.update(Event::PermissionRequestResult { granted: false }), vec![]);
    assert!(!state.got_permissions);
    assert_eq!(
        state.update(Event::PermissionRequestResult { granted: true }),
        vec![Action::HideSelf]
    );
    assert!(state.got_permissions);
}

#[test]
fn whole_picker_round_trip() {
    let mut state = State::new();
    let snapshot = Event::SessionUpdate {
        sessions: vec![
            LiveSession { name: "work".to_string(), is_current_session: true },
            LiveSession { name: "play".to_string(), is_current_session: false },
        ],
        resurrectable: vec![ResurrectableSession { name: "old".to_string(), inactive_secs: 18000 }],
    };
    assert_eq!(state.update(snapshot), vec![]);
    assert_eq!(state.sm.sessions.len(), 2);

    let scan = state.pipe(call("session-manager", None, None, None, true));
    assert_eq!(scan.len(), 2);
    assert!(matches!(&scan[0], Action::RunShell { purpose, .. } if purpose == "scan-repos"));
    assert_eq!(scan[1], Action::UnblockCliPipe { name: "session-manager".to_string() });

    let again = state.pipe(call("session-manager", None, None, None, false));
    assert_eq!(again, vec![]);

    let other = state.update(Event::RunCommandResult {
        stdout: b"/x/.git\n".to_vec(),
        purpose: Some("something-else".to_string()),
    });
    assert_eq!(other, vec![]);
    assert!(state.sm.pending_repo_scan);

    let picker = state.update(Event::RunCommandResult {
        stdout: b"/home/u/proj/.git\n".to_vec(),
        purpose: Some("scan-repos".to_string()),
    });
    assert_eq!(picker.len(), 1);
    assert!(matches!(&picker[0], Action::OpenFloatingShell { purpose, script }
        if purpose == "session-manager-sk"
            && script.contains("'[session] play\n[exited] old\n[dir] /home/u/proj'")));
    assert!(!state.sm.pending_repo_scan);

    let opened = state.update(Event::CommandPaneOpened {
        pane_id: 21,
        purpose: Some("session-manager-sk".to_string()),
    });
    assert_eq!(opened, vec![]);
    assert_eq!(state.sm.sm_pane_id, Some(21));
    assert_eq!(state.pipe(call("session-manager", None, None, None, false)), vec![]);
    assert!(!state.sm.pending_repo_scan);

    let chosen = state.pipe(call("session-action", Some("ctrl-n"), None, Some("[session] play"), true));
    assert_eq!(
        chosen,
        vec![
            Action::SwitchSession { name: "play-1".to_string() },
            Action::UnblockCliPipe { name: "session-action".to_string() },
        ]
    );

    assert_eq!(state.update(Event::PaneClosed { pane_id: 20, terminal: true }), vec![]);
    assert_eq!(state.sm.sm_pane_id, Some(21));
    assert_eq!(state.update(Event::PaneClosed { pane_id: 21, terminal: false }), vec![]);
    assert_eq!(state.sm.sm_pane_id, Some(21));
    assert_eq!(state.update(Event::CommandPaneExited { pane_id: 21 }), vec![]);
    assert_eq!(state.sm.sm_pane_id, None);
}

#[test]
fn tasks_are_routed_by_their_tag() {
    let mut state = State::new();
    let spawn = state.pipe(call("toggle-task", None, Some("build"), Some("make"), false));
    assert_eq!(
        spawn,
        vec![Action::OpenFloatingShell {
            script: "make; exec bash -i".to_string(),
            purpose: "task:build".to_string()
        }]
    );
    assert_eq!(
        state.update(Event::CommandPaneOpened { pane_id: 7, purpose: Some("task:build".to_string()) }),
        vec![]
    );
    assert_eq!(
        state.tasks.get("build"),
        Some(&TaskInfo { command: "make".to_string(), pane_id: Some(7), visible: true })
    );
    assert_eq!(
        state.update(Event::CommandPaneOpened { pane_id: 9, purpose: Some("task".to_string()) }),
        vec![]
    );
    assert_eq!(state.update(Event::CommandPaneOpened { pane_id: 9, purpose: None }), vec![]);
    assert_eq!(state.tasks.len(), 1);
    assert_eq!(
        state.pipe(call("hide-all-tasks", None, None, None, true)),
        vec![
            Action::HidePane { pane_id: 7 },
            Action::UnblockCliPipe { name: "hide-all-tasks".to_string() },
        ]
    );
    assert_eq!(
        state.pipe(call("toggle-task", None, Some("build"), Some("make"), false)),
        vec![Action::ShowPane { pane_id: 7 }]
    );
    assert_eq!(state.update(Event::PaneClosed { pane_id: 7, terminal: false }), vec![]);
    assert_eq!(state.tasks.len(), 1);
    assert_eq!(state.update(Event::PaneClosed { pane_id: 7, terminal: true }), vec![]);
    assert_eq!(state.tasks.len(), 0);
}

#[test]
fn unknown_invocations_only_release_the_caller() {
    let mut state = State::new();
    assert_eq!(state.pipe(call("nonsense", None, None, Some("x"), false)), vec![]);
    assert_eq!(
        state.pipe(call("nonsense", None, None, Some("x"), true)),
        vec![Action::UnblockCliPipe { name: "nonsense".to_string() }]
    );
    assert_eq!(state, State::new());
}

#[test]
fn task_with_empty_id_is_tagged_and_found() {
    let mut state = State::new();
    let _ = state.pipe(call("toggle-task", None, Some(""), Some("top"), false));
    let _ = state.update(Event::CommandPaneOpened { pane_id: 2, purpose: Some("task:".to_string()) });
    assert_eq!(
        state.tasks.get(""),
        Some(&TaskInfo { command: "top".to_string(), pane_id: Some(2), visible: true })
    );
}

#[test]
fn arguments_are_looked_up_by_name() {
    let msg = PipeMessage {
        name: "toggle-task".to_string(),
        args: vec![
            ("other".to_string(), "x".to_string()),
            ("task_id".to_string(), "first".to_string()),
            ("task_id".to_string(), "second".to_string()),
        ],
        payload: None,
        from_cli: false,
    };
    assert_eq!(msg.arg("task_id"), Some("first"));
    assert_eq!(msg.arg("other"), Some("x"));
    assert_eq!(msg.arg("key"), None);
}

#[test]
fn second_scan_result_finds_the_picker_open() {
    let mut state = State::new();
    let _ = state.update(Event::SessionUpdate {
        sessions: vec![LiveSession { name: "play".to_string(), is_current_session: false }],
        resurrectable: vec![],
    });
    assert_eq!(state.pipe(call("session-manager", None, None, None, false)).len(), 1);
    let first = state.update(Event::RunCommandResult {
        stdout: b"/a/.git\n".to_vec(),
        purpose: Some("scan-repos".to_string()),
    });
    assert_eq!(first.len(), 1);
    assert_eq!(state.pipe(call("session-manager", None, None, None, false)).len(), 1);
    let _ = state.update(Event::CommandPaneOpened {
        pane_id: 5,
        purpose: Some("session-manager-sk".to_string()),
    });
    let second = state.update(Event::RunCommandResult {
        stdout: b"/b/.git\n".to_vec(),
        purpose: Some("scan-repos".to_string()),
    });
    assert_eq!(second, vec![]);
    assert_eq!(state.sm.repos, vec!["/b".to_string()]);
    assert!(!state.sm.pending_repo_scan);
    assert_eq!(state.sm.sm_pane_id, Some(5));
}
