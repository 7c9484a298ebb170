//! The router: hands each event and each invocation to the workflow or the
//! registry that it belongs to, and collects the requests for the host.

use vstd::prelude::*;
use vstd::string::*;
use crate::action::{
    Action, ActionView, PipeMessage, arg_value, one_or_none, opt_text, request_view,
    request_views,
};
use crate::session_manager::{
    LiveSession, ResurrectableSession, SessionManagerState, PICKER_PURPOSE, SCAN_PURPOSE,
    handle_repo_scan_result, handle_session_action, launch_request, lossy_text, after_open,
    open_request, open_session_manager, picker_after_gone, repo_roots, session_action,
};
use crate::task_manager::{
    TaskRegistry, TaskState, bound, handle_pane_closed, handle_pane_exited, handle_pane_opened,
    hidden, hide_all_tasks, shown_panes, toggle_request, toggle_target, toggle_task, toggled,
    without_pane,
};
use crate::text::{same_text, texts};

verus! {

/// What the host reports to the engine.
#[derive(Debug, Clone, PartialEq, Eq)]
pub enum Event {
    /// The answer to the engine's request for permissions.
    PermissionRequestResult { granted: bool },
    /// The host's workspaces changed: the whole new snapshot.
    SessionUpdate { sessions: Vec<LiveSession>, resurrectable: Vec<ResurrectableSession> },
    /// A background command ended.
    RunCommandResult { stdout: Vec<u8>, purpose: Option<String> },
    /// A surface that the engine asked for was opened.
    CommandPaneOpened { pane_id: u32, purpose: Option<String> },
    /// The process of a surface exited.
    CommandPaneExited { pane_id: u32 },
    /// A surface was closed: a terminal, or else a plugin's.
    PaneClosed { pane_id: u32, terminal: bool },
}

/// The engine's whole state.
#[derive(Debug, Clone, PartialEq, Eq)]
pub struct State {
    pub sm: SessionManagerState,
    pub tasks: TaskRegistry,
    pub got_permissions: bool,
}

/// The task that a tag `task:<id>` names, if the tag has that form.
pub open spec fn tagged_task(purpose: Seq<char>) -> Option<Seq<char>> {
    if purpose.len() >= 5 && purpose.take(5) == "task:"@ {
        Some(purpose.skip(5))
    } else {
        None
    }
}

/// What the end of the terminal surface `pane_id` does to the state: the
/// picker's handle is cleared if it was that surface, and the tasks backed
/// by it leave the registry.
pub open spec fn surface_gone(before: State, after: State, pane_id: u32) -> bool {
    &&& after.got_permissions == before.got_permissions
    &&& after.sm == (SessionManagerState {
        sm_pane_id: picker_after_gone(before.sm.sm_pane_id, pane_id),
        ..before.sm
    })
    &&& after.tasks@ == without_pane(before.tasks@, pane_id)
}

/// The requests to hide the given surfaces.
pub open spec fn hide_requests(panes: Seq<u32>) -> Seq<ActionView> {
    panes.map_values(|p: u32| ActionView::HidePane { pane_id: p })
}

fn task_of_purpose<'a>(purpose: &'a str) -> (id: Option<&'a str>)
    ensures
        match id {
            Some(t) => Some(t@),
            None => None,
        } == tagged_task(purpose@),
{
    let n = purpose.unicode_len();
    if n < 5 {
        return None;
    }
    let head = purpose.substring_char(0, 5);
    assert(head@ =~= purpose@.take(5));
    if same_text(head, "task:") {
        let id = purpose.substring_char(5, n);
        assert(id@ =~= purpose@.skip(5));
        Some(id)
    } else {
        None
    }
}

fn single(request: Option<Action>) -> (requests: Vec<Action>)
    ensures
        request_views(requests@) == one_or_none(request_view(request)),
{
    let mut requests: Vec<Action> = Vec::new();
    match request {
        Some(a) => {
            requests.push(a);
            assert(request_views(requests@) =~= seq![a@]);
        },
        None => {
            assert(request_views(requests@) =~= Seq::<ActionView>::empty());
        },
    }
    requests
}

fn hide_each(panes: &Vec<u32>) -> (requests: Vec<Action>)
    ensures
        request_views(requests@) == hide_requests(panes@),
{
    let mut requests: Vec<Action> = Vec::new();
    let mut i: usize = 0;
    assert(request_views(requests@) =~= hide_requests(panes@).take(0));
    while i < panes.len()
        invariant
            i <= panes.len(),
            request_views(requests@) == hide_requests(panes@).take(i as int),
        decreases panes.len() - i,
    {
        let ghost so_far = request_views(requests@);
        requests.push(Action::HidePane { pane_id: panes[i] });
        assert(request_views(requests@) =~= so_far.push(hide_requests(panes@)[i as int]));
        assert(request_views(requests@) =~= hide_requests(panes@).take(i + 1));
        i += 1;
    }
    assert(hide_requests(panes@).take(i as int) =~= hide_requests(panes@));
    requests
}

impl State {
    /// The state at start: nothing known, nothing in flight.
    pub fn new() -> (r: State)
        ensures
            r.tasks@.len() == 0,
            r.sm.sessions@.len() == 0,
            r.sm.resurrectable_sessions@.len() == 0,
            r.sm.repos@.len() == 0,
            r.sm.sm_pane_id is None,
            !r.sm.pending_repo_scan,
            !r.got_permissions,
    {
        State {
            sm: SessionManagerState {
                sessions: Vec::new(),
                resurrectable_sessions: Vec::new(),
                repos: Vec::new(),
                sm_pane_id: None,
                pending_repo_scan: false,
            },
            tasks: TaskRegistry::new(),
            got_permissions: false,
        }
    }

    /// Takes in one event of the host and returns the requests that follow
    /// from it, in order.
    pub fn update(&mut self, event: Event) -> (requests: Vec<Action>)
        ensures
            match event {
                Event::PermissionRequestResult { granted } => {
                    &&& final(self).got_permissions == (granted || old(self).got_permissions)
                    &&& final(self).sm == old(self).sm
                    &&& final(self).tasks == old(self).tasks
                    &&& request_views(requests@) == if granted {
                        seq![ActionView::HideSelf]
                    } else {
                        Seq::empty()
                    }
                },
                Event::SessionUpdate { sessions, resurrectable } => {
                    &&& final(self).sm == (SessionManagerState {
                        sessions,
                        resurrectable_sessions: resurrectable,
                        ..old(self).sm
                    })
                    &&& final(self).tasks == old(self).tasks
                    &&& final(self).got_permissions == old(self).got_permissions
                    &&& requests@.len() == 0
                },
                Event::RunCommandResult { stdout, purpose } => {
                    &&& final(self).tasks == old(self).tasks
                    &&& final(self).got_permissions == old(self).got_permissions
                    &&& if opt_text(purpose) == Some(SCAN_PURPOSE@) {
                        &&& texts(final(self).sm.repos@) == repo_roots(lossy_text(stdout@))
                        &&& !final(self).sm.pending_repo_scan
                        &&& final(self).sm.sessions == old(self).sm.sessions
                        &&& final(self).sm.resurrectable_sessions == old(
                            self,
                        ).sm.resurrectable_sessions
                        &&& final(self).sm.sm_pane_id == old(self).sm.sm_pane_id
                        &&& request_views(requests@) == one_or_none(
                            launch_request(final(self).sm),
                        )
                    } else {
                        final(self).sm == old(self).sm && requests@.len() == 0
                    }
                },
                Event::CommandPaneOpened { pane_id, purpose } => {
                    &&& final(self).got_permissions == old(self).got_permissions
                    &&& requests@.len() == 0
                    &&& match opt_text(purpose) {
                        None => final(self).sm == old(self).sm && final(self).tasks == old(
                            self,
                        ).tasks,
                        Some(p) => if p == PICKER_PURPOSE@ {
                            final(self).sm == (SessionManagerState {
                                sm_pane_id: Some(pane_id),
                                ..old(self).sm
                            }) && final(self).tasks == old(self).tasks
                        } else {
                            final(self).sm == old(self).sm && match tagged_task(p) {
                                Some(id) => final(self).tasks@ == old(self).tasks@.map_values(
                                    |e: TaskState| bound(e, id, pane_id),
                                ),
                                None => final(self).tasks == old(self).tasks,
                            }
                        },
                    }
                },
                Event::CommandPaneExited { pane_id } => surface_gone(
                    *old(self),
                    *final(self),
                    pane_id,
                ) && requests@.len() == 0,
                Event::PaneClosed { pane_id, terminal } => requests@.len() == 0 && if terminal {
                    surface_gone(*old(self), *final(self), pane_id)
                } else {
                    &&& final(self).sm == old(self).sm
                    &&& final(self).tasks == old(self).tasks
                    &&& final(self).got_permissions == old(self).got_permissions
                },
            },
    {
        match event {
            Event::PermissionRequestResult { granted } => {
                if granted {
                    self.got_permissions = true;
                    single(Some(Action::HideSelf))
                } else {
                    single(None)
                }
            },
            Event::SessionUpdate { sessions, resurrectable } => {
                self.sm.sessions = sessions;
                self.sm.resurrectable_sessions = resurrectable;
                Vec::new()
            },
            Event::RunCommandResult { stdout, purpose } => {
                let scan = match &purpose {
                    Some(p) => same_text(p.as_str(), SCAN_PURPOSE),
                    None => false,
                };
                if scan {
                    single(handle_repo_scan_result(&mut self.sm, stdout))
                } else {
                    Vec::new()
                }
            },
            Event::CommandPaneOpened { pane_id, purpose } => {
                match &purpose {
                    Some(p) => {
                        if same_text(p.as_str(), PICKER_PURPOSE) {
                            self.sm.sm_pane_id = Some(pane_id);
                        } else {
                            match task_of_purpose(p.as_str()) {
                                Some(id) => handle_pane_opened(&mut self.tasks, id, pane_id),
                                None => {},
                            }
                        }
                    },
                    None => {},
                }
                Vec::new()
            },
            Event::CommandPaneExited { pane_id } => {
                if self.sm.sm_pane_id == Some(pane_id) {
                    self.sm.sm_pane_id = None;
                }
                handle_pane_exited(&mut self.tasks, pane_id);
                Vec::new()
            },
            Event::PaneClosed { pane_id, terminal } => {
                if terminal {
                    if self.sm.sm_pane_id == Some(pane_id) {
                        self.sm.sm_pane_id = None;
                    }
                    handle_pane_closed(&mut self.tasks, pane_id);
                }
                Vec::new()
            },
        }
    }

    /// Takes in one named invocation and returns the requests that follow
    /// from it, in order. An invocation from a waiting command line is
    /// released at the end, whatever its name.
    pub fn pipe(&mut self, pipe_message: PipeMessage) -> (requests: Vec<Action>)
        ensures
            final(self).got_permissions == old(self).got_permissions,
            exists|routed: Seq<ActionView>|
                {
                    &&& request_views(requests@) == routed + released(pipe_message)
                    &&& #[trigger] routed_outcome(*old(self), *final(self), pipe_message, routed)
                },
    {
        let mut requests: Vec<Action> = if same_text(
            pipe_message.name.as_str(),
            "session-manager",
        ) {
            single(open_session_manager(&mut self.sm))
        } else if same_text(pipe_message.name.as_str(), "session-action") {
            single(handle_session_action(&self.sm, &pipe_message))
        } else if same_text(pipe_message.name.as_str(), "toggle-task") {
            single(toggle_task(&mut self.tasks, &pipe_message))
        } else if same_text(pipe_message.name.as_str(), "hide-all-tasks") {
            let panes = hide_all_tasks(&mut self.tasks);
            hide_each(&panes)
        } else {
            Vec::new()
        };
        let ghost routed = request_views(requests@);
        assert(routed_outcome(*old(self), *self, pipe_message, routed));
        if pipe_message.from_cli {
            requests.push(Action::UnblockCliPipe { name: pipe_message.name.clone() });
            assert(request_views(requests@) =~= routed + released(pipe_message));
        } else {
            assert(request_views(requests@) =~= routed + released(pipe_message));
        }
        requests
    }
}

/// The request that releases a waiting command line, if the invocation
/// came from one.
pub open spec fn released(pipe_message: PipeMessage) -> Seq<ActionView> {
    if pipe_message.from_cli {
        seq![ActionView::UnblockCliPipe { name: pipe_message.name@ }]
    } else {
        Seq::empty()
    }
}

/// What an invocation does to the state, and the requests `routed` that it
/// gives rise to, by its name.
pub open spec fn routed_outcome(
    before: State,
    after: State,
    pipe_message: PipeMessage,
    routed: Seq<ActionView>,
) -> bool {
    let name = pipe_message.name@;
    if name == "session-manager"@ {
        &&& after.tasks == before.tasks
        &&& after.sm == after_open(before.sm)
        &&& routed == one_or_none(open_request(before.sm))
    } else if name == "session-action"@ {
        &&& after.tasks == before.tasks
        &&& after.sm == before.sm
        &&& routed == one_or_none(
            session_action(
                before.sm,
                arg_value(pipe_message.args@, "key"@),
                opt_text(pipe_message.payload),
            ),
        )
    } else if name == "toggle-task"@ {
        &&& after.sm == before.sm
        &&& match toggle_target(
            arg_value(pipe_message.args@, "task_id"@),
            opt_text(pipe_message.payload),
        ) {
            Some((id, command)) => after.tasks@ == toggled(before.tasks@, id, command) && routed
                == one_or_none(toggle_request(before.tasks@, id, command)),
            None => after.tasks@ == before.tasks@ && routed.len() == 0,
        }
    } else if name == "hide-all-tasks"@ {
        &&& after.sm == before.sm
        &&& after.tasks@ == before.tasks@.map_values(|e: TaskState| hidden(e))
        &&& routed == hide_requests(shown_panes(before.tasks@))
    } else {
        &&& after.sm == before.sm
        &&& after.tasks == before.tasks
        &&& routed.len() == 0
    }
}

} // verus!
