//! Requests that the engine hands back for the host to carry out, and the
//! invocations that the host hands in.

use vstd::prelude::*;
use vstd::string::*;
use crate::text::same_text;

verus! {

/// One request to the host. The engine only describes it; the caller
/// performs it, and the host answers later with an event.
#[derive(Debug, Clone, PartialEq, Eq)]
pub enum Action {
    /// Run `sh -c script` in the background; the result event echoes `purpose`.
    RunShell { script: String, purpose: String },
    /// Open a floating surface running `bash -c script`; the surface-opened
    /// event echoes `purpose`.
    OpenFloatingShell { script: String, purpose: String },
    /// Switch to the workspace of that name.
    SwitchSession { name: String },
    /// Switch to the workspace of that name, creating it in `cwd` if needed.
    SwitchSessionWithCwd { name: String, cwd: String },
    /// Terminate a live workspace.
    KillSession { name: String },
    /// Purge the saved state of a resurrectable workspace.
    DeleteDeadSession { name: String },
    /// Hide the surface with that handle.
    HidePane { pane_id: u32 },
    /// Show the surface with that handle and give it the focus.
    ShowPane { pane_id: u32 },
    /// Make the engine's own surface unselectable and hide it.
    HideSelf,
    /// Release the command line that waits on the invocation of that name.
    UnblockCliPipe { name: String },
}

/// What an [`Action`] says, with every string as its characters.
pub ghost enum ActionView {
    RunShell { script: Seq<char>, purpose: Seq<char> },
    OpenFloatingShell { script: Seq<char>, purpose: Seq<char> },
    SwitchSession { name: Seq<char> },
    SwitchSessionWithCwd { name: Seq<char>, cwd: Seq<char> },
    KillSession { name: Seq<char> },
    DeleteDeadSession { name: Seq<char> },
    HidePane { pane_id: u32 },
    ShowPane { pane_id: u32 },
    HideSelf,
    UnblockCliPipe { name: Seq<char> },
}

impl View for Action {
    type V = ActionView;

    open spec fn view(&self) -> ActionView {
        match self {
            Action::RunShell { script, purpose } => ActionView::RunShell {
                script: script@,
                purpose: purpose@,
            },
            Action::OpenFloatingShell { script, purpose } => ActionView::OpenFloatingShell {
                script: script@,
                purpose: purpose@,
            },
            Action::SwitchSession { name } => ActionView::SwitchSession { name: name@ },
            Action::SwitchSessionWithCwd { name, cwd } => ActionView::SwitchSessionWithCwd {
                name: name@,
                cwd: cwd@,
            },
            Action::KillSession { name } => ActionView::KillSession { name: name@ },
            Action::DeleteDeadSession { name } => ActionView::DeleteDeadSession { name: name@ },
            Action::HidePane { pane_id } => ActionView::HidePane { pane_id: *pane_id },
            Action::ShowPane { pane_id } => ActionView::ShowPane { pane_id: *pane_id },
            Action::HideSelf => ActionView::HideSelf,
            Action::UnblockCliPipe { name } => ActionView::UnblockCliPipe { name: name@ },
        }
    }
}

/// The view of an optional request.
pub open spec fn request_view(a: Option<Action>) -> Option<ActionView> {
    match a {
        Some(x) => Some(x@),
        None => None,
    }
}

/// The views of a sequence of requests.
pub open spec fn request_views(v: Seq<Action>) -> Seq<ActionView> {
    v.map_values(|a: Action| a@)
}

/// An optional request as a sequence of at most one.
pub open spec fn one_or_none(a: Option<ActionView>) -> Seq<ActionView> {
    match a {
        Some(x) => seq![x],
        None => Seq::empty(),
    }
}

/// The view of an optional string.
pub open spec fn opt_text(s: Option<String>) -> Option<Seq<char>> {
    match s {
        Some(x) => Some(x@),
        None => None,
    }
}

/// A named invocation that reaches the engine from a command line, a script
/// or the picker's own callback.
#[derive(Debug, Clone, PartialEq, Eq)]
pub struct PipeMessage {
    /// The invocation's name.
    pub name: String,
    /// The invocation's arguments: names and values.
    pub args: Vec<(String, String)>,
    /// The payload, if there is one.
    pub payload: Option<String>,
    /// Whether the invocation came from a command line that waits to be released.
    pub from_cli: bool,
}

/// The value of the first argument called `name`, if there is one.
pub open spec fn arg_value(args: Seq<(String, String)>, name: Seq<char>) -> Option<Seq<char>>
    decreases args.len(),
{
    if args.len() == 0 {
        None
    } else if args[0].0@ == name {
        Some(args[0].1@)
    } else {
        arg_value(args.skip(1), name)
    }
}

/// The view of an optional string slice.
pub open spec fn opt_str(s: Option<&str>) -> Option<Seq<char>> {
    match s {
        Some(x) => Some(x@),
        None => None,
    }
}

impl PipeMessage {
    /// Looks up the argument called `name`.
    pub fn arg(&self, name: &str) -> (value: Option<&str>)
        ensures
            opt_str(value) == arg_value(self.args@, name@),
    {
        let mut i: usize = 0;
        assert(self.args@.skip(0) =~= self.args@);
        while i < self.args.len()
            invariant
                i <= self.args.len(),
                arg_value(self.args@, name@) == arg_value(self.args@.skip(i as int), name@),
            decreases self.args.len() - i,
        {
            let ghost rest = self.args@.skip(i as int);
            assert(rest[0] == self.args@[i as int]);
            assert(rest.skip(1) =~= self.args@.skip(i + 1));
            if same_text(self.args[i].0.as_str(), name) {
                return Some(self.args[i].1.as_str());
            }
            i += 1;
        }
        None
    }
}

} // verus!
