//! The task registry: named background command surfaces that can be
//! started, shown, hidden and reaped.

use vstd::prelude::*;
use vstd::string::*;
use crate::action::{Action, ActionView, PipeMessage, arg_value, opt_text, request_view};

verus! {

/// What the registry knows of one task.
#[derive(Debug, Clone, PartialEq, Eq)]
pub struct TaskInfo {
    /// The command text the task was started with.
    pub command: String,
    /// The handle of the backing surface, once the host has reported it.
    pub pane_id: Option<u32>,
    /// Whether the surface is shown. Meaningful only once `pane_id` is set.
    pub visible: bool,
}

/// A task together with its identifier.
#[derive(Debug, Clone, PartialEq, Eq)]
pub struct TaskEntry {
    pub task_id: String,
    pub info: TaskInfo,
}

/// The mathematical content of one registry entry.
pub ghost struct TaskState {
    pub id: Seq<char>,
    pub command: Seq<char>,
    pub pane_id: Option<u32>,
    pub visible: bool,
}

impl View for TaskEntry {
    type V = TaskState;

    open spec fn view(&self) -> TaskState {
        TaskState {
            id: self.task_id@,
            command: self.info.command@,
            pane_id: self.info.pane_id,
            visible: self.info.visible,
        }
    }
}

/// The registry: at most one entry for each task identifier.
#[derive(Debug, PartialEq, Eq)]
pub struct TaskRegistry {
    entries: Vec<TaskEntry>,
}

/// Some entry of `s` has the identifier `id`.
pub open spec fn has_id(s: Seq<TaskState>, id: Seq<char>) -> bool {
    exists|i: int| 0 <= i < s.len() && (#[trigger] s[i]).id == id
}

/// A position in `s` of an entry with the identifier `id`.
pub open spec fn index_of_id(s: Seq<TaskState>, id: Seq<char>) -> int {
    choose|i: int| 0 <= i < s.len() && (#[trigger] s[i]).id == id
}

/// No identifier occurs twice in `s`.
pub open spec fn distinct_ids(s: Seq<TaskState>) -> bool {
    forall|i: int, j: int|
        0 <= i < s.len() && 0 <= j < s.len() && (#[trigger] s[i]).id == (#[trigger] s[j]).id ==> i
            == j
}

/// The entry of a task that has just been requested: no surface yet, shown.
pub open spec fn fresh_task(id: Seq<char>, command: Seq<char>) -> TaskState {
    TaskState { id, command, pane_id: None, visible: true }
}

/// An entry after a toggle aimed at `id`: its visibility flips if it is the
/// target and its surface is known.
pub open spec fn flipped(e: TaskState, id: Seq<char>) -> TaskState {
    if e.id == id && e.pane_id is Some {
        TaskState { visible: !e.visible, ..e }
    } else {
        e
    }
}

/// The registry after `toggle(id, command)`.
pub open spec fn toggled(s: Seq<TaskState>, id: Seq<char>, command: Seq<char>) -> Seq<TaskState> {
    if has_id(s, id) {
        s.map_values(|e: TaskState| flipped(e, id))
    } else {
        s.push(fresh_task(id, command))
    }
}

/// The script that runs a task's command and then stays open as an
/// interactive shell.
pub open spec fn task_script(command: Seq<char>) -> Seq<char> {
    command + "; exec bash -i"@
}

/// The tag by which the surface-opened event of a task is recognised.
pub open spec fn task_purpose(id: Seq<char>) -> Seq<char> {
    "task:"@ + id
}

/// The request that `toggle(id, command)` hands to the host.
pub open spec fn toggle_request(s: Seq<TaskState>, id: Seq<char>, command: Seq<char>) -> Option<
    ActionView,
> {
    if has_id(s, id) {
        let e = s[index_of_id(s, id)];
        match e.pane_id {
            Some(p) => if e.visible {
                Some(ActionView::HidePane { pane_id: p })
            } else {
                Some(ActionView::ShowPane { pane_id: p })
            },
            None => None,
        }
    } else {
        Some(
            ActionView::OpenFloatingShell {
                script: task_script(command),
                purpose: task_purpose(id),
            },
        )
    }
}

/// An entry after everything has been hidden.
pub open spec fn hidden(e: TaskState) -> TaskState {
    if e.visible && e.pane_id is Some {
        TaskState { visible: false, ..e }
    } else {
        e
    }
}

/// The handles of the entries that are shown and have a surface, in order.
pub open spec fn shown_panes(s: Seq<TaskState>) -> Seq<u32>
    decreases s.len(),
{
    if s.len() == 0 {
        Seq::empty()
    } else {
        let e = s.last();
        if e.visible && e.pane_id is Some {
            shown_panes(s.drop_last()).push(e.pane_id->0)
        } else {
            shown_panes(s.drop_last())
        }
    }
}

/// An entry after the surface of the task `id` was reported as `pane_id`.
pub open spec fn bound(e: TaskState, id: Seq<char>, pane_id: u32) -> TaskState {
    if e.id == id {
        TaskState { pane_id: Some(pane_id), ..e }
    } else {
        e
    }
}

/// The entries of `s` that are not backed by the surface `pane_id`, in order.
pub open spec fn without_pane(s: Seq<TaskState>, pane_id: u32) -> Seq<TaskState>
    decreases s.len(),
{
    if s.len() == 0 {
        Seq::empty()
    } else if s.last().pane_id == Some(pane_id) {
        without_pane(s.drop_last(), pane_id)
    } else {
        without_pane(s.drop_last(), pane_id).push(s.last())
    }
}

/// The task and command that an invocation asks to toggle, if any: the
/// payload is the command and must not be empty; without an explicit
/// identifier the command text is the identifier.
pub open spec fn toggle_target(task_id: Option<Seq<char>>, payload: Option<Seq<char>>) -> Option<
    (Seq<char>, Seq<char>),
> {
    match payload {
        Some(command) => if command.len() == 0 {
            None
        } else {
            match task_id {
                Some(id) => Some((id, command)),
                None => Some((command, command)),
            }
        },
        None => None,
    }
}

fn entry_with(e: &TaskEntry, pane_id: Option<u32>, visible: bool) -> (r: TaskEntry)
    ensures
        r@ == (TaskState { pane_id, visible, ..e@ }),
{
    TaskEntry {
        task_id: e.task_id.clone(),
        info: TaskInfo { command: e.info.command.clone(), pane_id, visible },
    }
}

/// The mathematical content of a sequence of entries.
pub open spec fn states(entries: Seq<TaskEntry>) -> Seq<TaskState> {
    entries.map_values(|e: TaskEntry| e@)
}

impl View for TaskRegistry {
    type V = Seq<TaskState>;

    closed spec fn view(&self) -> Seq<TaskState> {
        states(self.entries@)
    }
}

impl Clone for TaskRegistry {
    fn clone(&self) -> (r: TaskRegistry)
        ensures
            r@ == self@,
    {
        proof {
            use_type_invariant(self);
        }
        TaskRegistry { entries: self.copy_entries() }
    }
}

impl TaskRegistry {
    /// No task identifier occurs twice.
    #[verifier::type_invariant]
    spec fn distinct(self) -> bool {
        distinct_ids(states(self.entries@))
    }

    /// The empty registry.
    pub fn new() -> (r: TaskRegistry)
        ensures
            r@ == Seq::<TaskState>::empty(),
    {
        let entries: Vec<TaskEntry> = Vec::new();
        assert(states(entries@) =~= Seq::<TaskState>::empty());
        TaskRegistry { entries }
    }

    /// The number of entries.
    pub fn len(&self) -> (n: usize)
        ensures
            n == self@.len(),
    {
        self.entries.len()
    }

    /// The position of the entry for `task_id`, if there is one.
    pub fn position(&self, task_id: &str) -> (r: Option<usize>)
        ensures
            match r {
                Some(i) => i < self@.len() && self@[i as int].id == task_id@,
                None => !has_id(self@, task_id@),
            },
    {
        let wanted = String::from_str(task_id);
        let mut i: usize = 0;
        while i < self.entries.len()
            invariant
                i <= self.entries.len(),
                wanted@ == task_id@,
                forall|j: int| 0 <= j < i ==> (#[trigger] self@[j]).id != task_id@,
            decreases self.entries.len() - i,
        {
            if self.entries[i].task_id == wanted {
                return Some(i);
            }
            i += 1;
        }
        None
    }

    /// What the registry knows of the task `task_id`, if it knows it.
    pub fn get(&self, task_id: &str) -> (r: Option<&TaskInfo>)
        ensures
            match r {
                Some(info) => exists|i: int|
                    0 <= i < self@.len() && #[trigger] self@[i] == (TaskState {
                        id: task_id@,
                        command: info.command@,
                        pane_id: info.pane_id,
                        visible: info.visible,
                    }),
                None => !has_id(self@, task_id@),
            },
    {
        match self.position(task_id) {
            Some(i) => {
                assert(self@[i as int] == self.entries[i as int]@);
                Some(&self.entries[i].info)
            },
            None => None,
        }
    }

    fn replace(&mut self, entries: Vec<TaskEntry>)
        requires
            distinct_ids(states(entries@)),
        ensures
            final(self)@ == states(entries@),
    {
        self.entries = entries;
    }

    fn take_entries(&mut self) -> (entries: Vec<TaskEntry>)
        ensures
            states(entries@) == old(self)@,
            entries@ == old(self).entries@,
    {
        let mut entries: Vec<TaskEntry> = Vec::new();
        assert(states(entries@) =~= Seq::<TaskState>::empty());
        std::mem::swap(&mut entries, &mut self.entries);
        entries
    }

    fn copy_entries(&self) -> (entries: Vec<TaskEntry>)
        ensures
            states(entries@) == self@,
    {
        let mut entries: Vec<TaskEntry> = Vec::new();
        let mut i: usize = 0;
        while i < self.entries.len()
            invariant
                i <= self.entries.len(),
                entries@.len() == i,
                forall|j: int| 0 <= j < i ==> (#[trigger] entries@[j])@ == self@[j],
            decreases self.entries.len() - i,
        {
            let e = &self.entries[i];
            entries.push(entry_with(e, e.info.pane_id, e.info.visible));
            i += 1;
        }
        assert(states(entries@) =~= self@);
        entries
    }

    /// Starts the task `task_id` if the registry does not know it, and
    /// otherwise flips its visibility, provided its surface is known.
    /// Returns the request for the host, if any.
    pub fn toggle(&mut self, task_id: &str, command: &str) -> (request: Option<Action>)
        ensures
            distinct_ids(final(self)@),
            final(self)@ == toggled(old(self)@, task_id@, command@),
            request_view(request) == toggle_request(old(self)@, task_id@, command@),
    {
        proof {
            use_type_invariant(&*self);
        }
        let ghost before = self@;
        match self.position(task_id) {
            Some(i) => {
                assert(before[i as int].id == task_id@);
                assert(index_of_id(before, task_id@) == i);
                let pane_id = self.entries[i].info.pane_id;
                let visible = self.entries[i].info.visible;
                match pane_id {
                    Some(p) => {
                        let e = entry_with(&self.entries[i], pane_id, !visible);
                        let mut entries = self.take_entries();
                        entries.set(i, e);
                        assert(states(entries@) =~= before.map_values(
                            |e: TaskState| flipped(e, task_id@),
                        ));
                        self.replace(entries);
                        if visible {
                            Some(Action::HidePane { pane_id: p })
                        } else {
                            Some(Action::ShowPane { pane_id: p })
                        }
                    },
                    None => {
                        assert(before =~= before.map_values(|e: TaskState| flipped(e, task_id@)));
                        None
                    },
                }
            },
            None => {
                let mut script = String::from_str(command);
                script.append("; exec bash -i");
                let mut purpose = String::from_str("task:");
                purpose.append(task_id);
                let mut entries = self.take_entries();
                entries.push(
                    TaskEntry {
                        task_id: String::from_str(task_id),
                        info: TaskInfo {
                            command: String::from_str(command),
                            pane_id: None,
                            visible: true,
                        },
                    },
                );
                assert(states(entries@) =~= before.push(fresh_task(task_id@, command@)));
                self.replace(entries);
                Some(Action::OpenFloatingShell { script, purpose })
            },
        }
    }

    /// Hides every task that is shown and has a surface. Returns the handles
    /// of the surfaces to hide, in the registry's order.
    pub fn hide_all(&mut self) -> (panes: Vec<u32>)
        ensures
            distinct_ids(final(self)@),
            final(self)@ == old(self)@.map_values(|e: TaskState| hidden(e)),
            panes@ == shown_panes(old(self)@),
    {
        proof {
            use_type_invariant(&*self);
        }
        let ghost before = self@;
        let mut kept: Vec<TaskEntry> = Vec::new();
        let mut panes: Vec<u32> = Vec::new();
        let mut i: usize = 0;
        while i < self.entries.len()
            invariant
                i <= self.entries.len(),
                self@ == before,
                kept@.len() == i,
                forall|j: int| 0 <= j < i ==> (#[trigger] kept@[j])@ == hidden(before[j]),
                panes@ == shown_panes(before.take(i as int)),
            decreases self.entries.len() - i,
        {
            let e = &self.entries[i];
            assert(e@ == before[i as int]);
            assert(before.take(i + 1).drop_last() =~= before.take(i as int));
            match e.info.pane_id {
                Some(p) => {
                    if e.info.visible {
                        panes.push(p);
                    }
                    kept.push(entry_with(e, e.info.pane_id, false));
                },
                None => {
                    kept.push(entry_with(e, e.info.pane_id, e.info.visible));
                },
            }
            i += 1;
        }
        assert(before.take(i as int) =~= before);
        assert(states(kept@) =~= before.map_values(|e: TaskState| hidden(e)));
        self.replace(kept);
        panes
    }

    /// Records the surface that the host opened for the task `task_id`. An
    /// event for a task that the registry does not know changes nothing.
    pub fn pane_opened(&mut self, task_id: &str, pane_id: u32)
        ensures
            distinct_ids(final(self)@),
            final(self)@ == old(self)@.map_values(|e: TaskState| bound(e, task_id@, pane_id)),
    {
        proof {
            use_type_invariant(&*self);
        }
        let ghost before = self@;
        match self.position(task_id) {
            Some(i) => {
                let e = entry_with(&self.entries[i], Some(pane_id), self.entries[i].info.visible);
                let mut entries = self.take_entries();
                entries.set(i, e);
                assert(states(entries@) =~= before.map_values(
                    |e: TaskState| bound(e, task_id@, pane_id),
                ));
                self.replace(entries);
            },
            None => {
                assert(before =~= before.map_values(|e: TaskState| bound(e, task_id@, pane_id)));
            },
        }
    }

    /// Removes every task backed by the surface `pane_id`, shown or hidden.
    pub fn pane_gone(&mut self, pane_id: u32)
        ensures
            distinct_ids(final(self)@),
            final(self)@ == without_pane(old(self)@, pane_id),
    {
        proof {
            use_type_invariant(&*self);
        }
        let ghost before = self@;
        let mut kept: Vec<TaskEntry> = Vec::new();
        let mut i: usize = 0;
        assert(states(kept@) =~= without_pane(before.take(0), pane_id));
        while i < self.entries.len()
            invariant
                i <= self.entries.len(),
                self@ == before,
                states(kept@) == without_pane(before.take(i as int), pane_id),
            decreases self.entries.len() - i,
        {
            let e = &self.entries[i];
            assert(e@ == before[i as int]);
            assert(before.take(i + 1).drop_last() =~= before.take(i as int));
            let ghost so_far = states(kept@);
            let bound_here = match e.info.pane_id {
                Some(p) => p == pane_id,
                None => false,
            };
            if !bound_here {
                kept.push(entry_with(e, e.info.pane_id, e.info.visible));
                assert(states(kept@) =~= so_far.push(before[i as int]));
            }
            i += 1;
        }
        assert(before.take(i as int) =~= before);
        proof {
            lemma_without_pane(before, pane_id);
        }
        self.replace(kept);
    }
}

/// The test for an entry that the surface `pane_id` does not back.
pub open spec fn not_on(pane_id: u32) -> spec_fn(TaskState) -> bool {
    |e: TaskState| e.pane_id != Some(pane_id)
}

/// What is left when a surface is gone are exactly the entries that it did
/// not back, in their order.
pub proof fn lemma_without_pane_filters(s: Seq<TaskState>, pane_id: u32)
    ensures
        without_pane(s, pane_id) == s.filter(not_on(pane_id)),
    decreases s.len(),
{
    reveal(Seq::filter);
    if s.len() > 0 {
        lemma_without_pane_filters(s.drop_last(), pane_id);
    }
    assert(without_pane(s, pane_id) =~= s.filter(not_on(pane_id)));
}

/// Removing the entries of one surface keeps the others, in order, and
/// keeps identifiers distinct.
pub proof fn lemma_without_pane(s: Seq<TaskState>, pane_id: u32)
    ensures
        forall|i: int|
            0 <= i < without_pane(s, pane_id).len() ==> (#[trigger] without_pane(s, pane_id)[i]).pane_id
                != Some(pane_id) && s.contains(without_pane(s, pane_id)[i]),
        forall|i: int|
            0 <= i < s.len() && (#[trigger] s[i]).pane_id != Some(pane_id) ==> without_pane(
                s,
                pane_id,
            ).contains(s[i]),
        distinct_ids(s) ==> distinct_ids(without_pane(s, pane_id)),
    decreases s.len(),
{
    if s.len() > 0 {
        let t = s.drop_last();
        let r = without_pane(t, pane_id);
        let w = without_pane(s, pane_id);
        lemma_without_pane(t, pane_id);
        assert forall|i: int| 0 <= i < w.len() implies (#[trigger] w[i]).pane_id != Some(pane_id)
            && s.contains(w[i]) by {
            if i < r.len() {
                assert(w[i] == r[i]);
                assert(t.contains(r[i]));
                let k = choose|k: int| 0 <= k < t.len() && t[k] == r[i];
                assert(s[k] == r[i]);
            } else {
                assert(w[i] == s.last());
                assert(s[s.len() - 1] == s.last());
            }
        }
        assert forall|i: int| 0 <= i < s.len() && (#[trigger] s[i]).pane_id != Some(
            pane_id,
        ) implies w.contains(s[i]) by {
            if i < t.len() {
                assert(t[i] == s[i]);
                assert(r.contains(t[i]));
                let k = choose|k: int| 0 <= k < r.len() && r[k] == t[i];
                assert(w[k] == s[i]);
            } else {
                assert(w[w.len() - 1] == s[i]);
            }
        }
        if distinct_ids(s) {
            assert(distinct_ids(t)) by {
                assert forall|i: int, j: int|
                    0 <= i < t.len() && 0 <= j < t.len() && (#[trigger] t[i]).id == (
                    #[trigger] t[j]).id implies i == j by {
                    assert(s[i].id == s[j].id);
                }
            }
            assert forall|i: int, j: int|
                0 <= i < w.len() && 0 <= j < w.len() && (#[trigger] w[i]).id == (#[trigger] w[j]).id
                && i != j implies false by {
                if i < r.len() && j < r.len() {
                    assert(r[i].id == r[j].id);
                } else if i < r.len() {
                    assert(t.contains(r[i]));
                    let k = choose|k: int| 0 <= k < t.len() && t[k] == r[i];
                    assert(s[k].id == s[s.len() - 1].id);
                } else if j < r.len() {
                    assert(t.contains(r[j]));
                    let k = choose|k: int| 0 <= k < t.len() && t[k] == r[j];
                    assert(s[k].id == s[s.len() - 1].id);
                }
            }
        }
    }
}

/// Handles a `toggle-task` invocation: the payload is the command, the
/// argument `task_id` names the task. Without a command nothing happens.
pub fn toggle_task(tasks: &mut TaskRegistry, pipe_message: &PipeMessage) -> (request: Option<
    Action,
>)
    ensures
        distinct_ids(final(tasks)@),
        match toggle_target(
            arg_value(pipe_message.args@, "task_id"@),
            opt_text(pipe_message.payload),
        ) {
            Some((id, command)) => final(tasks)@ == toggled(old(tasks)@, id, command)
                && request_view(request) == toggle_request(old(tasks)@, id, command),
            None => final(tasks)@ == old(tasks)@ && request is None,
        },
{
    proof {
        use_type_invariant(&*tasks);
    }
    match &pipe_message.payload {
        Some(command) => {
            if command.as_str().is_empty() {
                return None;
            }
            match pipe_message.arg("task_id") {
                Some(id) => tasks.toggle(id, command.as_str()),
                None => tasks.toggle(command.as_str(), command.as_str()),
            }
        },
        None => None,
    }
}

/// Handles a `hide-all-tasks` invocation.
pub fn hide_all_tasks(tasks: &mut TaskRegistry) -> (panes: Vec<u32>)
    ensures
        distinct_ids(final(tasks)@),
        final(tasks)@ == old(tasks)@.map_values(|e: TaskState| hidden(e)),
        panes@ == shown_panes(old(tasks)@),
{
    tasks.hide_all()
}

/// Handles the event that the surface of the task `task_id` was opened.
pub fn handle_pane_opened(tasks: &mut TaskRegistry, task_id: &str, pane_id: u32)
    ensures
        distinct_ids(final(tasks)@),
        final(tasks)@ == old(tasks)@.map_values(|e: TaskState| bound(e, task_id@, pane_id)),
{
    tasks.pane_opened(task_id, pane_id)
}

/// Handles the event that the process of a surface exited.
pub fn handle_pane_exited(tasks: &mut TaskRegistry, pane_id: u32)
    ensures
        distinct_ids(final(tasks)@),
        final(tasks)@ == without_pane(old(tasks)@, pane_id),
{
    tasks.pane_gone(pane_id)
}

/// Handles the event that a surface was closed.
pub fn handle_pane_closed(tasks: &mut TaskRegistry, pane_id: u32)
    ensures
        distinct_ids(final(tasks)@),
        final(tasks)@ == without_pane(old(tasks)@, pane_id),
{
    tasks.pane_gone(pane_id)
}

/// Toggling a task that the registry does not know asks the host for exactly
/// one surface, tagged with the task, and adds exactly one entry, which is
/// shown and has no surface yet; the other entries stay as they were.
pub proof fn lemma_toggle_fresh(s: Seq<TaskState>, id: Seq<char>, command: Seq<char>)
    requires
        !has_id(s, id),
    ensures
        toggle_request(s, id, command) == Some(
            ActionView::OpenFloatingShell {
                script: task_script(command),
                purpose: task_purpose(id),
            },
        ),
        toggled(s, id, command).len() == s.len() + 1,
        toggled(s, id, command).drop_last() == s,
        toggled(s, id, command).last() == (TaskState {
            id,
            command,
            pane_id: None,
            visible: true,
        }),
        distinct_ids(s) ==> distinct_ids(toggled(s, id, command)),
{
    assert(toggled(s, id, command).drop_last() =~= s);
}

/// Toggling a task twice, once its surface is known, leaves the registry as
/// it was. The two requests are one to hide and one to show the surface:
/// the first undoes the task's visibility, the second restores it.
pub proof fn lemma_toggle_twice(s: Seq<TaskState>, id: Seq<char>, command: Seq<char>, i: int)
    requires
        distinct_ids(s),
        0 <= i < s.len(),
        s[i].id == id,
        s[i].pane_id is Some,
    ensures
        toggled(toggled(s, id, command), id, command) == s,
        toggled(s, id, command)[i].visible == !s[i].visible,
        s[i].visible ==> toggle_request(s, id, command) == Some(
            ActionView::HidePane { pane_id: s[i].pane_id->0 },
        ) && toggle_request(toggled(s, id, command), id, command) == Some(
            ActionView::ShowPane { pane_id: s[i].pane_id->0 },
        ),
        !s[i].visible ==> toggle_request(s, id, command) == Some(
            ActionView::ShowPane { pane_id: s[i].pane_id->0 },
        ) && toggle_request(toggled(s, id, command), id, command) == Some(
            ActionView::HidePane { pane_id: s[i].pane_id->0 },
        ),
{
    let t = toggled(s, id, command);
    assert(has_id(s, id));
    assert(index_of_id(s, id) == i);
    assert(t[i].id == id);
    assert(has_id(t, id));
    assert(distinct_ids(t)) by {
        assert forall|a: int, b: int|
            0 <= a < t.len() && 0 <= b < t.len() && (#[trigger] t[a]).id == (#[trigger] t[b]).id
            implies a == b by {
            assert(s[a].id == s[b].id);
        }
    }
    assert(index_of_id(t, id) == i);
    assert(toggled(t, id, command) =~= s);
}

} // verus!
