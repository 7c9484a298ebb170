//! The session-selection workflow: discover repositories, compose the
//! selection list, launch the picker, and interpret what it returns.

use vstd::prelude::*;
use vstd::string::*;
use crate::action::{Action, ActionView, PipeMessage, arg_value, opt_text, request_view};
use crate::text::{
    decimal, first_where, is_first_where, lemma_decimal_injective, lemma_first_where, push_char,
    push_decimal, same_text, texts,
};

verus! {

/// A live workspace, as the host reports it.
#[derive(Debug, Clone, PartialEq, Eq)]
pub struct LiveSession {
    pub name: String,
    pub is_current_session: bool,
}

/// A closed workspace that the host can restore.
#[derive(Debug, Clone, PartialEq, Eq)]
pub struct ResurrectableSession {
    pub name: String,
    /// For how long it has been closed, in seconds.
    pub inactive_secs: u64,
}

/// The workflow's state: the host's last snapshot, the repositories of the
/// last scan, and the two guards.
#[derive(Debug, Clone, PartialEq, Eq)]
pub struct SessionManagerState {
    pub sessions: Vec<LiveSession>,
    pub resurrectable_sessions: Vec<ResurrectableSession>,
    pub repos: Vec<String>,
    /// The picker's surface, while it is open.
    pub sm_pane_id: Option<u32>,
    /// Whether a repository scan is in flight.
    pub pending_repo_scan: bool,
}

impl Default for SessionManagerState {
    fn default() -> (r: SessionManagerState)
        ensures
            r.sessions@.len() == 0,
            r.resurrectable_sessions@.len() == 0,
            r.repos@.len() == 0,
            r.sm_pane_id is None,
            !r.pending_repo_scan,
    {
        SessionManagerState {
            sessions: Vec::new(),
            resurrectable_sessions: Vec::new(),
            repos: Vec::new(),
            sm_pane_id: None,
            pending_repo_scan: false,
        }
    }
}

/// The command that discovers repositories.
pub const SCAN_SCRIPT: &'static str = "find ~/src -name .git -type d -maxdepth 5 2>/dev/null";

/// The tag of the scan's result event.
pub const SCAN_PURPOSE: &'static str = "scan-repos";

/// The tag of the picker's surface.
pub const PICKER_PURPOSE: &'static str = "session-manager-sk";

/// The lines of the live sessions other than the current one, in order.
pub open spec fn live_lines(s: Seq<LiveSession>) -> Seq<Seq<char>>
    decreases s.len(),
{
    if s.len() == 0 {
        Seq::empty()
    } else if s.last().is_current_session {
        live_lines(s.drop_last())
    } else {
        live_lines(s.drop_last()).push("[session] "@ + s.last().name@)
    }
}

/// The lines of the resurrectable sessions, in order.
pub open spec fn exited_lines(s: Seq<ResurrectableSession>) -> Seq<Seq<char>> {
    s.map_values(|r: ResurrectableSession| "[exited] "@ + r.name@)
}

/// The lines of the discovered directories, in order.
pub open spec fn dir_lines(s: Seq<String>) -> Seq<Seq<char>> {
    s.map_values(|d: String| "[dir] "@ + d@)
}

/// The selection list: live sessions other than the current one, then
/// resurrectable sessions, then directories, each group in its own order.
pub open spec fn item_lines(sm: SessionManagerState) -> Seq<Seq<char>> {
    live_lines(sm.sessions@) + exited_lines(sm.resurrectable_sessions@) + dir_lines(sm.repos@)
}

/// The test for a live session other than the current one.
pub open spec fn not_current() -> spec_fn(LiveSession) -> bool {
    |s: LiveSession| !s.is_current_session
}

/// The line of a live session.
pub open spec fn session_line() -> spec_fn(LiveSession) -> Seq<char> {
    |s: LiveSession| "[session] "@ + s.name@
}

/// The live lines are the lines of the sessions other than the current
/// one, in the host's order.
pub proof fn lemma_live_lines(s: Seq<LiveSession>)
    ensures
        live_lines(s) == s.filter(not_current()).map_values(session_line()),
    decreases s.len(),
{
    reveal(Seq::filter);
    if s.len() > 0 {
        lemma_live_lines(s.drop_last());
    }
    assert(live_lines(s) =~= s.filter(not_current()).map_values(session_line()));
}

/// In the selection list the live sessions other than the current one come
/// first, then the resurrectable sessions, then the directories, and each
/// group keeps its own order.
pub proof fn lemma_item_order(sm: SessionManagerState)
    ensures
        item_lines(sm).len() == sm.sessions@.filter(not_current()).len()
            + sm.resurrectable_sessions@.len() + sm.repos@.len(),
        forall|i: int|
            0 <= i < sm.sessions@.filter(not_current()).len() ==> #[trigger] item_lines(sm)[i]
                == "[session] "@ + sm.sessions@.filter(not_current())[i].name@,
        forall|i: int|
            0 <= i < sm.resurrectable_sessions@.len() ==> #[trigger] item_lines(
                sm,
            )[sm.sessions@.filter(not_current()).len() + i] == "[exited] "@
                + sm.resurrectable_sessions@[i].name@,
        forall|i: int|
            0 <= i < sm.repos@.len() ==> #[trigger] item_lines(sm)[sm.sessions@.filter(
                not_current(),
            ).len() + sm.resurrectable_sessions@.len() + i] == "[dir] "@ + sm.repos@[i]@,
{
    lemma_live_lines(sm.sessions@);
}

/// Lines joined by single newlines, with none at the end.
pub open spec fn join_lines(lines: Seq<Seq<char>>) -> Seq<char>
    decreases lines.len(),
{
    if lines.len() == 0 {
        Seq::empty()
    } else if lines.len() == 1 {
        lines[0]
    } else {
        join_lines(lines.drop_last()) + seq!['\n'] + lines.last()
    }
}

fn tagged(tag: &str, value: &str) -> (line: String)
    ensures
        line@ == tag@ + value@,
{
    let mut line = String::from_str(tag);
    line.append(value);
    line
}

/// Composes the selection list.
pub fn compose_items(sm: &SessionManagerState) -> (items: Vec<String>)
    ensures
        texts(items@) == item_lines(*sm),
{
    let mut items: Vec<String> = Vec::new();
    let mut i: usize = 0;
    assert(texts(items@) =~= live_lines(sm.sessions@.take(0)));
    while i < sm.sessions.len()
        invariant
            i <= sm.sessions.len(),
            texts(items@) == live_lines(sm.sessions@.take(i as int)),
        decreases sm.sessions.len() - i,
    {
        let ghost so_far = texts(items@);
        assert(sm.sessions@.take(i + 1).drop_last() =~= sm.sessions@.take(i as int));
        if !sm.sessions[i].is_current_session {
            items.push(tagged("[session] ", sm.sessions[i].name.as_str()));
            assert(texts(items@) =~= so_far.push("[session] "@ + sm.sessions@[i as int].name@));
        }
        i += 1;
    }
    assert(sm.sessions@.take(i as int) =~= sm.sessions@);
    let ghost live = texts(items@);
    let mut j: usize = 0;
    assert(texts(items@) =~= live + exited_lines(sm.resurrectable_sessions@).take(0));
    while j < sm.resurrectable_sessions.len()
        invariant
            j <= sm.resurrectable_sessions.len(),
            texts(items@) == live + exited_lines(sm.resurrectable_sessions@).take(j as int),
        decreases sm.resurrectable_sessions.len() - j,
    {
        let ghost so_far = texts(items@);
        items.push(tagged("[exited] ", sm.resurrectable_sessions[j].name.as_str()));
        assert(texts(items@) =~= so_far.push(exited_lines(sm.resurrectable_sessions@)[j as int]));
        assert(texts(items@) =~= live + exited_lines(sm.resurrectable_sessions@).take(j + 1));
        j += 1;
    }
    assert(exited_lines(sm.resurrectable_sessions@).take(j as int) =~= exited_lines(
        sm.resurrectable_sessions@,
    ));
    let ghost sessions = texts(items@);
    let mut k: usize = 0;
    assert(texts(items@) =~= sessions + dir_lines(sm.repos@).take(0));
    while k < sm.repos.len()
        invariant
            k <= sm.repos.len(),
            texts(items@) == sessions + dir_lines(sm.repos@).take(k as int),
        decreases sm.repos.len() - k,
    {
        let ghost so_far = texts(items@);
        items.push(tagged("[dir] ", sm.repos[k].as_str()));
        assert(texts(items@) =~= so_far.push(dir_lines(sm.repos@)[k as int]));
        assert(texts(items@) =~= sessions + dir_lines(sm.repos@).take(k + 1));
        k += 1;
    }
    assert(dir_lines(sm.repos@).take(k as int) =~= dir_lines(sm.repos@));
    items
}

/// Joins lines by single newlines.
pub fn join(lines: &Vec<String>) -> (joined: String)
    ensures
        joined@ == join_lines(texts(lines@)),
{
    let mut joined = String::new();
    let mut i: usize = 0;
    assert(texts(lines@).take(0) =~= Seq::<Seq<char>>::empty());
    while i < lines.len()
        invariant
            i <= lines.len(),
            joined@ == join_lines(texts(lines@).take(i as int)),
        decreases lines.len() - i,
    {
        let ghost before = joined@;
        let ghost next = texts(lines@).take(i + 1);
        assert(next.drop_last() =~= texts(lines@).take(i as int));
        assert(next.last() == lines@[i as int]@);
        if i > 0 {
            push_char(&mut joined, '\n');
            assert(before.push('\n') =~= before + seq!['\n']);
        } else {
            assert(next[0] == lines@[0]@);
            assert(before.len() == 0);
        }
        joined.append(lines[i].as_str());
        assert(joined@ =~= join_lines(next));
        i += 1;
    }
    assert(texts(lines@).take(i as int) =~= texts(lines@));
    joined
}

/// The selection list as one text: the picker's input.
pub fn build_item_list(sm: &SessionManagerState) -> (list: String)
    ensures
        list@ == join_lines(item_lines(*sm)),
{
    let items = compose_items(sm);
    join(&items)
}

/// The picker's script up to the selection list, which follows as one
/// single-quoted word.
pub const PICKER_HEAD: &'static str = "RESULT=$(printf '%s\\n' ";

/// The picker's script after the selection list: run the filter with its
/// two extra keys and its preview, call back with the pressed key and the
/// chosen line, and close the surface whatever happened.
pub const PICKER_TAIL: &'static str = " | sk \
    --ansi \
    --expect 'ctrl-d,ctrl-n' \
    --preview '\
    line={}; \
    type=$(echo \"$line\" | sed \"s/^\\\\[\\\\([^]]*\\\\)\\\\].*/\\\\1/\"); \
    name=$(echo \"$line\" | sed \"s/^\\\\[[^]]*\\\\] //\"); \
    if [ \"$type\" = \"session\" ]; then \
    echo \"Live session: $name\"; echo; zellij list-sessions 2>/dev/null | grep -A2 \"$name\" || true; \
    elif [ \"$type\" = \"exited\" ]; then \
    echo \"Exited session: $name\"; \
    else \
    ls --color=always -la \"$name\" 2>/dev/null; \
    fi\
    ' \
    --preview-window=right:50%); \
    KEY=$(echo \"$RESULT\" | head -1); \
    ITEM=$(echo \"$RESULT\" | sed -n 2p); \
    if [ -n \"$ITEM\" ]; then \
    zellij pipe --name session-action --args \"key=$KEY\" -- \"$ITEM\"; \
    fi; \
    zellij action close-pane";

/// One character of the selection list as it stands between single quotes
/// in a shell script. Between single quotes every character stands for
/// itself, a backslash too; only the single quote cannot stand there, so it
/// closes the quotation, adds an escaped quote and opens the quotation again.
pub open spec fn escaped_char(c: char) -> Seq<char> {
    if c == '\'' {
        seq!['\'', '\\', '\'', '\'']
    } else {
        seq![c]
    }
}

/// A text with every character escaped for single quotes.
pub open spec fn shell_escaped(s: Seq<char>) -> Seq<char>
    decreases s.len(),
{
    if s.len() == 0 {
        Seq::empty()
    } else {
        shell_escaped(s.drop_last()) + escaped_char(s.last())
    }
}

/// A text as one single-quoted word of a shell script.
pub open spec fn shell_quoted(s: Seq<char>) -> Seq<char> {
    seq!['\''] + shell_escaped(s) + seq!['\'']
}

/// A character in front of a text that was read, if any was.
pub open spec fn preceded(c: char, read: Option<Seq<char>>) -> Option<Seq<char>> {
    match read {
        Some(v) => Some(seq![c] + v),
        None => None,
    }
}

/// The text that a shell reads from a word made of single quotations and
/// escaped characters. `quoted` tells whether a quotation is open. Inside
/// one, a single quote closes it and every other character stands for
/// itself. Outside, a single quote opens one and a backslash makes the next
/// character stand for itself; anything else is not of this form, and
/// neither is a word that ends inside a quotation.
pub open spec fn shell_read(word: Seq<char>, quoted: bool) -> Option<Seq<char>>
    decreases word.len(),
{
    if word.len() == 0 {
        if quoted {
            None
        } else {
            Some(Seq::empty())
        }
    } else if quoted {
        if word[0] == '\'' {
            shell_read(word.skip(1), false)
        } else {
            preceded(word[0], shell_read(word.skip(1), true))
        }
    } else if word[0] == '\'' {
        shell_read(word.skip(1), true)
    } else if word[0] == '\\' && word.len() >= 2 {
        preceded(word[1], shell_read(word.skip(2), false))
    } else {
        None
    }
}

/// Inside a quotation, an escaped text followed by `rest` reads as the
/// text followed by what `rest` reads as.
pub proof fn lemma_escaped_reads_back(s: Seq<char>, rest: Seq<char>)
    ensures
        shell_read(shell_escaped(s) + rest, true) == match shell_read(rest, true) {
            Some(v) => Some(s + v),
            None => None,
        },
    decreases s.len(),
{
    if s.len() == 0 {
        assert(shell_escaped(s) + rest =~= rest);
        match shell_read(rest, true) {
            Some(v) => {
                assert(s + v =~= v);
            },
            None => {},
        }
    } else {
        let head = s.drop_last();
        let c = s.last();
        let tail = escaped_char(c) + rest;
        assert(shell_escaped(s) + rest =~= shell_escaped(head) + tail);
        lemma_escaped_reads_back(head, tail);
        if c == '\'' {
            assert(tail.skip(1)[0] == '\\');
            assert(tail.skip(1).skip(2) =~= seq!['\''] + rest);
            assert((seq!['\''] + rest).skip(1) =~= rest);
            assert(shell_read(seq!['\''] + rest, false) == shell_read(rest, true));
            assert(shell_read(tail.skip(1), false) == preceded(c, shell_read(rest, true)));
            assert(shell_read(tail, true) == preceded(c, shell_read(rest, true)));
        } else {
            assert(tail.skip(1) =~= rest);
            assert(shell_read(tail, true) == preceded(c, shell_read(rest, true)));
        }
        match shell_read(rest, true) {
            Some(v) => {
                assert(head + (seq![c] + v) =~= s + v);
            },
            None => {},
        }
    }
}

/// A shell reads the quoted word of a text back as that text: every line
/// reaches the picker intact, whatever quotes and backslashes it holds.
pub proof fn lemma_quoted_reads_back(s: Seq<char>)
    ensures
        shell_read(shell_quoted(s), false) == Some(s),
{
    let close = seq!['\''];
    assert(shell_quoted(s).skip(1) =~= shell_escaped(s) + close);
    assert(close.skip(1) =~= Seq::<char>::empty());
    assert(shell_read(close.skip(1), false) == Some(Seq::<char>::empty()));
    assert(shell_read(close, true) == Some(Seq::<char>::empty()));
    lemma_escaped_reads_back(s, close);
    assert(s + Seq::<char>::empty() =~= s);
}

/// Escapes a text for embedding between single quotes in a shell script.
pub fn shell_escape(s: &str) -> (out: String)
    ensures
        out@ == shell_escaped(s@),
{
    let n = s.unicode_len();
    let mut out = String::new();
    let mut i: usize = 0;
    assert(s@.take(0) =~= Seq::<char>::empty());
    while i < n
        invariant
            i <= n,
            n == s@.len(),
            out@ == shell_escaped(s@.take(i as int)),
        decreases n - i,
    {
        let c = s.get_char(i);
        assert(s@.take(i + 1).drop_last() =~= s@.take(i as int));
        let ghost before = out@;
        if c == '\'' {
            push_char(&mut out, '\'');
            push_char(&mut out, '\\');
            push_char(&mut out, '\'');
            push_char(&mut out, '\'');
        } else {
            push_char(&mut out, c);
        }
        assert(out@ =~= before + escaped_char(c));
        i += 1;
    }
    assert(s@.take(n as int) =~= s@);
    out
}

/// The picker's script for a selection list: the list stands in it as one
/// single-quoted word.
pub open spec fn picker_script_text(list: Seq<char>) -> Seq<char> {
    PICKER_HEAD@ + shell_quoted(list) + PICKER_TAIL@
}

/// Builds the picker's script around a selection list. This is the one
/// place where the list enters a shell script, and it enters quoted.
pub fn picker_script(list: &str) -> (script: String)
    ensures
        script@ == picker_script_text(list@),
{
    let mut script = String::from_str(PICKER_HEAD);
    let escaped = shell_escape(list);
    push_char(&mut script, '\'');
    script.append(escaped.as_str());
    push_char(&mut script, '\'');
    assert(script@ =~= PICKER_HEAD@ + shell_quoted(list@));
    script.append(PICKER_TAIL);
    script
}

/// The request that launches the picker on a selection list: none for an
/// empty list.
pub open spec fn picker_request(list: Seq<char>) -> Option<ActionView> {
    if list.len() == 0 {
        None
    } else {
        Some(
            ActionView::OpenFloatingShell {
                script: picker_script_text(list),
                purpose: PICKER_PURPOSE@,
            },
        )
    }
}

/// The request that launches the picker in a given state: none while a
/// picker is open, and none for an empty selection list.
pub open spec fn launch_request(sm: SessionManagerState) -> Option<ActionView> {
    if sm.sm_pane_id is Some {
        None
    } else {
        picker_request(join_lines(item_lines(sm)))
    }
}

/// Launches the picker on the current selection list, unless a picker is
/// open already or the list is empty.
pub fn launch_sk(sm: &SessionManagerState) -> (request: Option<Action>)
    ensures
        request_view(request) == launch_request(*sm),
{
    if sm.sm_pane_id.is_some() {
        return None;
    }
    let list = build_item_list(sm);
    if list.as_str().is_empty() {
        return None;
    }
    let script = picker_script(list.as_str());
    Some(Action::OpenFloatingShell { script, purpose: String::from_str(PICKER_PURPOSE) })
}

/// Whether an open request is turned away: a picker is open or a scan is in
/// flight.
pub open spec fn busy(sm: SessionManagerState) -> bool {
    sm.sm_pane_id is Some || sm.pending_repo_scan
}

/// Handles a request to open the workflow. While a picker is open or a scan
/// is in flight nothing happens; otherwise the scan is marked as in flight
/// and requested.
pub fn open_session_manager(sm: &mut SessionManagerState) -> (request: Option<Action>)
    ensures
        *final(sm) == after_open(*old(sm)),
        request_view(request) == open_request(*old(sm)),
{
    if sm.sm_pane_id.is_some() || sm.pending_repo_scan {
        return None;
    }
    sm.pending_repo_scan = true;
    Some(
        Action::RunShell {
            script: String::from_str(SCAN_SCRIPT),
            purpose: String::from_str(SCAN_PURPOSE),
        },
    )
}

/// The request for a repository scan.
pub open spec fn scan_request() -> ActionView {
    ActionView::RunShell { script: SCAN_SCRIPT@, purpose: SCAN_PURPOSE@ }
}

/// The state after an open request: unchanged if busy, else with the scan
/// marked as in flight.
pub open spec fn after_open(sm: SessionManagerState) -> SessionManagerState {
    if busy(sm) {
        sm
    } else {
        SessionManagerState { pending_repo_scan: true, ..sm }
    }
}

/// The request that an open request hands to the host: a scan, unless busy.
pub open spec fn open_request(sm: SessionManagerState) -> Option<ActionView> {
    if busy(sm) {
        None
    } else {
        Some(scan_request())
    }
}

/// The state after `n` open requests in a row.
pub open spec fn after_opens(sm: SessionManagerState, n: nat) -> SessionManagerState
    decreases n,
{
    if n == 0 {
        sm
    } else {
        after_open(after_opens(sm, (n - 1) as nat))
    }
}

/// However often the workflow is asked to open in a row, at most one scan
/// is requested and no picker: the first request leaves the state busy,
/// and every later one finds it so, asks for nothing and changes nothing.
pub proof fn lemma_single_scan(sm: SessionManagerState, n: nat)
    requires
        n >= 1,
    ensures
        after_opens(sm, n) == after_open(sm),
        busy(after_opens(sm, n)),
        open_request(after_opens(sm, n)) is None,
        after_opens(sm, n).sm_pane_id == sm.sm_pane_id,
        busy(sm) ==> open_request(sm) is None && after_open(sm) == sm,
    decreases n,
{
    if n > 1 {
        lemma_single_scan(sm, (n - 1) as nat);
    } else {
        assert(after_opens(sm, 0) == sm);
    }
}

/// The workflow's two guards.
pub ghost struct Guards {
    /// Whether a scan is marked as in flight.
    pub scan_pending: bool,
    /// The picker's surface, while it is known to be open.
    pub picker: Option<u32>,
}

/// The guards of a state.
pub open spec fn guards(sm: SessionManagerState) -> Guards {
    Guards { scan_pending: sm.pending_repo_scan, picker: sm.sm_pane_id }
}

/// What can happen to the workflow, as far as its guards go: a request to
/// open, the result of a scan, the report that the picker's surface was
/// opened, and the end of a surface.
pub ghost enum WorkflowEvent {
    Open,
    ScanResult,
    PickerOpened { pane_id: u32 },
    SurfaceGone { pane_id: u32 },
}

/// The picker's handle after the surface `pane_id` is gone.
pub open spec fn picker_after_gone(picker: Option<u32>, pane_id: u32) -> Option<u32> {
    if picker == Some(pane_id) {
        None
    } else {
        picker
    }
}

/// The guards after one event.
pub open spec fn guards_after(g: Guards, e: WorkflowEvent) -> Guards {
    match e {
        WorkflowEvent::Open => if g.scan_pending || g.picker is Some {
            g
        } else {
            Guards { scan_pending: true, ..g }
        },
        WorkflowEvent::ScanResult => Guards { scan_pending: false, ..g },
        WorkflowEvent::PickerOpened { pane_id } => Guards { picker: Some(pane_id), ..g },
        WorkflowEvent::SurfaceGone { pane_id } => Guards {
            picker: picker_after_gone(g.picker, pane_id),
            ..g
        },
    }
}

/// Whether an event makes the workflow ask for a scan.
pub open spec fn asks_scan(g: Guards, e: WorkflowEvent) -> bool {
    e is Open && !g.scan_pending && g.picker is None
}

/// Whether an event can make the workflow ask for a picker.
pub open spec fn may_ask_picker(g: Guards, e: WorkflowEvent) -> bool {
    e is ScanResult && g.picker is None
}

/// The guards after a run of events.
pub open spec fn guards_through(g: Guards, run: Seq<WorkflowEvent>) -> Guards
    decreases run.len(),
{
    if run.len() == 0 {
        g
    } else {
        guards_after(guards_through(g, run.drop_last()), run.last())
    }
}

/// The number of scans that were asked for and have not been answered
/// after a run of events, counting the one that is in flight at its start.
pub open spec fn scans_in_flight(g: Guards, run: Seq<WorkflowEvent>) -> int
    decreases run.len(),
{
    if run.len() == 0 {
        if g.scan_pending {
            1
        } else {
            0
        }
    } else {
        scans_in_flight(g, run.drop_last()) + (if asks_scan(
            guards_through(g, run.drop_last()),
            run.last(),
        ) {
            1int
        } else {
            0
        }) - (if run.last() is ScanResult {
            1int
        } else {
            0
        })
    }
}

/// The host answers only scans that were asked for: every scan result of
/// the run arrives while a scan is in flight.
pub open spec fn answers_follow_requests(g: Guards, run: Seq<WorkflowEvent>) -> bool {
    forall|i: int|
        0 <= i < run.len() && (#[trigger] run[i]) is ScanResult ==> scans_in_flight(g, run.take(i))
            >= 1
}

/// The entry points move the guards as [`guards_after`] says, and ask for
/// a scan or a picker only where [`asks_scan`] and [`may_ask_picker`]
/// allow it. `scanned` is any state that a scan result may leave behind.
pub proof fn lemma_guards_follow(
    sm: SessionManagerState,
    scanned: SessionManagerState,
    pane_id: u32,
)
    requires
        !scanned.pending_repo_scan,
        scanned.sm_pane_id == sm.sm_pane_id,
    ensures
        guards(after_open(sm)) == guards_after(guards(sm), WorkflowEvent::Open),
        open_request(sm) is Some <==> asks_scan(guards(sm), WorkflowEvent::Open),
        guards(scanned) == guards_after(guards(sm), WorkflowEvent::ScanResult),
        launch_request(scanned) is Some ==> may_ask_picker(guards(sm), WorkflowEvent::ScanResult),
        guards(SessionManagerState { sm_pane_id: Some(pane_id), ..sm }) == guards_after(
            guards(sm),
            WorkflowEvent::PickerOpened { pane_id },
        ),
        guards(
            SessionManagerState { sm_pane_id: picker_after_gone(sm.sm_pane_id, pane_id), ..sm },
        ) == guards_after(guards(sm), WorkflowEvent::SurfaceGone { pane_id }),
{
}

/// Whatever the order in which open requests, scan results and surface
/// events arrive, at most one scan is in flight at any time: a scan is
/// asked for only while none is in flight, and the scan guard is set
/// exactly while one is. A picker is asked for only while no picker's
/// surface is known.
pub proof fn lemma_one_scan_in_flight(g: Guards, run: Seq<WorkflowEvent>)
    requires
        answers_follow_requests(g, run),
    ensures
        scans_in_flight(g, run) == if guards_through(g, run).scan_pending {
            1int
        } else {
            0
        },
        forall|i: int| 0 <= i <= run.len() ==> 0 <= #[trigger] scans_in_flight(g, run.take(i)) <= 1,
        forall|i: int|
            0 <= i < run.len() && asks_scan(guards_through(g, run.take(i)), #[trigger] run[i])
                ==> scans_in_flight(g, run.take(i)) == 0,
        forall|i: int|
            0 <= i < run.len() && may_ask_picker(guards_through(g, run.take(i)), #[trigger] run[i])
                ==> guards_through(g, run.take(i)).picker is None,
    decreases run.len(),
{
    if run.len() == 0 {
        assert forall|i: int| 0 <= i <= run.len() implies 0 <= #[trigger] scans_in_flight(
            g,
            run.take(i),
        ) <= 1 by {
            assert(run.take(i) =~= run);
        }
    } else {
        let before = run.drop_last();
        let n = before.len() as int;
        assert(run.take(n) =~= before);
        assert(answers_follow_requests(g, before)) by {
            assert forall|i: int| 0 <= i < before.len() && (#[trigger] before[i]) is ScanResult
                implies scans_in_flight(g, before.take(i)) >= 1 by {
                assert(before[i] == run[i]);
                assert(before.take(i) =~= run.take(i));
            }
        }
        lemma_one_scan_in_flight(g, before);
        if run.last() is ScanResult {
            assert(run[n] is ScanResult);
            assert(scans_in_flight(g, run.take(n)) >= 1);
        }
        assert(before.take(n) =~= before);
        assert forall|i: int| 0 <= i <= run.len() implies 0 <= #[trigger] scans_in_flight(
            g,
            run.take(i),
        ) <= 1 by {
            if i < run.len() {
                assert(run.take(i) =~= before.take(i));
            } else {
                assert(run.take(i) =~= run);
            }
        }
        assert forall|i: int|
            0 <= i < run.len() && asks_scan(
                guards_through(g, run.take(i)),
                #[trigger] run[i],
            ) implies scans_in_flight(g, run.take(i)) == 0 by {
            assert(run.take(i) =~= before.take(i));
            if i < n {
                assert(before[i] == run[i]);
            }
        }
    }
}

/// The text that `String::from_utf8_lossy` decodes from the given bytes.
pub uninterp spec fn lossy_text(bytes: Seq<u8>) -> Seq<char>;

/// `String::from_utf8_lossy`: decodes bytes as UTF-8, with the replacement
/// character for what is not valid. The contract only gives the result its
/// name: it depends on the bytes alone.
#[verifier::external_body]
fn decode_lossy(bytes: &Vec<u8>) -> (text: String)
    ensures
        text@ == lossy_text(bytes@),
{
    String::from_utf8_lossy(bytes).into_owned()
}

/// The test for a line feed.
pub open spec fn newline() -> spec_fn(char) -> bool {
    |c: char| c == '\n'
}

/// Whether a text ends in `/.git`.
pub open spec fn has_git_suffix(s: Seq<char>) -> bool {
    &&& s.len() >= 5
    &&& s[s.len() - 5] == '/'
    &&& s[s.len() - 4] == '.'
    &&& s[s.len() - 3] == 'g'
    &&& s[s.len() - 2] == 'i'
    &&& s[s.len() - 1] == 't'
}

/// A path without any `/.git` at its end: the repository's root.
pub open spec fn repo_root_text(s: Seq<char>) -> Seq<char>
    decreases s.len(),
{
    if has_git_suffix(s) {
        repo_root_text(s.take(s.len() - 5))
    } else {
        s
    }
}

/// A line as it stands before a line feed, or at the end of the text: the
/// carriage return of a `\r\n` ending does not belong to it.
pub open spec fn line_text(raw: Seq<char>, ended: bool) -> Seq<char> {
    if ended && raw.len() > 0 && raw.last() == '\r' {
        raw.drop_last()
    } else {
        raw
    }
}

/// The repository roots that a scan's output names: one for each line that
/// is not empty, in order.
pub open spec fn repo_roots(text: Seq<char>) -> Seq<Seq<char>>
    decreases text.len(),
{
    if text.len() == 0 {
        Seq::empty()
    } else {
        let n = first_where(text, newline());
        if 0 <= n < text.len() {
            let line = line_text(text.take(n), true);
            if line.len() == 0 {
                repo_roots(text.skip(n + 1))
            } else {
                seq![repo_root_text(line)] + repo_roots(text.skip(n + 1))
            }
        } else {
            seq![repo_root_text(text)]
        }
    }
}

/// Strips every `/.git` from the end of a path.
pub fn repo_root(path: &str) -> (root: &str)
    ensures
        root@ == repo_root_text(path@),
{
    let mut end: usize = path.unicode_len();
    assert(path@.take(end as int) =~= path@);
    while end >= 5 && path.get_char(end - 5) == '/' && path.get_char(end - 4) == '.'
        && path.get_char(end - 3) == 'g' && path.get_char(end - 2) == 'i' && path.get_char(end - 1)
        == 't'
        invariant
            end <= path@.len(),
            repo_root_text(path@) == repo_root_text(path@.take(end as int)),
        decreases end,
    {
        assert(has_git_suffix(path@.take(end as int)));
        assert(path@.take(end as int).take(end - 5) =~= path@.take(end - 5));
        end -= 5;
    }
    assert(!has_git_suffix(path@.take(end as int)));
    let root = path.substring_char(0, end);
    assert(root@ =~= path@.take(end as int));
    root
}

/// Reads a scan's output: one path on each line, empty lines dropped, each
/// path cut back to its repository's root.
pub fn parse_repos(text: &str) -> (repos: Vec<String>)
    ensures
        texts(repos@) == repo_roots(text@),
{
    let n = text.unicode_len();
    let mut repos: Vec<String> = Vec::new();
    let mut pos: usize = 0;
    assert(text@.skip(0) =~= text@);
    assert(texts(repos@) + repo_roots(text@) =~= repo_roots(text@));
    while pos < n
        invariant
            pos <= n,
            n == text@.len(),
            repo_roots(text@) == texts(repos@) + repo_roots(text@.skip(pos as int)),
        decreases n - pos,
    {
        let ghost rest = text@.skip(pos as int);
        let ghost so_far = texts(repos@);
        let mut end: usize = pos;
        while end < n && text.get_char(end) != '\n'
            invariant
                pos <= end <= n,
                n == text@.len(),
                forall|j: int| pos <= j < end ==> text@[j] != '\n',
            decreases n - end,
        {
            end += 1;
        }
        proof {
            assert(is_first_where(rest, newline(), end - pos)) by {
                assert forall|j: int| 0 <= j < end - pos implies !newline()(#[trigger] rest[j]) by {
                    assert(rest[j] == text@[pos + j]);
                }
            }
            lemma_first_where(rest, newline(), end - pos);
            assert(rest.take(end - pos) =~= text@.subrange(pos as int, end as int));
        }
        if end < n {
            let raw = text.substring_char(pos, end);
            let line = if end > pos && text.get_char(end - 1) == '\r' {
                let cut = text.substring_char(pos, end - 1);
                assert(cut@ =~= raw@.drop_last());
                cut
            } else {
                raw
            };
            assert(line@ == line_text(rest.take(end - pos), true));
            assert(rest.skip(end - pos + 1) =~= text@.skip(end + 1));
            if !line.is_empty() {
                repos.push(String::from_str(repo_root(line)));
                assert(texts(repos@) =~= so_far + seq![repo_root_text(line@)]);
                assert(repo_roots(text@) =~= texts(repos@) + repo_roots(text@.skip(end + 1)));
            }
            pos = end + 1;
        } else {
            let line = text.substring_char(pos, end);
            assert(line@ =~= rest);
            repos.push(String::from_str(repo_root(line)));
            assert(texts(repos@) =~= so_far + seq![repo_root_text(rest)]);
            assert(text@.skip(n as int).len() == 0);
            assert(repo_roots(text@) =~= texts(repos@) + repo_roots(text@.skip(n as int)));
            pos = n;
        }
    }
    assert(text@.skip(n as int).len() == 0);
    assert(texts(repos@) + repo_roots(text@.skip(n as int)) =~= texts(repos@));
    repos
}

/// Takes in the text of a scan's output: the scan is over, the
/// repositories are replaced by those that the text names, and the picker
/// is launched on the new selection list, unless one is open already.
pub fn apply_scan(sm: &mut SessionManagerState, output: &str) -> (request: Option<Action>)
    ensures
        texts(final(sm).repos@) == repo_roots(output@),
        !final(sm).pending_repo_scan,
        final(sm).sessions == old(sm).sessions,
        final(sm).resurrectable_sessions == old(sm).resurrectable_sessions,
        final(sm).sm_pane_id == old(sm).sm_pane_id,
        request_view(request) == launch_request(*final(sm)),
{
    sm.pending_repo_scan = false;
    sm.repos = parse_repos(output);
    launch_sk(sm)
}

/// Handles the result of the repository scan, given the bytes that the
/// scan wrote to its standard output.
pub fn handle_repo_scan_result(sm: &mut SessionManagerState, stdout: Vec<u8>) -> (request: Option<
    Action,
>)
    ensures
        texts(final(sm).repos@) == repo_roots(lossy_text(stdout@)),
        !final(sm).pending_repo_scan,
        final(sm).sessions == old(sm).sessions,
        final(sm).resurrectable_sessions == old(sm).resurrectable_sessions,
        final(sm).sm_pane_id == old(sm).sm_pane_id,
        request_view(request) == launch_request(*final(sm)),
{
    let output = decode_lossy(&stdout);
    apply_scan(sm, output.as_str())
}

/// Whether a character is white space, as Unicode defines it.
pub open spec fn is_space(c: char) -> bool {
    let u = c as u32;
    (0x09 <= u <= 0x0D) || u == 0x20 || u == 0x85 || u == 0xA0 || u == 0x1680 || (0x2000 <= u
        <= 0x200A) || u == 0x2028 || u == 0x2029 || u == 0x202F || u == 0x205F || u == 0x3000
}

fn space(c: char) -> (r: bool)
    ensures
        r == is_space(c),
{
    let u: u32 = c as u32;
    (0x09 <= u && u <= 0x0D) || u == 0x20 || u == 0x85 || u == 0xA0 || u == 0x1680 || (0x2000 <= u
        && u <= 0x200A) || u == 0x2028 || u == 0x2029 || u == 0x202F || u == 0x205F || u == 0x3000
}

/// The test for a closing bracket.
pub open spec fn closing() -> spec_fn(char) -> bool {
    |c: char| c == ']'
}

/// The test for anything but white space.
pub open spec fn not_space() -> spec_fn(char) -> bool {
    |c: char| !is_space(c)
}

/// A text without the white space at its start.
pub open spec fn trimmed_start(s: Seq<char>) -> Seq<char> {
    s.skip(first_where(s, not_space()))
}

/// The tag and the value of a picker line `[tag] value`: the tag is what
/// stands between the opening bracket and the first closing one, the value
/// what follows, without white space at its start. A line that does not
/// begin with a bracketed tag has the empty tag and is its own value.
pub open spec fn parsed_item(item: Seq<char>) -> (Seq<char>, Seq<char>) {
    if item.len() > 0 && item[0] == '[' {
        let rest = item.skip(1);
        let end = first_where(rest, closing());
        if 0 <= end < rest.len() {
            (rest.take(end), trimmed_start(rest.skip(end + 1)))
        } else {
            (Seq::empty(), item)
        }
    } else {
        (Seq::empty(), item)
    }
}

/// Splits a picker line into its tag and its value.
pub fn parse_item<'a>(item: &'a str) -> (r: (&'a str, &'a str))
    ensures
        (r.0@, r.1@) == parsed_item(item@),
{
    let n = item.unicode_len();
    if n == 0 || item.get_char(0) != '[' {
        let none = item.substring_char(0, 0);
        assert(none@ =~= Seq::<char>::empty());
        return (none, item);
    }
    let ghost rest = item@.skip(1);
    let mut end: usize = 1;
    while end < n && item.get_char(end) != ']'
        invariant
            1 <= end <= n,
            n == item@.len(),
            forall|j: int| 1 <= j < end ==> item@[j] != ']',
        decreases n - end,
    {
        end += 1;
    }
    proof {
        assert(is_first_where(rest, closing(), end - 1)) by {
            assert forall|j: int| 0 <= j < end - 1 implies !closing()(#[trigger] rest[j]) by {
                assert(rest[j] == item@[j + 1]);
            }
        }
        lemma_first_where(rest, closing(), end - 1);
    }
    if end == n {
        let none = item.substring_char(0, 0);
        assert(none@ =~= Seq::<char>::empty());
        return (none, item);
    }
    let tag = item.substring_char(1, end);
    assert(tag@ =~= rest.take(end - 1));
    let ghost tail = rest.skip(end as int);
    assert(tail =~= item@.skip(end + 1));
    let mut start: usize = end + 1;
    while start < n && space(item.get_char(start))
        invariant
            end + 1 <= start <= n,
            n == item@.len(),
            forall|j: int| end + 1 <= j < start ==> is_space(item@[j]),
        decreases n - start,
    {
        start += 1;
    }
    proof {
        assert(is_first_where(tail, not_space(), start - end - 1)) by {
            assert forall|j: int| 0 <= j < start - end - 1 implies !not_space()(
                #[trigger] tail[j],
            ) by {
                assert(tail[j] == item@[end + 1 + j]);
            }
        }
        lemma_first_where(tail, not_space(), start - end - 1);
    }
    let value = item.substring_char(start, n);
    assert(value@ =~= tail.skip(start - end - 1));
    (tag, value)
}

/// The final component of a path, as `Path::file_name` gives it, as text.
pub uninterp spec fn final_component(path: Seq<char>) -> Option<Seq<char>>;

/// `Path::file_name`, with its result turned into text by
/// `OsStr::to_string_lossy`. The contract only gives the result its name:
/// it depends on the path's text alone.
#[verifier::external_body]
fn path_file_name(path: &str) -> (name: Option<String>)
    ensures
        opt_text(name) == final_component(path@),
{
    match std::path::PathBuf::from(path).file_name() {
        Some(s) => Some(s.to_string_lossy().into_owned()),
        None => None,
    }
}

/// The workspace name for a directory, given the final component of its
/// path: that component, or the whole path where it has none.
pub fn session_name_for(path: &str, component: Option<String>) -> (name: String)
    ensures
        name@ == match component {
            Some(c) => c@,
            None => path@,
        },
{
    match component {
        Some(c) => c,
        None => String::from_str(path),
    }
}

/// The workspace name that a directory's path gives.
pub open spec fn dir_session_name(path: Seq<char>) -> Seq<char> {
    match final_component(path) {
        Some(c) => c,
        None => path,
    }
}

/// Derives a workspace name from a directory's path.
pub fn dir_to_session_name(path: &str) -> (name: String)
    ensures
        name@ == dir_session_name(path@),
{
    let component = path_file_name(path);
    session_name_for(path, component)
}

/// The names in use: those of the live sessions, then those of the
/// resurrectable ones.
pub open spec fn existing_names(sm: SessionManagerState) -> Seq<Seq<char>> {
    sm.sessions@.map_values(|s: LiveSession| s.name@) + sm.resurrectable_sessions@.map_values(
        |r: ResurrectableSession| r.name@,
    )
}

/// The `k`-th candidate for a child of `base`: `base-k`.
pub open spec fn child_name(base: Seq<char>, k: nat) -> Seq<char> {
    base.push('-') + decimal(k)
}

/// `k` is the smallest positive number for which `base-k` is not among `names`.
pub open spec fn is_first_free(base: Seq<char>, names: Seq<Seq<char>>, k: nat) -> bool {
    &&& k >= 1
    &&& !names.contains(child_name(base, k))
    &&& forall|j: nat| 1 <= j < k ==> names.contains(#[trigger] child_name(base, j))
}

/// The smallest positive number for which `base-k` is not among `names`.
pub open spec fn first_free(base: Seq<char>, names: Seq<Seq<char>>) -> nat {
    choose|k: nat| is_first_free(base, names, k)
}

/// Different numbers give different child names.
pub proof fn lemma_child_name_injective(base: Seq<char>, a: nat, b: nat)
    requires
        child_name(base, a) == child_name(base, b),
    ensures
        a == b,
{
    assert(child_name(base, a).skip((base.len() + 1) as int) =~= decimal(a));
    assert(child_name(base, b).skip((base.len() + 1) as int) =~= decimal(b));
    lemma_decimal_injective(a, b);
}

/// Among any `names.len() + 1` consecutive candidates one is free.
pub proof fn lemma_free_child_exists(base: Seq<char>, names: Seq<Seq<char>>, lo: nat)
    ensures
        exists|k: nat| lo <= k <= lo + names.len() && !names.contains(#[trigger] child_name(base, k)),
    decreases names.len(),
{
    if names.contains(child_name(base, lo)) {
        let i = choose|i: int| 0 <= i < names.len() && names[i] == child_name(base, lo);
        let rest = names.remove(i);
        lemma_free_child_exists(base, rest, lo + 1);
        let k = choose|k: nat|
            lo + 1 <= k <= lo + 1 + rest.len() && !rest.contains(#[trigger] child_name(base, k));
        if names.contains(child_name(base, k)) {
            let j = choose|j: int| 0 <= j < names.len() && names[j] == child_name(base, k);
            if j == i {
                lemma_child_name_injective(base, k, lo);
            } else if j < i {
                assert(rest[j] == names[j]);
            } else {
                assert(rest[j - 1] == names[j]);
            }
        }
        assert(lo <= k <= lo + names.len() && !names.contains(child_name(base, k)));
    } else {
        assert(lo <= lo <= lo + names.len() && !names.contains(child_name(base, lo)));
    }
}

/// The smallest free number exists, is unique, and is at most one more
/// than the number of names.
pub proof fn lemma_first_free(base: Seq<char>, names: Seq<Seq<char>>, k: nat)
    requires
        is_first_free(base, names, k),
    ensures
        first_free(base, names) == k,
        k <= names.len() + 1,
{
    let f = first_free(base, names);
    assert(is_first_free(base, names, f));
    if f < k {
        assert(names.contains(child_name(base, f)));
    }
    if k < f {
        assert(names.contains(child_name(base, k)));
    }
    lemma_free_child_exists(base, names, 1);
    let free = choose|m: nat|
        1 <= m <= 1 + names.len() && !names.contains(#[trigger] child_name(base, m));
    if free < k {
        assert(names.contains(child_name(base, free)));
    }
}

/// Whether a name is that of a live or a resurrectable session.
pub fn name_in_use(sm: &SessionManagerState, name: &str) -> (used: bool)
    ensures
        used == existing_names(*sm).contains(name@),
{
    let ghost live = sm.sessions@.map_values(|s: LiveSession| s.name@);
    let ghost exited = sm.resurrectable_sessions@.map_values(|r: ResurrectableSession| r.name@);
    let mut i: usize = 0;
    while i < sm.sessions.len()
        invariant
            i <= sm.sessions.len(),
            live == sm.sessions@.map_values(|s: LiveSession| s.name@),
            forall|j: int| 0 <= j < i ==> live[j] != name@,
        decreases sm.sessions.len() - i,
    {
        if same_text(sm.sessions[i].name.as_str(), name) {
            assert(existing_names(*sm)[i as int] == name@);
            return true;
        }
        assert(live[i as int] == sm.sessions@[i as int].name@);
        i += 1;
    }
    let mut j: usize = 0;
    while j < sm.resurrectable_sessions.len()
        invariant
            j <= sm.resurrectable_sessions.len(),
            live == sm.sessions@.map_values(|s: LiveSession| s.name@),
            exited == sm.resurrectable_sessions@.map_values(|r: ResurrectableSession| r.name@),
            forall|m: int| 0 <= m < live.len() ==> live[m] != name@,
            forall|m: int| 0 <= m < j ==> exited[m] != name@,
        decreases sm.resurrectable_sessions.len() - j,
    {
        if same_text(sm.resurrectable_sessions[j].name.as_str(), name) {
            assert(existing_names(*sm)[live.len() + j] == name@);
            return true;
        }
        assert(exited[j as int] == sm.resurrectable_sessions@[j as int].name@);
        j += 1;
    }
    assert(!existing_names(*sm).contains(name@)) by {
        if existing_names(*sm).contains(name@) {
            let m = choose|m: int|
                0 <= m < existing_names(*sm).len() && existing_names(*sm)[m] == name@;
            if m < live.len() {
                assert(live[m] == name@);
            } else {
                assert(exited[m - live.len()] == name@);
            }
        }
    }
    false
}

/// Generates the name of a new child of `base_name`: `base_name-k` for the
/// smallest positive `k` that gives a name not in use.
pub fn generate_child_name(base_name: &str, sm: &SessionManagerState) -> (name: String)
    ensures
        is_first_free(base_name@, existing_names(*sm), first_free(base_name@, existing_names(*sm))),
        name@ == child_name(base_name@, first_free(base_name@, existing_names(*sm))),
{
    let ghost names = existing_names(*sm);
    let mut k: u128 = 1;
    assert(names.len() == sm.sessions.len() + sm.resurrectable_sessions.len());
    loop
        invariant
            names == existing_names(*sm),
            names.len() <= 2 * u64::MAX,
            1 <= k <= names.len() + 1,
            forall|j: nat| 1 <= j < k ==> names.contains(#[trigger] child_name(base_name@, j)),
        decreases names.len() + 1 - k,
    {
        let mut candidate = String::from_str(base_name);
        push_char(&mut candidate, '-');
        push_decimal(&mut candidate, k);
        if !name_in_use(sm, candidate.as_str()) {
            proof {
                lemma_first_free(base_name@, names, k as nat);
            }
            return candidate;
        }
        proof {
            lemma_free_child_exists(base_name@, names, 1);
            let free = choose|m: nat|
                1 <= m <= 1 + names.len() && !names.contains(#[trigger] child_name(base_name@, m));
            if free < k {
                assert(names.contains(child_name(base_name@, free)));
            }
            assert(free > k);
        }
        k += 1;
    }
}

/// Switching to the workspace that a directory gives.
pub open spec fn open_dir(path: Seq<char>) -> ActionView {
    ActionView::SwitchSessionWithCwd { name: dir_session_name(path), cwd: path }
}

/// What the picker's answer asks for. `key` is the key that was pressed,
/// `payload` the chosen line. The confirm key (no key, the empty key or
/// `enter`) switches to a session, or to the workspace of a directory;
/// `ctrl-d` kills a live session or purges an exited one; `ctrl-n` switches
/// to a new child of a session, or to the workspace of a directory.
/// Anything else, and an answer without a line, asks for nothing.
pub open spec fn session_action(
    sm: SessionManagerState,
    key: Option<Seq<char>>,
    payload: Option<Seq<char>>,
) -> Option<ActionView> {
    let pressed = match key {
        Some(k) => k,
        None => Seq::empty(),
    };
    match payload {
        None => None,
        Some(item) => {
            let (tag, value) = parsed_item(item);
            let session = tag == "session"@;
            let exited = tag == "exited"@;
            let dir = tag == "dir"@;
            if item.len() == 0 {
                None
            } else if pressed.len() == 0 || pressed == "enter"@ {
                if session || exited {
                    Some(ActionView::SwitchSession { name: value })
                } else if dir {
                    Some(open_dir(value))
                } else {
                    None
                }
            } else if pressed == "ctrl-d"@ {
                if session {
                    Some(ActionView::KillSession { name: value })
                } else if exited {
                    Some(ActionView::DeleteDeadSession { name: value })
                } else {
                    None
                }
            } else if pressed == "ctrl-n"@ {
                if session || exited {
                    Some(
                        ActionView::SwitchSession {
                            name: child_name(value, first_free(value, existing_names(sm))),
                        },
                    )
                } else if dir {
                    Some(open_dir(value))
                } else {
                    None
                }
            } else {
                None
            }
        },
    }
}

fn switch_to_dir(path: &str) -> (action: Action)
    ensures
        action@ == open_dir(path@),
{
    Action::SwitchSessionWithCwd { name: dir_to_session_name(path), cwd: String::from_str(path) }
}

/// Handles the picker's answer, a `session-action` invocation.
pub fn handle_session_action(sm: &SessionManagerState, pipe_message: &PipeMessage) -> (request:
    Option<Action>)
    ensures
        request_view(request) == session_action(
            *sm,
            arg_value(pipe_message.args@, "key"@),
            opt_text(pipe_message.payload),
        ),
{
    let key: &str = match pipe_message.arg("key") {
        Some(k) => k,
        None => {
            proof {
                reveal_strlit("");
            }
            ""
        },
    };
    let item: &str = match &pipe_message.payload {
        Some(i) => i.as_str(),
        None => {
            return None;
        },
    };
    if item.is_empty() {
        return None;
    }
    let (item_type, item_value) = parse_item(item);
    let session = same_text(item_type, "session");
    let exited = same_text(item_type, "exited");
    let dir = same_text(item_type, "dir");
    if key.is_empty() || same_text(key, "enter") {
        if session || exited {
            Some(Action::SwitchSession { name: String::from_str(item_value) })
        } else if dir {
            Some(switch_to_dir(item_value))
        } else {
            None
        }
    } else if same_text(key, "ctrl-d") {
        if session {
            Some(Action::KillSession { name: String::from_str(item_value) })
        } else if exited {
            Some(Action::DeleteDeadSession { name: String::from_str(item_value) })
        } else {
            None
        }
    } else if same_text(key, "ctrl-n") {
        if session || exited {
            Some(Action::SwitchSession { name: generate_child_name(item_value, sm) })
        } else if dir {
            Some(switch_to_dir(item_value))
        } else {
            None
        }
    } else {
        None
    }
}

} // verus!
