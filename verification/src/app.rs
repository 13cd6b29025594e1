//! The console's state and the decisions it makes on keys and backend replies.
//!
//! Nothing here performs I/O: a step returns [`Effect`]s (launch the backend,
//! send a request) for the caller to carry out, and the caller hands back what
//! happened (a reply, a log line, the backend's exit).

use vstd::prelude::*;
use vstd::string::*;
use std::collections::VecDeque;

use crate::command::BackendCommand;
use crate::config::{at_most, opt_view, AppConfig};
use crate::grouping::{
    all_labels, dimension_label, filter_matches, group_entries_for, is_listing_of, GroupDimension,
    GroupEntry, GroupFilter,
};
use crate::protocol::{
    ActionDescriptor, HealthStatus, LedgerInfo, LedgerSummary, LedgerTasks, RowHistoryEvent,
    RowView, RpcCall,
};
use crate::queue::{
    preset_admits, preset_admits_row, row_haystack_text, text_admits, trimmed_opt, QueuePreset,
};
use crate::text::{
    chars_of, clone_opt, contains_chars, decimal, lowercase, str_eq, string_from_chars,
    to_lowercase, trim, u64_to_decimal, usize_to_decimal, views,
};

verus! {

/// The screen on show.
#[derive(Debug, Clone, Copy, PartialEq, Eq, Structural)]
pub enum Screen {
    Startup,
    Dashboard,
    Queue,
    Groups,
    Detail,
    Bulk,
    Apply,
    Help,
}

/// The field of the startup form being edited.
#[derive(Debug, Clone, Copy, PartialEq, Eq, Structural)]
pub enum StartupField {
    BackendCommand,
    LedgerPath,
    TaskName,
}

/// The field after `f`, wrapping around.
pub open spec fn field_after(f: StartupField) -> StartupField {
    match f {
        StartupField::BackendCommand => StartupField::LedgerPath,
        StartupField::LedgerPath => StartupField::TaskName,
        StartupField::TaskName => StartupField::BackendCommand,
    }
}

/// The field before `f`, wrapping around.
pub open spec fn field_before(f: StartupField) -> StartupField {
    match f {
        StartupField::BackendCommand => StartupField::TaskName,
        StartupField::LedgerPath => StartupField::BackendCommand,
        StartupField::TaskName => StartupField::LedgerPath,
    }
}

impl StartupField {
    /// The next field, wrapping around.
    pub fn next(self) -> (out: Self)
        ensures
            out == field_after(self),
    {
        match self {
            StartupField::BackendCommand => StartupField::LedgerPath,
            StartupField::LedgerPath => StartupField::TaskName,
            StartupField::TaskName => StartupField::BackendCommand,
        }
    }

    /// The previous field, wrapping around.
    pub fn previous(self) -> (out: Self)
        ensures
            out == field_before(self),
    {
        match self {
            StartupField::BackendCommand => StartupField::TaskName,
            StartupField::LedgerPath => StartupField::BackendCommand,
            StartupField::TaskName => StartupField::LedgerPath,
        }
    }
}

/// Moving forward and back between startup fields undoes itself, and three
/// moves forward come back to the start.
pub proof fn law_startup_field_cycle(f: StartupField)
    ensures
        field_before(field_after(f)) == f,
        field_after(field_before(f)) == f,
        field_after(field_after(field_after(f))) == f,
{
}

/// The startup form.
#[derive(Debug)]
pub struct StartupForm {
    pub backend_command: String,
    pub ledger_path: String,
    pub task_name: String,
    pub active_field: StartupField,
}

/// A panel of the row detail screen.
#[derive(Debug, Clone, Copy, PartialEq, Eq, Structural)]
pub enum DetailTab {
    Overview,
    Preview,
    History,
}

/// The label of a detail panel.
pub open spec fn tab_label(t: DetailTab) -> Seq<char> {
    match t {
        DetailTab::Overview => "overview"@,
        DetailTab::Preview => "preview"@,
        DetailTab::History => "history"@,
    }
}

impl DetailTab {
    /// The panel's label.
    pub fn label(self) -> (out: &'static str)
        ensures
            out@ == tab_label(self),
    {
        match self {
            DetailTab::Overview => "overview",
            DetailTab::Preview => "preview",
            DetailTab::History => "history",
        }
    }
}

/// The row on the detail screen and what has arrived about it.
#[derive(Debug)]
pub struct DetailState {
    pub task_name: String,
    pub item_id: String,
    pub row: Option<RowView>,
    /// Pretty-printed JSON text.
    pub preview: Option<String>,
    pub history: Vec<RowHistoryEvent>,
    pub tab: DetailTab,
}

impl Default for DetailState {
    fn default() -> (out: Self)
        ensures
            out.task_name@.len() == 0,
            out.item_id@.len() == 0,
            out.row is None,
            out.preview is None,
            out.history@.len() == 0,
            out.tab == DetailTab::Overview,
    {
        DetailState {
            task_name: String::new(),
            item_id: String::new(),
            row: None,
            preview: None,
            history: Vec::new(),
            tab: DetailTab::Overview,
        }
    }
}

/// What a text prompt's value is for.
#[derive(Debug)]
pub enum TextInputTarget {
    QueueFilter,
    ApproveEdit { task_name: String, item_id: String },
    ExportPath,
}

/// What a confirmation, once given, does.
#[derive(Debug)]
pub enum ConfirmAction {
    /// `edits` is JSON text.
    Decision { task_name: String, item_id: String, action: String, edits: Option<String> },
    BulkInvoke { task_name: String, action: ActionDescriptor, item_ids: Vec<String> },
    Export { task_name: Option<String>, item_ids: Vec<String>, output: String },
}

/// A one-line text prompt.
#[derive(Debug)]
pub struct TextInputModal {
    pub title: String,
    pub value: String,
    pub target: TextInputTarget,
    pub hint: String,
}

/// A yes/no confirmation.
#[derive(Debug)]
pub struct ConfirmModal {
    pub title: String,
    pub body: String,
    pub action: ConfirmAction,
}

/// A message to acknowledge.
#[derive(Debug)]
pub struct InfoModal {
    pub title: String,
    pub body: String,
}

/// A dialog over the current screen.
#[derive(Debug)]
pub enum Modal {
    TextInput(TextInputModal),
    Confirm(ConfirmModal),
    Info(InfoModal),
}

/// The verdict of a startup check.
#[derive(Debug, Clone, Copy, PartialEq, Eq, Structural)]
pub enum CheckStatus {
    Pass,
    Warn,
    Fail,
}

/// One startup check.
#[derive(Debug)]
pub struct ValidationCheck {
    pub label: String,
    pub status: CheckStatus,
    pub detail: String,
}

/// What a sent request was for.
#[derive(Debug)]
pub enum PendingRequest {
    Health,
    Info,
    Tasks,
    Summary,
    Rows,
    Actions,
    DetailRow { task_name: String, item_id: String },
    DetailHistory { task_name: String, item_id: String },
    DetailPreview { task_name: String, item_id: String },
    /// `edits` is JSON text.
    ValidateForDecision { task_name: String, item_id: String, action: String, edits: Option<String> },
    ApplyDecision { task_name: String, item_id: String },
    InvokeAction { action: String },
    Export,
    Shutdown,
}

impl Clone for PendingRequest {
    fn clone(&self) -> (out: Self)
        ensures
            out == *self,
    {
        match self {
            PendingRequest::Health => PendingRequest::Health,
            PendingRequest::Info => PendingRequest::Info,
            PendingRequest::Tasks => PendingRequest::Tasks,
            PendingRequest::Summary => PendingRequest::Summary,
            PendingRequest::Rows => PendingRequest::Rows,
            PendingRequest::Actions => PendingRequest::Actions,
            PendingRequest::DetailRow { task_name, item_id } => PendingRequest::DetailRow {
                task_name: task_name.clone(),
                item_id: item_id.clone(),
            },
            PendingRequest::DetailHistory { task_name, item_id } => PendingRequest::DetailHistory {
                task_name: task_name.clone(),
                item_id: item_id.clone(),
            },
            PendingRequest::DetailPreview { task_name, item_id } => PendingRequest::DetailPreview {
                task_name: task_name.clone(),
                item_id: item_id.clone(),
            },
            PendingRequest::ValidateForDecision { task_name, item_id, action, edits } => PendingRequest::ValidateForDecision {
                task_name: task_name.clone(),
                item_id: item_id.clone(),
                action: action.clone(),
                edits: clone_opt(edits),
            },
            PendingRequest::ApplyDecision { task_name, item_id } => PendingRequest::ApplyDecision {
                task_name: task_name.clone(),
                item_id: item_id.clone(),
            },
            PendingRequest::InvokeAction { action } => PendingRequest::InvokeAction { action: action.clone() },
            PendingRequest::Export => PendingRequest::Export,
            PendingRequest::Shutdown => PendingRequest::Shutdown,
        }
    }
}

/// A request awaiting its reply.
#[derive(Debug)]
pub struct PendingEntry {
    pub id: String,
    pub request: PendingRequest,
}

/// The pending table as (id, request) pairs.
pub open spec fn pending_view(entries: Seq<PendingEntry>) -> Seq<(Seq<char>, PendingRequest)> {
    entries.map_values(|e: PendingEntry| (e.id@, e.request))
}

/// The pending table without any entry for `id`.
pub open spec fn pending_without(p: Seq<(Seq<char>, PendingRequest)>, id: Seq<char>) -> Seq<(Seq<char>, PendingRequest)>
    decreases p.len(),
{
    if p.len() == 0 {
        p
    } else {
        let rest = pending_without(p.drop_last(), id);
        if p.last().0 == id {
            rest
        } else {
            rest.push(p.last())
        }
    }
}

/// The request recorded for `id`, if any.
pub open spec fn pending_lookup(p: Seq<(Seq<char>, PendingRequest)>, id: Seq<char>) -> Option<PendingRequest>
    decreases p.len(),
{
    if p.len() == 0 {
        None
    } else if p.last().0 == id {
        Some(p.last().1)
    } else {
        pending_lookup(p.drop_last(), id)
    }
}

/// The pending table after recording `req` under `id`, replacing any earlier entry.
pub open spec fn pending_insert(p: Seq<(Seq<char>, PendingRequest)>, id: Seq<char>, req: PendingRequest) -> Seq<(Seq<char>, PendingRequest)> {
    pending_without(p, id).push((id, req))
}

/// The requests awaiting their replies, each under its id; no id occurs
/// twice (a map from id to request).
#[derive(Debug)]
pub struct PendingTable {
    entries: Vec<PendingEntry>,
}

impl View for PendingTable {
    type V = Seq<(Seq<char>, PendingRequest)>;

    /// The (id, request) pairs, oldest first.
    closed spec fn view(&self) -> Seq<(Seq<char>, PendingRequest)> {
        pending_view(self.entries@)
    }
}

impl PendingTable {
    #[verifier::type_invariant]
    spec fn ids_distinct(self) -> bool {
        ids_unique(pending_view(self.entries@))
    }

    /// An empty table.
    pub fn new() -> (out: Self)
        ensures
            out@ == Seq::<(Seq<char>, PendingRequest)>::empty(),
    {
        let out = PendingTable { entries: Vec::new() };
        proof {
            assert(pending_view(out.entries@) =~= Seq::<(Seq<char>, PendingRequest)>::empty());
        }
        out
    }

    /// No id occurs twice in the table.
    pub fn ids_are_unique(&self)
        ensures
            ids_unique(self@),
    {
        proof {
            use_type_invariant(self);
        }
    }

    /// The number of pending requests.
    pub fn len(&self) -> (n: usize)
        ensures
            n == self@.len(),
    {
        self.entries.len()
    }

    /// Whether no request is pending.
    pub fn is_empty(&self) -> (r: bool)
        ensures
            r == (self@.len() == 0),
    {
        self.entries.len() == 0
    }

    /// The ids, oldest first.
    pub fn ids(&self) -> (out: Vec<String>)
        ensures
            views(out@) == self@.map_values(|p: (Seq<char>, PendingRequest)| p.0),
    {
        let mut out: Vec<String> = Vec::new();
        let mut i: usize = 0;
        while i < self.entries.len()
            invariant
                i <= self.entries.len(),
                views(out@) == pending_view(self.entries@).take(i as int).map_values(|p: (Seq<char>, PendingRequest)| p.0),
            decreases self.entries.len() - i,
        {
            let ghost before = out@;
            let id = self.entries[i].id.clone();
            out.push(id);
            proof {
                let pv = pending_view(self.entries@);
                assert(views(out@) =~= views(before).push(self.entries@[i as int].id@));
                assert(pv.take(i + 1) =~= pv.take(i as int).push(pv[i as int]));
                assert(pv.take(i + 1).map_values(|p: (Seq<char>, PendingRequest)| p.0) =~= pv.take(i as int).map_values(|p: (Seq<char>, PendingRequest)| p.0).push(pv[i as int].0));
            }
            i = i + 1;
        }
        proof {
            assert(pending_view(self.entries@).take(self.entries@.len() as int) =~= pending_view(self.entries@));
        }
        out
    }

    /// The request pending under `id`, if any.
    pub fn lookup(&self, id: &str) -> (out: Option<PendingRequest>)
        ensures
            out == pending_lookup(self@, id@),
    {
        let ghost orig = pending_view(self.entries@);
        let mut found: Option<PendingRequest> = None;
        let mut i: usize = 0;
        proof {
            assert(orig.take(0) =~= Seq::<(Seq<char>, PendingRequest)>::empty());
        }
        while i < self.entries.len()
            invariant
                i <= self.entries.len(),
                orig == pending_view(self.entries@),
                found == pending_lookup(orig.take(i as int), id@),
            decreases self.entries.len() - i,
        {
            proof {
                assert(orig.take(i + 1).drop_last() =~= orig.take(i as int));
                assert(orig.take(i + 1).last() == (self.entries@[i as int].id@, self.entries@[i as int].request));
            }
            if str_eq(self.entries[i].id.as_str(), id) {
                found = Some(self.entries[i].request.clone());
            }
            i = i + 1;
        }
        proof {
            assert(orig.take(orig.len() as int) =~= orig);
        }
        found
    }

    /// Removes the request pending under `id`, returning it.
    pub fn take(&mut self, id: &str) -> (out: Option<PendingRequest>)
        ensures
            out == pending_lookup(old(self)@, id@),
            final(self)@ == pending_without(old(self)@, id@),
    {
        proof {
            use_type_invariant(&*self);
        }
        let ghost orig = pending_view(self.entries@);
        let mut kept: Vec<PendingEntry> = Vec::new();
        let mut found: Option<PendingRequest> = None;
        let mut i: usize = 0;
        proof {
            assert(orig.take(0) =~= Seq::<(Seq<char>, PendingRequest)>::empty());
        }
        while i < self.entries.len()
            invariant
                i <= self.entries.len(),
                orig == pending_view(self.entries@),
                found == pending_lookup(orig.take(i as int), id@),
                pending_view(kept@) == pending_without(orig.take(i as int), id@),
            decreases self.entries.len() - i,
        {
            proof {
                assert(orig.take(i + 1).drop_last() =~= orig.take(i as int));
                assert(orig.take(i + 1).last() == (self.entries@[i as int].id@, self.entries@[i as int].request));
            }
            let entry = &self.entries[i];
            if str_eq(entry.id.as_str(), id) {
                found = Some(entry.request.clone());
            } else {
                let ghost before = kept@;
                kept.push(PendingEntry { id: entry.id.clone(), request: entry.request.clone() });
                proof {
                    assert(pending_view(kept@) =~= pending_view(before).push((entry.id@, entry.request)));
                }
            }
            i = i + 1;
        }
        proof {
            assert(orig.take(orig.len() as int) =~= orig);
            law_reply_removes_its_request(orig, id@);
        }
        self.entries = kept;
        found
    }

    /// Records `req` under `id`, replacing any request pending under it.
    pub fn insert(&mut self, id: String, req: PendingRequest)
        ensures
            final(self)@ == pending_insert(old(self)@, id@, req),
    {
        let _ = self.take(id.as_str());
        proof {
            use_type_invariant(&*self);
            let p = pending_view(self.entries@);
            lemma_lookup_gone(pending_view(old(self).entries@), id@);
            lemma_lookup_none(p, id@);
        }
        let mut entries: Vec<PendingEntry> = Vec::new();
        std::mem::swap(&mut entries, &mut self.entries);
        let ghost before = entries@;
        let ghost key = id@;
        entries.push(PendingEntry { id, request: req });
        proof {
            let q = pending_view(entries@);
            let p = pending_view(before);
            assert(q =~= p.push((key, req)));
            assert forall|i: int, j: int| 0 <= i < j < q.len() implies #[trigger] q[i].0 != #[trigger] q[j].0 by {
                assert(q[i] == p[i]);
                if j < p.len() {
                    assert(q[j] == p[j]);
                }
            }
        }
        self.entries = entries;
    }
}

/// A key press.
#[derive(Debug, Clone, Copy, PartialEq, Eq, Structural)]
pub enum KeyCode {
    Char(char),
    Enter,
    Esc,
    Tab,
    BackTab,
    Backspace,
    Up,
    Down,
    PageUp,
    PageDown,
    Other,
}

/// The modifier keys held with a key press.
#[derive(Debug, Clone, Copy, PartialEq, Eq, Structural)]
pub enum KeyModifiers {
    /// No modifier held.
    Plain,
    Shift,
    Other,
}

/// A key press with its modifiers.
#[derive(Debug, Clone, Copy, PartialEq, Eq, Structural)]
pub struct KeyEvent {
    pub code: KeyCode,
    pub modifiers: KeyModifiers,
}

/// Work for the caller to carry out, in order.
#[derive(Debug)]
pub enum Effect {
    /// Start the backend with this command for this ledger and task.
    Launch { command: BackendCommand, ledger_path: String, task_name: Option<String> },
    /// Write this request, under this id, to the backend.
    Send { id: String, call: RpcCall },
}

/// What the local check of the ledger file found.
#[derive(Debug)]
pub enum LedgerProbe {
    /// A regular file.
    RegularFile,
    /// Something other than a regular file.
    NotRegularFile,
    /// The check failed; the error's message.
    Unavailable(String),
}

/// The console.
pub struct App {
    pub running: bool,
    pub screen: Screen,
    /// The screen to return to when help closes.
    pub previous_screen: Screen,
    pub config: AppConfig,
    pub startup: StartupForm,
    /// Whether a backend is attached.
    pub connected: bool,
    /// The command line the attached backend was started with.
    pub command_line: String,
    /// Requests awaiting replies.
    pub pending: PendingTable,
    /// The id the next request gets.
    pub next_request_id: u64,
    /// Newest first.
    pub notifications: VecDeque<String>,
    pub validation_checks: Vec<ValidationCheck>,
    pub ledger_info: Option<LedgerInfo>,
    pub health: Option<HealthStatus>,
    pub tasks: LedgerTasks,
    pub summary: LedgerSummary,
    pub all_rows: Vec<RowView>,
    pub current_task: Option<String>,
    pub queue_preset: QueuePreset,
    pub queue_filter: String,
    pub queue_selected: usize,
    pub group_dimension: GroupDimension,
    pub group_selected: usize,
    pub group_drill: Option<GroupFilter>,
    pub detail: DetailState,
    pub bulk_actions: Vec<ActionDescriptor>,
    pub bulk_selected: usize,
    pub modal: Option<Modal>,
}

/// How many notifications are kept.
pub const NOTIFICATION_LIMIT: usize = 8;

impl App {
    /// The pending table as (id, request) pairs.
    pub open spec fn pending_pairs(&self) -> Seq<(Seq<char>, PendingRequest)> {
        self.pending@
    }

    /// Whether a row is in the queue's scope: admitted by the preset and by
    /// the group drill-down if there is one.
    pub open spec fn in_scope(&self, row: RowView) -> bool {
        &&& preset_admits(self.queue_preset, row)
        &&& (self.group_drill matches Some(f) ==> filter_matches(f, row))
    }

    /// Whether a row is on show in the queue: in scope and admitted by the
    /// text filter.
    pub open spec fn row_visible(&self, row: RowView) -> bool {
        &&& preset_admits(self.queue_preset, row)
        &&& (self.group_drill matches Some(f) ==> filter_matches(f, row))
        &&& text_admits(lowercase(self.queue_filter@), row)
    }

    /// The rows of `rows` on show, in order.
    pub open spec fn visible_among(&self, rows: Seq<RowView>) -> Seq<RowView>
        decreases rows.len(),
    {
        if rows.len() == 0 {
            Seq::empty()
        } else {
            let kept = self.visible_among(rows.drop_last());
            if self.row_visible(rows.last()) {
                kept.push(rows.last())
            } else {
                kept
            }
        }
    }

    /// The rows on show in the queue, in order.
    pub open spec fn visible(&self) -> Seq<RowView> {
        self.visible_among(self.all_rows@)
    }

    /// The queue selection kept within the rows on show.
    pub open spec fn clamped_selection(&self) -> usize {
        let len = self.visible().len();
        if len == 0 {
            0
        } else if self.queue_selected >= len {
            (len - 1) as usize
        } else {
            self.queue_selected
        }
    }

    /// A fresh console on the startup screen, its form filled from the settings.
    pub fn new(config: AppConfig) -> (out: Self)
        ensures
            out.running,
            out.screen == Screen::Startup,
            out.previous_screen == Screen::Dashboard,
            out.config == config,
            opt_view(config.backend_command) matches Some(c) ==> out.startup.backend_command@ == c,
            config.backend_command is None ==> out.startup.backend_command@.len() == 0,
            opt_view(config.default_ledger_path) matches Some(c) ==> out.startup.ledger_path@ == c,
            config.default_ledger_path is None ==> out.startup.ledger_path@.len() == 0,
            opt_view(config.default_task_name) matches Some(c) ==> out.startup.task_name@ == c,
            config.default_task_name is None ==> out.startup.task_name@.len() == 0,
            out.startup.active_field == StartupField::BackendCommand,
            !out.connected,
            out.pending@.len() == 0,
            out.next_request_id == 1,
            out.summary.well_formed(),
            out.tasks.well_formed(),
            out.notifications@.len() == 0,
            out.validation_checks@.len() == 0,
            out.ledger_info is None,
            out.health is None,
            out.tasks.task_names@.len() == 0,
            out.tasks.registered_adapters@.len() == 0,
            out.summary.counts@.len() == 0,
            out.all_rows@.len() == 0,
            out.current_task is None,
            out.queue_preset == QueuePreset::Unresolved,
            out.queue_filter@.len() == 0,
            out.queue_selected == 0,
            out.group_dimension == GroupDimension::HumanStatus,
            out.group_selected == 0,
            out.group_drill is None,
            out.detail.row is None,
            out.bulk_actions@.len() == 0,
            out.bulk_selected == 0,
            out.modal is None,
    {
        let startup = StartupForm {
            backend_command: opt_or_empty(&config.backend_command),
            ledger_path: opt_or_empty(&config.default_ledger_path),
            task_name: opt_or_empty(&config.default_task_name),
            active_field: StartupField::BackendCommand,
        };
        App {
            running: true,
            screen: Screen::Startup,
            previous_screen: Screen::Dashboard,
            config,
            startup,
            connected: false,
            command_line: String::new(),
            pending: PendingTable::new(),
            next_request_id: 1,
            notifications: VecDeque::new(),
            validation_checks: Vec::new(),
            ledger_info: None,
            health: None,
            tasks: LedgerTasks::empty(),
            summary: LedgerSummary::empty(),
            all_rows: Vec::new(),
            current_task: None,
            queue_preset: QueuePreset::Unresolved,
            queue_filter: String::new(),
            queue_selected: 0,
            group_dimension: GroupDimension::HumanStatus,
            group_selected: 0,
            group_drill: None,
            detail: DetailState::default(),
            bulk_actions: Vec::new(),
            bulk_selected: 0,
            modal: None,
        }
    }

    /// Adds a notification at the front, keeping the newest few.
    pub fn push_notification(&mut self, message: String)
        ensures
            final(self).notifications@ == at_most(seq![message] + old(self).notifications@, NOTIFICATION_LIMIT as nat),
            *final(self) == (App { notifications: final(self).notifications, ..*old(self) }),
    {
        let ghost a = *self;
        let ghost full = seq![message] + self.notifications@;
        self.notifications.push_front(message);
        proof {
            assert(full.take(full.len() as int) =~= full);
        }
        while self.notifications.len() > NOTIFICATION_LIMIT
            invariant
                self.notifications@.len() <= full.len(),
                self.notifications@.len() >= if full.len() < NOTIFICATION_LIMIT { full.len() } else { NOTIFICATION_LIMIT as nat },
                self.notifications@ == full.take(self.notifications@.len() as int),
                *self == (App { notifications: self.notifications, ..a }),
            decreases self.notifications@.len(),
        {
            let ghost before = self.notifications@;
            let _ = self.notifications.pop_back();
            proof {
                assert(self.notifications@ =~= full.take(before.len() - 1));
            }
        }
    }

    /// Whether a row is on show, given the lower-cased filter text.
    fn row_visible_exec(&self, row: &RowView, needle: &Vec<char>) -> (r: bool)
        requires
            needle@ == lowercase(self.queue_filter@),
        ensures
            r == self.row_visible(*row),
    {
        if !preset_admits_row(self.queue_preset, row) {
            return false;
        }
        match &self.group_drill {
            Some(f) => {
                if !f.matches(row) {
                    return false;
                }
            },
            None => {},
        }
        if needle.len() == 0 {
            return true;
        }
        let haystack = row_haystack_text(row);
        let lowered = to_lowercase(haystack.as_str());
        let hv = chars_of(lowered.as_str());
        contains_chars(&hv, needle)
    }

    /// The rows on show in the queue, in order.
    pub fn visible_rows(&self) -> (out: Vec<&RowView>)
        ensures
            out@.len() == self.visible().len(),
            forall|i: int| 0 <= i < out@.len() ==> *out@[i] == #[trigger] self.visible()[i],
            self.queue_filter@.len() == 0 ==> forall|row: RowView| #[trigger] self.row_visible(row) <==> self.in_scope(row),
    {
        let lowered = to_lowercase(self.queue_filter.as_str());
        proof {
            if self.queue_filter@.len() == 0 {
                assert(lowercase(self.queue_filter@).len() == 0);
            }
        }
        let needle = chars_of(lowered.as_str());
        let mut out: Vec<&RowView> = Vec::new();
        let mut i: usize = 0;
        while i < self.all_rows.len()
            invariant
                i <= self.all_rows.len(),
                needle@ == lowercase(self.queue_filter@),
                out@.len() == self.visible_among(self.all_rows@.take(i as int)).len(),
                forall|k: int| 0 <= k < out@.len() ==> *out@[k] == #[trigger] self.visible_among(self.all_rows@.take(i as int))[k],
            decreases self.all_rows.len() - i,
        {
            let row = &self.all_rows[i];
            proof {
                assert(self.all_rows@.take(i + 1).drop_last() =~= self.all_rows@.take(i as int));
                assert(self.all_rows@.take(i + 1).last() == self.all_rows@[i as int]);
            }
            if self.row_visible_exec(row, &needle) {
                out.push(row);
            }
            i = i + 1;
        }
        proof {
            assert(self.all_rows@.take(self.all_rows@.len() as int) =~= self.all_rows@);
        }
        out
    }

    /// The selected row of the queue, if the selection is on a row.
    pub fn selected_row(&self) -> (out: Option<&RowView>)
        ensures
            self.queue_selected < self.visible().len() ==> (out matches Some(r) && *r == self.visible()[self.queue_selected as int]),
            self.queue_selected >= self.visible().len() ==> out is None,
    {
        let rows = self.visible_rows();
        if self.queue_selected < rows.len() {
            Some(rows[self.queue_selected])
        } else {
            None
        }
    }

    /// Whether the queue preset admits a row.
    pub fn matches_queue_preset(&self, row: &RowView) -> (r: bool)
        ensures
            r == preset_admits(self.queue_preset, *row),
    {
        preset_admits_row(self.queue_preset, row)
    }

    /// The groups of all rows along the selected dimension.
    pub fn group_entries(&self) -> (out: Vec<GroupEntry>)
        ensures
            is_listing_of(all_labels(self.group_dimension, self.all_rows@), out@),
    {
        group_entries_for(self.group_dimension, &self.all_rows)
    }

    /// For each dimension, its label and its five largest groups.
    pub fn dashboard_groups(&self) -> (out: Vec<(String, Vec<GroupEntry>)>)
        ensures
            out@.len() == 5,
            forall|k: int| 0 <= k < 5 ==> dashboard_entry(self.all_rows@, k, #[trigger] out@[k]),
    {
        let mut out: Vec<(String, Vec<GroupEntry>)> = Vec::new();
        let mut k: usize = 0;
        while k < 5
            invariant
                k <= 5,
                out@.len() == k,
                forall|m: int| 0 <= m < k ==> dashboard_entry(self.all_rows@, m, #[trigger] out@[m]),
            decreases 5 - k,
        {
            let d = dimension_at_exec(k);
            let mut entries = group_entries_for(d, &self.all_rows);
            let ghost full = entries@;
            entries.truncate(5);
            proof {
                assert(entries@ =~= at_most(full, 5));
            }
            let ghost before = out@;
            let name = String::from_str(d.label());
            let ghost e = (name, entries);
            out.push((name, entries));
            proof {
                assert(out@[k as int] == e);
                assert(e.0@ == dimension_label(d));
                assert(is_listing_of(all_labels(d, self.all_rows@), full) && e.1@ == at_most(full, 5));
                assert(dashboard_entry(self.all_rows@, k as int, out@[k as int]));
                assert forall|m: int| 0 <= m < k + 1 implies dashboard_entry(self.all_rows@, m, #[trigger] out@[m]) by {
                    if m < k {
                        assert(out@[m] == before[m]);
                    }
                }
            }
            k = k + 1;
        }
        out
    }
}

/// Dashboard entry `k`: the label of the `k`-th dimension and the first five
/// entries of that dimension's group listing.
pub open spec fn dashboard_entry(rows: Seq<RowView>, k: int, e: (String, Vec<GroupEntry>)) -> bool {
    let d = dimension_at(k);
    &&& e.0@ == dimension_label(d)
    &&& exists|full: Seq<GroupEntry>| is_listing_of(all_labels(d, rows), full) && e.1@ == at_most(full, 5)
}

// ---------------------------------------------------------------------------
// Summaries and checks
// ---------------------------------------------------------------------------

/// The status counts shown first, in this order.
pub open spec fn preferred_key_at(k: int) -> Seq<char> {
    if k == 0 { "total"@ }
    else if k == 1 { "unresolved"@ }
    else if k == 2 { "approved"@ }
    else if k == 3 { "needs_review"@ }
    else if k == 4 { "rejected"@ }
    else if k == 5 { "provider_error"@ }
    else if k == 6 { "not_run"@ }
    else if k == 7 { "reviewed"@ }
    else if k == 8 { "apply_ready"@ }
    else if k == 9 { "applied"@ }
    else { "superseded"@ }
}

/// How many status counts are shown first.
pub open spec fn preferred_key_count() -> int {
    11
}

/// The status names shown first.
pub open spec fn preferred_keys() -> Seq<Seq<char>> {
    Seq::new(preferred_key_count() as nat, |k: int| preferred_key_at(k))
}

fn preferred_key(k: usize) -> (out: &'static str)
    requires
        k < 11,
    ensures
        out@ == preferred_key_at(k as int),
{
    if k == 0 { "total" }
    else if k == 1 { "unresolved" }
    else if k == 2 { "approved" }
    else if k == 3 { "needs_review" }
    else if k == 4 { "rejected" }
    else if k == 5 { "provider_error" }
    else if k == 6 { "not_run" }
    else if k == 7 { "reviewed" }
    else if k == 8 { "apply_ready" }
    else if k == 9 { "applied" }
    else { "superseded" }
}

/// The count recorded for `key` (the first entry with that name), or 0.
pub open spec fn count_of(counts: Seq<(String, usize)>, key: Seq<char>) -> nat
    decreases counts.len(),
{
    if counts.len() == 0 {
        0
    } else if counts[0].0@ == key {
        counts[0].1 as nat
    } else {
        count_of(counts.drop_first(), key)
    }
}

/// With keys in order (each at most once), the count recorded for a key is
/// the value stored under it, as in a map.
pub proof fn law_count_of_reads_the_map(counts: Seq<(String, usize)>, k: int)
    requires
        crate::protocol::keys_ascending(counts),
        0 <= k < counts.len(),
    ensures
        count_of(counts, counts[k].0@) == counts[k].1,
    decreases k,
{
    if k > 0 {
        assert(crate::grouping::lex_less(counts[0].0@, counts[k].0@));
        crate::grouping::lemma_lex_irreflexive(counts[k].0@);
        let t = counts.drop_first();
        assert forall|i: int, j: int| 0 <= i < j < t.len() implies crate::grouping::lex_less(#[trigger] t[i].0@, #[trigger] t[j].0@) by {
            assert(t[i] == counts[i + 1] && t[j] == counts[j + 1]);
        }
        assert(t[k - 1] == counts[k]);
        law_count_of_reads_the_map(t, k - 1);
    }
}

/// The entries of `counts` whose names are not among `keys`, in order.
pub open spec fn other_counts(counts: Seq<(String, usize)>, keys: Seq<Seq<char>>) -> Seq<(Seq<char>, nat)>
    decreases counts.len(),
{
    if counts.len() == 0 {
        Seq::empty()
    } else {
        let rest = other_counts(counts.drop_last(), keys);
        if keys.contains(counts.last().0@) {
            rest
        } else {
            rest.push((counts.last().0@, counts.last().1 as nat))
        }
    }
}

proof fn lemma_other_counts_ordered(counts: Seq<(String, usize)>, keys: Seq<Seq<char>>)
    ensures
        forall|k: int| 0 <= k < other_counts(counts, keys).len() ==> exists|i: int|
            0 <= i < counts.len() && #[trigger] other_counts(counts, keys)[k].0 == counts[i].0@,
        crate::protocol::keys_ascending(counts) ==> forall|i: int, j: int|
            0 <= i < j < other_counts(counts, keys).len() ==> crate::grouping::lex_less(
                #[trigger] other_counts(counts, keys)[i].0,
                #[trigger] other_counts(counts, keys)[j].0,
            ),
    decreases counts.len(),
{
    if counts.len() > 0 {
        let t = counts.drop_last();
        lemma_other_counts_ordered(t, keys);
        let rest = other_counts(t, keys);
        let out = other_counts(counts, keys);
        assert forall|k: int| 0 <= k < out.len() implies exists|i: int|
            0 <= i < counts.len() && #[trigger] out[k].0 == counts[i].0@ by {
            if k < rest.len() {
                assert(out[k] == rest[k]);
                let i = choose|i: int| 0 <= i < t.len() && #[trigger] rest[k].0 == t[i].0@;
                assert(t[i] == counts[i]);
            } else {
                assert(out[k].0 == counts[counts.len() - 1].0@);
            }
        }
        if crate::protocol::keys_ascending(counts) {
            assert(crate::protocol::keys_ascending(t)) by {
                assert forall|i: int, j: int| 0 <= i < j < t.len() implies crate::grouping::lex_less(#[trigger] t[i].0@, #[trigger] t[j].0@) by {
                    assert(t[i] == counts[i] && t[j] == counts[j]);
                }
            }
            assert forall|i: int, j: int| 0 <= i < j < out.len() implies crate::grouping::lex_less(
                #[trigger] out[i].0,
                #[trigger] out[j].0,
            ) by {
                if j < rest.len() {
                    assert(out[i] == rest[i] && out[j] == rest[j]);
                } else {
                    assert(out[i] == rest[i]);
                    let m = choose|m: int| 0 <= m < t.len() && #[trigger] rest[i].0 == t[m].0@;
                    assert(t[m] == counts[m]);
                    assert(out[j].0 == counts[counts.len() - 1].0@);
                }
            }
        }
    }
}

/// The counts as the dashboard lists them: each preferred status with its
/// count (0 when absent), then every other status in the summary's order.
pub open spec fn snapshot_of(counts: Seq<(String, usize)>) -> Seq<(Seq<char>, nat)> {
    preferred_keys().map_values(|k: Seq<char>| (k, count_of(counts, k))) + other_counts(counts, preferred_keys())
}

/// A name and count pair, by value.
pub open spec fn count_pairs(v: Seq<(String, usize)>) -> Seq<(Seq<char>, nat)> {
    v.map_values(|p: (String, usize)| (p.0@, p.1 as nat))
}

/// The count listed under `key`: that of its first entry, or 0 when none.
pub fn lookup_count(counts: &Vec<(String, usize)>, key: &str) -> (out: usize)
    ensures
        out == count_of(counts@, key@),
{
    let mut i: usize = 0;
    proof {
        assert(counts@.skip(0) =~= counts@);
    }
    while i < counts.len()
        invariant
            i <= counts.len(),
            count_of(counts@, key@) == count_of(counts@.skip(i as int), key@),
        decreases counts.len() - i,
    {
        proof {
            assert(counts@.skip(i as int)[0] == counts@[i as int]);
            assert(counts@.skip(i as int).drop_first() =~= counts@.skip(i + 1));
        }
        if str_eq(counts[i].0.as_str(), key) {
            return counts[i].1;
        }
        i = i + 1;
    }
    0
}

fn is_preferred_key(key: &str) -> (r: bool)
    ensures
        r == preferred_keys().contains(key@),
{
    let mut k: usize = 0;
    while k < 11
        invariant
            k <= 11,
            forall|m: int| 0 <= m < k ==> preferred_key_at(m) != key@,
        decreases 11 - k,
    {
        if str_eq(preferred_key(k), key) {
            proof {
                assert(preferred_keys()[k as int] == key@);
            }
            return true;
        }
        k = k + 1;
    }
    proof {
        if preferred_keys().contains(key@) {
            let m = choose|m: int| 0 <= m < preferred_keys().len() && preferred_keys()[m] == key@;
            assert(preferred_key_at(m) == key@);
        }
    }
    false
}

/// The message of a backend exit: the exit code, or `signal` when there is none.
pub open spec fn exit_message(code: Option<i32>) -> Seq<char> {
    match code {
        Some(c) => "backend exited ("@ + crate::text::signed_decimal(c as int) + ")"@,
        None => "backend exited (signal)"@,
    }
}

/// The header status line.
pub open spec fn status_text(app: App) -> Seq<char> {
    let task = match app.current_task {
        Some(t) => t@,
        None => "all tasks"@,
    };
    let connection = if app.connected {
        "connected via "@ + app.command_line@
    } else {
        "disconnected"@
    };
    let pending = if app.pending@.len() == 0 {
        "idle"@
    } else {
        decimal(app.pending@.len()) + " pending"@
    };
    "task: "@ + task + " | "@ + connection + " | "@ + pending
}

/// A check by value: label, verdict, detail.
pub open spec fn check_view(c: ValidationCheck) -> (Seq<char>, CheckStatus, Seq<char>) {
    (c.label@, c.status, c.detail@)
}

/// What the ledger file check reports.
pub open spec fn ledger_file_check(path: Seq<char>, probe: LedgerProbe) -> (Seq<char>, CheckStatus, Seq<char>) {
    match probe {
        LedgerProbe::RegularFile => ("ledger exists/readable"@, CheckStatus::Pass, path),
        LedgerProbe::NotRegularFile => (
            "ledger exists/readable"@,
            CheckStatus::Warn,
            path + " exists but is not a regular file"@,
        ),
        LedgerProbe::Unavailable(e) => ("ledger exists/readable"@, CheckStatus::Warn, e@),
    }
}

/// Strings joined with a separator.
pub open spec fn joined(list: Seq<Seq<char>>, sep: Seq<char>) -> Seq<char>
    decreases list.len(),
{
    if list.len() == 0 {
        Seq::empty()
    } else if list.len() == 1 {
        list[0]
    } else {
        joined(list.drop_last(), sep) + sep + list.last()
    }
}

/// Strings joined with a separator.
pub fn join_strings(list: &Vec<String>, sep: &str) -> (out: String)
    ensures
        out@ == joined(views(list@), sep@),
{
    let mut out = String::new();
    let mut i: usize = 0;
    while i < list.len()
        invariant
            i <= list.len(),
            out@ == joined(views(list@).take(i as int), sep@),
        decreases list.len() - i,
    {
        proof {
            let t = views(list@).take(i + 1);
            assert(t.drop_last() =~= views(list@).take(i as int));
            assert(t.last() == list@[i as int]@);
            if i == 0 {
                assert(t.len() == 1);
            }
        }
        if i > 0 {
            out.append(sep);
        }
        out.append(list[i].as_str());
        i = i + 1;
    }
    proof {
        assert(views(list@).take(list@.len() as int) =~= views(list@));
    }
    out
}

/// The startup checks, in order.
pub open spec fn checks_for(app: App, probe: LedgerProbe) -> Seq<(Seq<char>, CheckStatus, Seq<char>)> {
    let health = match app.health {
        Some(h) => if h.status@ == "ok"@ {
            ("backend reachable"@, CheckStatus::Pass, h.ledger_path@)
        } else {
            ("backend reachable"@, CheckStatus::Warn, h.status@)
        },
        None => ("backend reachable"@, CheckStatus::Warn, "waiting for response"@),
    };
    let info = match app.ledger_info {
        Some(i) => if i.schema_version@ == "1.0"@ {
            ("schema/version"@, CheckStatus::Pass, "schema "@ + i.schema_version@ + " service "@ + i.service_version@)
        } else {
            ("schema/version"@, CheckStatus::Warn, "reported schema "@ + i.schema_version@)
        },
        None => ("schema/version"@, CheckStatus::Warn, "waiting for ledger.info"@),
    };
    let task = match trimmed_opt(app.startup.task_name@) {
        Some(t) => (
            "task selection"@,
            if app.tasks.task_names@.len() == 0 || views(app.tasks.task_names@).contains(t) {
                CheckStatus::Pass
            } else {
                CheckStatus::Warn
            },
            t,
        ),
        None => ("task selection"@, CheckStatus::Warn, "all tasks / not specified"@),
    };
    let adapters = if app.tasks.registered_adapters@.len() == 0 {
        ("registered adapters"@, CheckStatus::Warn, "no adapter metadata reported"@)
    } else {
        ("registered adapters"@, CheckStatus::Pass, joined(views(app.tasks.registered_adapters@), ", "@))
    };
    let unresolved = ("unresolved count"@, CheckStatus::Pass, decimal(count_of(app.summary.counts@, "unresolved"@)));
    let gap = "not exposed by current public backend"@;
    seq![
        ledger_file_check(trim(app.startup.ledger_path@), probe),
        health,
        info,
        task,
        adapters,
        unresolved,
        ("missing files"@, CheckStatus::Warn, gap),
        ("path drift"@, CheckStatus::Warn, gap),
        ("duplicate collisions"@, CheckStatus::Warn, gap),
        ("validation issues"@, CheckStatus::Warn, gap),
    ]
}

fn check(label: &str, status: CheckStatus, detail: String) -> (out: ValidationCheck)
    ensures
        check_view(out) == (label@, status, detail@),
{
    ValidationCheck { label: String::from_str(label), status, detail }
}

/// The ledger file check for `path`, from what the local probe found.
pub fn local_file_check(path: &str, probe: &LedgerProbe) -> (out: ValidationCheck)
    ensures
        check_view(out) == ledger_file_check(path@, *probe),
{
    match probe {
        LedgerProbe::RegularFile => check("ledger exists/readable", CheckStatus::Pass, String::from_str(path)),
        LedgerProbe::NotRegularFile => {
            let mut detail = String::from_str(path);
            detail.append(" exists but is not a regular file");
            check("ledger exists/readable", CheckStatus::Warn, detail)
        },
        LedgerProbe::Unavailable(e) => check("ledger exists/readable", CheckStatus::Warn, e.clone()),
    }
}

impl App {
    /// The counts as the dashboard lists them.
    pub fn counts_snapshot(&self) -> (out: Vec<(String, usize)>)
        ensures
            count_pairs(out@) == snapshot_of(self.summary.counts@),
            self.summary.well_formed() ==> forall|i: int, j: int|
                preferred_key_count() <= i < j < out@.len() ==> crate::grouping::lex_less(
                    #[trigger] out@[i].0@,
                    #[trigger] out@[j].0@,
                ),
    {
        let mut out: Vec<(String, usize)> = Vec::new();
        let mut k: usize = 0;
        while k < 11
            invariant
                k <= 11,
                count_pairs(out@) == preferred_keys().take(k as int).map_values(
                    |key: Seq<char>| (key, count_of(self.summary.counts@, key)),
                ),
            decreases 11 - k,
        {
            let key = preferred_key(k);
            let n = lookup_count(&self.summary.counts, key);
            let ghost before = out@;
            let name = String::from_str(key);
            out.push((name, n));
            proof {
                assert(count_pairs(out@) =~= count_pairs(before).push((key@, n as nat)));
                assert(preferred_keys().take(k + 1) =~= preferred_keys().take(k as int).push(preferred_key_at(k as int)));
                assert(count_pairs(out@) =~= preferred_keys().take(k + 1).map_values(
                    |key: Seq<char>| (key, count_of(self.summary.counts@, key)),
                ));
            }
            k = k + 1;
        }
        proof {
            assert(preferred_keys().take(11) =~= preferred_keys());
        }
        let ghost head = count_pairs(out@);
        let counts = &self.summary.counts;
        let mut i: usize = 0;
        while i < counts.len()
            invariant
                i <= counts.len(),
                counts == &self.summary.counts,
                count_pairs(out@) == head + other_counts(counts@.take(i as int), preferred_keys()),
            decreases counts.len() - i,
        {
            proof {
                assert(counts@.take(i + 1).drop_last() =~= counts@.take(i as int));
                assert(counts@.take(i + 1).last() == counts@[i as int]);
            }
            let ghost before = out@;
            if !is_preferred_key(counts[i].0.as_str()) {
                let name = counts[i].0.clone();
                out.push((name, counts[i].1));
                proof {
                    assert(count_pairs(out@) =~= count_pairs(before).push((counts@[i as int].0@, counts@[i as int].1 as nat)));
                    assert(count_pairs(out@) =~= head + other_counts(counts@.take(i + 1), preferred_keys()));
                }
            } else {
                proof {
                    assert(other_counts(counts@.take(i + 1), preferred_keys()) == other_counts(counts@.take(i as int), preferred_keys()));
                }
            }
            i = i + 1;
        }
        proof {
            assert(counts@.take(counts@.len() as int) =~= counts@);
            lemma_other_counts_ordered(counts@, preferred_keys());
            let others = other_counts(counts@, preferred_keys());
            let pairs = count_pairs(out@);
            if self.summary.well_formed() {
                assert forall|i: int, j: int|
                    preferred_key_count() <= i < j < out@.len() implies crate::grouping::lex_less(
                        #[trigger] out@[i].0@,
                        #[trigger] out@[j].0@,
                    ) by {
                    assert(pairs[i].0 == out@[i].0@ && pairs[j].0 == out@[j].0@);
                    assert(pairs[i] == others[i - 11]);
                    assert(pairs[j] == others[j - 11]);
                }
            }
        }
        out
    }

    /// The header status line: task, connection, and pending requests.
    pub fn status_line(&self) -> (out: String)
        ensures
            out@ == status_text(*self),
    {
        let mut out = String::from_str("task: ");
        match &self.current_task {
            Some(t) => out.append(t.as_str()),
            None => out.append("all tasks"),
        }
        out.append(" | ");
        if self.connected {
            out.append("connected via ");
            out.append(self.command_line.as_str());
        } else {
            out.append("disconnected");
        }
        out.append(" | ");
        if self.pending.len() == 0 {
            out.append("idle");
        } else {
            let n = usize_to_decimal(self.pending.len());
            out.append(n.as_str());
            out.append(" pending");
        }
        out
    }

    /// The trimmed ledger path of the startup form, the path the ledger file
    /// check is made on.
    pub fn ledger_path_to_probe(&self) -> (out: String)
        ensures
            out@ == trim(self.startup.ledger_path@),
    {
        crate::text::trim_str(self.startup.ledger_path.as_str())
    }

    /// Rebuilds the startup checks; `probe` is what the local check of the
    /// trimmed ledger path found.
    pub fn update_validation_checks(&mut self, probe: &LedgerProbe)
        ensures
            final(self).validation_checks@.map_values(|c: ValidationCheck| check_view(c))
                == checks_for(*old(self), *probe),
            *final(self) == (App { validation_checks: final(self).validation_checks, ..*old(self) }),
    {
        let ghost s0 = *self;
        let mut checks: Vec<ValidationCheck> = Vec::new();
        let path = crate::text::trim_str(self.startup.ledger_path.as_str());
        checks.push(local_file_check(path.as_str(), probe));

        let health = match &self.health {
            Some(h) => if str_eq(h.status.as_str(), "ok") {
                check("backend reachable", CheckStatus::Pass, h.ledger_path.clone())
            } else {
                check("backend reachable", CheckStatus::Warn, h.status.clone())
            },
            None => check("backend reachable", CheckStatus::Warn, String::from_str("waiting for response")),
        };
        checks.push(health);

        let info = match &self.ledger_info {
            Some(i) => if str_eq(i.schema_version.as_str(), "1.0") {
                let mut d = String::from_str("schema ");
                d.append(i.schema_version.as_str());
                d.append(" service ");
                d.append(i.service_version.as_str());
                check("schema/version", CheckStatus::Pass, d)
            } else {
                let mut d = String::from_str("reported schema ");
                d.append(i.schema_version.as_str());
                check("schema/version", CheckStatus::Warn, d)
            },
            None => check("schema/version", CheckStatus::Warn, String::from_str("waiting for ledger.info")),
        };
        checks.push(info);

        let task = match crate::queue::trimmed_option(self.startup.task_name.as_str()) {
            Some(t) => {
                let status = if self.tasks.task_names.len() == 0 || crate::text::list_contains(
                    &self.tasks.task_names,
                    t.as_str(),
                ) {
                    CheckStatus::Pass
                } else {
                    CheckStatus::Warn
                };
                check("task selection", status, t)
            },
            None => check("task selection", CheckStatus::Warn, String::from_str("all tasks / not specified")),
        };
        checks.push(task);

        let adapters = if self.tasks.registered_adapters.len() == 0 {
            check("registered adapters", CheckStatus::Warn, String::from_str("no adapter metadata reported"))
        } else {
            check("registered adapters", CheckStatus::Pass, join_strings(&self.tasks.registered_adapters, ", "))
        };
        checks.push(adapters);

        let unresolved = lookup_count(&self.summary.counts, "unresolved");
        checks.push(check("unresolved count", CheckStatus::Pass, usize_to_decimal(unresolved)));

        checks.push(check("missing files", CheckStatus::Warn, String::from_str("not exposed by current public backend")));
        checks.push(check("path drift", CheckStatus::Warn, String::from_str("not exposed by current public backend")));
        checks.push(check("duplicate collisions", CheckStatus::Warn, String::from_str("not exposed by current public backend")));
        checks.push(check("validation issues", CheckStatus::Warn, String::from_str("not exposed by current public backend")));
        proof {
            assert(checks@.map_values(|c: ValidationCheck| check_view(c)) =~= checks_for(s0, *probe));
        }
        self.validation_checks = checks;
    }
}

// ---------------------------------------------------------------------------
// Requests
// ---------------------------------------------------------------------------

/// The id `k` requests after `n`, wrapping around.
pub open spec fn id_advance(n: u64, k: int) -> u64 {
    ((n + k) % 0x1_0000_0000_0000_0000int) as u64
}

/// `e` sends `call` under the id `id`.
pub open spec fn is_send(e: Effect, id: Seq<char>, call: RpcCall) -> bool {
    e matches Effect::Send { id: i, call: c } && i@ == id && c == call
}

/// The pending table after recording `reqs` under consecutive ids from `n`.
pub open spec fn pending_after_sends(p: Seq<(Seq<char>, PendingRequest)>, n: u64, reqs: Seq<PendingRequest>) -> Seq<(Seq<char>, PendingRequest)>
    decreases reqs.len(),
{
    if reqs.len() == 0 {
        p
    } else {
        pending_insert(
            pending_after_sends(p, n, reqs.drop_last()),
            decimal(id_advance(n, reqs.len() - 1) as nat),
            reqs.last(),
        )
    }
}

/// From `a` to `b`, with effects `ea` growing to `eb`, the console sent
/// `calls` in order, recording `reqs` as what each was for; a console without
/// a backend sends nothing and changes nothing.
pub open spec fn sent(a: App, b: App, ea: Seq<Effect>, eb: Seq<Effect>, calls: Seq<RpcCall>, reqs: Seq<PendingRequest>) -> bool {
    if a.connected {
        &&& calls.len() == reqs.len()
        &&& b == (App { pending: b.pending, next_request_id: b.next_request_id, ..a })
        &&& b.next_request_id == id_advance(a.next_request_id, calls.len() as int)
        &&& b.pending_pairs() == pending_after_sends(a.pending_pairs(), a.next_request_id, reqs)
        &&& eb.len() == ea.len() + calls.len()
        &&& eb.subrange(0, ea.len() as int) == ea
        &&& forall|k: int| 0 <= k < calls.len() ==> is_send(
            #[trigger] eb[ea.len() + k],
            decimal(id_advance(a.next_request_id, k) as nat),
            calls[k],
        )
    } else {
        b == a && eb == ea
    }
}

proof fn lemma_id_advance_add(n: u64, a: int, b: int)
    requires
        a >= 0,
        b >= 0,
    ensures
        id_advance(id_advance(n, a), b) == id_advance(n, a + b),
{
    let m = 0x1_0000_0000_0000_0000int;
    let x = n + a;
    assert(0 <= x % m < m) by {
        vstd::arithmetic::div_mod::lemma_mod_bound(x, m);
    }
    assert(id_advance(n, a) as int == x % m);
    vstd::arithmetic::div_mod::lemma_add_mod_noop_right(b, x, m);
    assert((b + x % m) % m == (b + x) % m);
}

#[verifier::spinoff_prover]
proof fn lemma_sent_compose(
    a: App,
    m: App,
    b: App,
    ea: Seq<Effect>,
    em: Seq<Effect>,
    eb: Seq<Effect>,
    c1: Seq<RpcCall>,
    r1: Seq<PendingRequest>,
    c2: Seq<RpcCall>,
    r2: Seq<PendingRequest>,
)
    requires
        sent(a, m, ea, em, c1, r1),
        sent(m, b, em, eb, c2, r2),
        c1.len() == r1.len(),
        c2.len() == r2.len(),
    ensures
        sent(a, b, ea, eb, c1 + c2, r1 + r2),
{
    if a.connected {
        assert(m.connected);
        let n = a.next_request_id;
        lemma_pending_after_sends_append(a.pending_pairs(), n, r1, r2, r2.len() as int);
        assert(r2.take(r2.len() as int) =~= r2);
        assert((r1 + r2).take(r1.len() + r2.len() as int) =~= r1 + r2);
        assert(eb.subrange(0, ea.len() as int) =~= em.subrange(0, ea.len() as int));
        assert forall|k: int| 0 <= k < (c1 + c2).len() implies is_send(
            #[trigger] eb[ea.len() + k],
            decimal(id_advance(n, k) as nat),
            (c1 + c2)[k],
        ) by {
            if k < c1.len() {
                assert(eb[ea.len() + k] == em[ea.len() + k]);
            } else {
                let j = k - c1.len();
                assert(eb[em.len() + j] == eb[ea.len() + k]);
                lemma_id_advance_add(n, c1.len() as int, j);
            }
        }
    }
}

#[verifier::spinoff_prover]
proof fn lemma_pending_after_sends_append(
    p: Seq<(Seq<char>, PendingRequest)>,
    n: u64,
    r1: Seq<PendingRequest>,
    r2: Seq<PendingRequest>,
    k: int,
)
    requires
        0 <= k <= r2.len(),
    ensures
        pending_after_sends(pending_after_sends(p, n, r1), id_advance(n, r1.len() as int), r2.take(k))
            == pending_after_sends(p, n, (r1 + r2).take(r1.len() + k)),
    decreases k,
{
    let q = pending_after_sends(p, n, r1);
    let n2 = id_advance(n, r1.len() as int);
    if k == 0 {
        assert(r2.take(0) =~= Seq::<PendingRequest>::empty());
        assert((r1 + r2).take(r1.len() as int) =~= r1);
    } else {
        lemma_pending_after_sends_append(p, n, r1, r2, k - 1);
        assert(r2.take(k).drop_last() =~= r2.take(k - 1));
        assert((r1 + r2).take(r1.len() + k).drop_last() =~= (r1 + r2).take(r1.len() + k - 1));
        assert(r2.take(k).last() == (r1 + r2).take(r1.len() + k).last());
        lemma_id_advance_add(n, r1.len() as int, k - 1);
    }
}

proof fn lemma_lookup_gone(p: Seq<(Seq<char>, PendingRequest)>, id: Seq<char>)
    ensures
        pending_lookup(pending_without(p, id), id) is None,
{
    lemma_pending_without(p, id, id + seq!['x']);
}

/// Reading back the pending table: the request recorded last under an id is
/// the one found for it, other ids keep theirs, and after removal an id has none.
pub proof fn law_pending_table(p: Seq<(Seq<char>, PendingRequest)>, id: Seq<char>, other: Seq<char>, req: PendingRequest)
    requires
        other != id,
    ensures
        pending_lookup(pending_insert(p, id, req), id) == Some(req),
        pending_lookup(pending_insert(p, id, req), other) == pending_lookup(p, other),
        pending_lookup(pending_without(p, id), id) is None,
        pending_lookup(pending_without(p, id), other) == pending_lookup(p, other),
{
    lemma_pending_without(p, id, other);
    assert(pending_insert(p, id, req).drop_last() =~= pending_without(p, id));
}

/// Every pending id was issued below `next`: it is the decimal notation of a
/// smaller number.
pub open spec fn ids_issued_below(p: Seq<(Seq<char>, PendingRequest)>, next: u64) -> bool {
    forall|k: int| #![trigger p[k]] 0 <= k < p.len() ==> exists|n: nat| n < next && #[trigger] decimal(n) == p[k].0
}

proof fn lemma_without_absent(p: Seq<(Seq<char>, PendingRequest)>, id: Seq<char>)
    requires
        forall|k: int| 0 <= k < p.len() ==> #[trigger] p[k].0 != id,
    ensures
        pending_without(p, id) == p,
    decreases p.len(),
{
    if p.len() > 0 {
        assert(p[p.len() - 1].0 != id);
        lemma_without_absent(p.drop_last(), id);
        assert(p.drop_last().push(p.last()) =~= p);
    }
}

/// Sending never displaces a pending request: while the id counter has not
/// wrapped and every pending id was issued below it, a request is recorded
/// beside all pending ones, and every pending id stays issued below the
/// advanced counter. (Attaching a backend starts from no pending requests.)
pub proof fn law_send_keeps_pending(
    a: App,
    b: App,
    ea: Seq<Effect>,
    eb: Seq<Effect>,
    call: RpcCall,
    req: PendingRequest,
)
    requires
        a.connected,
        a.next_request_id < u64::MAX,
        ids_issued_below(a.pending_pairs(), a.next_request_id),
        sent(a, b, ea, eb, seq![call], seq![req]),
    ensures
        b.pending_pairs() == a.pending_pairs().push((decimal(a.next_request_id as nat), req)),
        b.next_request_id == a.next_request_id + 1,
        ids_issued_below(b.pending_pairs(), b.next_request_id),
        ids_unique(a.pending_pairs()) ==> ids_unique(b.pending_pairs()),
{
    let p = a.pending_pairs();
    let n = a.next_request_id;
    let id = decimal(n as nat);
    assert forall|k: int| 0 <= k < p.len() implies #[trigger] p[k].0 != id by {
        let m = choose|m: nat| m < n && #[trigger] decimal(m) == p[k].0;
        if p[k].0 == id {
            crate::text::lemma_decimal_injective(m, n as nat);
        }
    }
    lemma_without_absent(p, id);
    assert(id_advance(n, 0) == n);
    assert(seq![req].drop_last() =~= Seq::<PendingRequest>::empty());
    assert(pending_after_sends(p, n, Seq::<PendingRequest>::empty()) == p);
    assert(pending_after_sends(p, n, seq![req].drop_last()) == p);
    assert(seq![req].last() == req);
    assert(pending_after_sends(p, n, seq![req]) == pending_insert(p, id, req));
    assert(id_advance(n, 1) == n + 1);
    let q = b.pending_pairs();
    assert forall|k: int| #![trigger q[k]] 0 <= k < q.len() implies exists|m: nat| m < b.next_request_id && #[trigger] decimal(m) == q[k].0 by {
        if k < p.len() {
            assert(q[k] == p[k]);
            let m = choose|m: nat| m < n && #[trigger] decimal(m) == p[k].0;
            assert(decimal(m) == q[k].0);
        } else {
            assert(q[k].0 == decimal(n as nat));
        }
    }
    if ids_unique(p) {
        assert forall|i: int, j: int| 0 <= i < j < q.len() implies #[trigger] q[i].0 != #[trigger] q[j].0 by {
            if j == p.len() {
                assert(q[i] == p[i]);
                assert(p[i].0 != id);
            } else {
                assert(q[i] == p[i]);
                assert(q[j] == p[j]);
            }
        }
    }
}

/// No id occurs twice in the pending table.
pub open spec fn ids_unique(p: Seq<(Seq<char>, PendingRequest)>) -> bool {
    forall|i: int, j: int| 0 <= i < j < p.len() ==> #[trigger] p[i].0 != #[trigger] p[j].0
}

proof fn lemma_lookup_none(p: Seq<(Seq<char>, PendingRequest)>, id: Seq<char>)
    ensures
        pending_lookup(p, id) is None <==> forall|k: int| 0 <= k < p.len() ==> #[trigger] p[k].0 != id,
    decreases p.len(),
{
    if p.len() > 0 {
        lemma_lookup_none(p.drop_last(), id);
        if pending_lookup(p, id) is None {
            assert forall|k: int| 0 <= k < p.len() implies #[trigger] p[k].0 != id by {
                if k < p.len() - 1 {
                    assert(p.drop_last()[k] == p[k]);
                }
            }
        } else if p.last().0 != id {
            let k = choose|k: int| 0 <= k < p.drop_last().len() && #[trigger] p.drop_last()[k].0 == id;
            assert(p[k].0 == id);
        }
    }
}

/// A reply removes exactly its own request: in a table without repeated
/// ids, handling a reply whose id is pending removes that one entry and keeps
/// the others in order, so the table shrinks by one; a reply whose id is not
/// pending leaves the table as it is; and no id is repeated afterwards.
pub proof fn law_reply_removes_its_request(p: Seq<(Seq<char>, PendingRequest)>, id: Seq<char>)
    requires
        ids_unique(p),
    ensures
        pending_lookup(p, id) is None ==> pending_without(p, id) == p,
        pending_lookup(p, id) is Some ==> exists|k: int|
            0 <= k < p.len() && p[k].0 == id && #[trigger] p.remove(k) == pending_without(p, id),
        pending_lookup(p, id) is Some ==> pending_without(p, id).len() == p.len() - 1,
        ids_unique(pending_without(p, id)),
    decreases p.len(),
{
    lemma_lookup_none(p, id);
    if pending_lookup(p, id) is None {
        lemma_without_absent(p, id);
    } else {
        let t = p.drop_last();
        assert(ids_unique(t)) by {
            assert forall|i: int, j: int| 0 <= i < j < t.len() implies #[trigger] t[i].0 != #[trigger] t[j].0 by {
                assert(t[i] == p[i] && t[j] == p[j]);
            }
        }
        if p.last().0 == id {
            assert forall|k: int| 0 <= k < t.len() implies #[trigger] t[k].0 != id by {
                assert(t[k] == p[k]);
                assert(p[k].0 != p[p.len() - 1].0);
            }
            lemma_without_absent(t, id);
            let k = p.len() - 1;
            assert(p.remove(k) =~= t);
        } else {
            law_reply_removes_its_request(t, id);
            let k = choose|k: int| 0 <= k < t.len() && t[k].0 == id && #[trigger] t.remove(k) == pending_without(t, id);
            assert(p[k] == t[k]);
            assert(p.remove(k) =~= t.remove(k).push(p.last()));
        }
    }
    let w = pending_without(p, id);
    if pending_lookup(p, id) is Some {
        let k = choose|k: int| 0 <= k < p.len() && p[k].0 == id && #[trigger] p.remove(k) == pending_without(p, id);
        assert forall|i: int, j: int| 0 <= i < j < w.len() implies #[trigger] w[i].0 != #[trigger] w[j].0 by {
            let i2 = if i < k { i } else { i + 1 };
            let j2 = if j < k { j } else { j + 1 };
            assert(w[i] == p[i2]);
            assert(w[j] == p[j2]);
        }
    }
}

proof fn lemma_pending_without(p: Seq<(Seq<char>, PendingRequest)>, id: Seq<char>, other: Seq<char>)
    requires
        other != id,
    ensures
        pending_lookup(pending_without(p, id), id) is None,
        pending_lookup(pending_without(p, id), other) == pending_lookup(p, other),
    decreases p.len(),
{
    if p.len() > 0 {
        lemma_pending_without(p.drop_last(), id, other);
        let rest = pending_without(p.drop_last(), id);
        if p.last().0 != id {
            assert(rest.push(p.last()).drop_last() =~= rest);
        }
    }
}

impl App {
    /// Records `req` under `id`, replacing any earlier entry for `id`.
    fn record_pending(&mut self, id: String, req: PendingRequest)
        ensures
            final(self).pending_pairs() == pending_insert(old(self).pending_pairs(), id@, req),
            *final(self) == (App { pending: final(self).pending, ..*old(self) }),
    {
        self.pending.insert(id, req);
    }

    /// Removes every entry for `id`.
    pub fn discard_pending(&mut self, id: &str)
        ensures
            final(self).pending_pairs() == pending_without(old(self).pending_pairs(), id@),
            *final(self) == (App { pending: final(self).pending, ..*old(self) }),
    {
        let _ = self.take_pending(id);
    }

    /// Removes the entries for `id`, returning the request recorded last under it.
    pub fn take_pending(&mut self, id: &str) -> (out: Option<PendingRequest>)
        ensures
            out == pending_lookup(old(self).pending_pairs(), id@),
            final(self).pending_pairs() == pending_without(old(self).pending_pairs(), id@),
            *final(self) == (App { pending: final(self).pending, ..*old(self) }),
    {
        self.pending.take(id)
    }
}

// ---------------------------------------------------------------------------
// Sending and refreshing
// ---------------------------------------------------------------------------

/// The summary request for the current task scope.
pub open spec fn summary_call(a: App) -> RpcCall {
    RpcCall::Summary { task_name: a.current_task, include_superseded: true, include_approved: true }
}

/// The row list request for the current task scope.
pub open spec fn rows_call(a: App) -> RpcCall {
    RpcCall::RowsList {
        task_name: a.current_task,
        include_superseded: true,
        include_approved: true,
        with_view: true,
    }
}

/// From `a` to `b` the bulk actions were refreshed for the task scope: a
/// concrete task asks for its actions, no task clears them, and a console
/// without a backend does nothing.
pub open spec fn actions_refreshed(a: App, b: App, ea: Seq<Effect>, eb: Seq<Effect>) -> bool {
    if !a.connected {
        b == a && eb == ea
    } else {
        match a.current_task {
            Some(t) => sent(
                a,
                b,
                ea,
                eb,
                seq![RpcCall::ActionsList { task_name: t }],
                seq![PendingRequest::Actions],
            ),
            None => {
                &&& b == (App { bulk_actions: b.bulk_actions, ..a })
                &&& b.bulk_actions@.len() == 0
                &&& eb == ea
            },
        }
    }
}

/// From `a` to `b` the data was refreshed: the summary and the row list were
/// requested for the task scope, then the bulk actions were refreshed.
pub open spec fn refreshed(a: App, b: App, ea: Seq<Effect>, eb: Seq<Effect>) -> bool {
    exists|m: App, em: Seq<Effect>|
        #[trigger] sent(a, m, ea, em, refresh_calls(a), refresh_requests())
            && actions_refreshed(m, b, em, eb)
}

/// The summary and row list requests of a refresh.
pub open spec fn refresh_calls(a: App) -> Seq<RpcCall> {
    seq![summary_call(a), rows_call(a)]
}

/// What the summary and row list requests of a refresh are for.
pub open spec fn refresh_requests() -> Seq<PendingRequest> {
    seq![PendingRequest::Summary, PendingRequest::Rows]
}

impl App {
    /// Sends `call` to the backend (when one is attached) and records what it is for.
    fn send_request(&mut self, call: RpcCall, req: PendingRequest, effects: &mut Vec<Effect>)
        ensures
            sent(*old(self), *final(self), old(effects)@, final(effects)@, seq![call], seq![req]),
    {
        if !self.connected {
            return;
        }
        let ghost a = *self;
        let ghost ea = effects@;
        let id = u64_to_decimal(self.next_request_id);
        let recorded = id.clone();
        effects.push(Effect::Send { id, call });
        self.record_pending(recorded, req);
        self.next_request_id = if self.next_request_id == u64::MAX {
            0
        } else {
            self.next_request_id + 1
        };
        proof {
            assert(id_advance(a.next_request_id, 0) == a.next_request_id);
            assert(seq![req].drop_last() =~= Seq::<PendingRequest>::empty());
            assert(effects@.subrange(0, ea.len() as int) =~= ea);
            assert(is_send(effects@[ea.len() as int], decimal(id_advance(a.next_request_id, 0) as nat), seq![call][0]));
            assert(self.next_request_id == id_advance(a.next_request_id, 1));
            assert(pending_after_sends(a.pending_pairs(), a.next_request_id, Seq::<PendingRequest>::empty()) == a.pending_pairs());
            assert(pending_after_sends(a.pending_pairs(), a.next_request_id, seq![req].drop_last()) == a.pending_pairs());
            assert(seq![req].last() == req);
            assert(pending_after_sends(a.pending_pairs(), a.next_request_id, seq![req]) == pending_insert(a.pending_pairs(), decimal(a.next_request_id as nat), req));
            assert(self.pending_pairs() == pending_after_sends(a.pending_pairs(), a.next_request_id, seq![req]));
            assert(*self == (App { pending: self.pending, next_request_id: self.next_request_id, ..a }));
        }
    }

    /// Asks for the bulk actions of the task scope, or clears them when there is no task.
    pub fn refresh_actions_for_scope(&mut self, effects: &mut Vec<Effect>)
        ensures
            actions_refreshed(*old(self), *final(self), old(effects)@, final(effects)@),
    {
        if !self.connected {
            return;
        }
        match &self.current_task {
            Some(t) => {
                let name = t.clone();
                self.send_request(RpcCall::ActionsList { task_name: name }, PendingRequest::Actions, effects);
            },
            None => {
                self.bulk_actions.clear();
            },
        }
    }

    /// Asks for the summary, the rows and the bulk actions of the task scope,
    /// adding the requests to `effects`; does nothing without a backend.
    pub fn refresh_into(&mut self, effects: &mut Vec<Effect>)
        ensures
            refreshed(*old(self), *final(self), old(effects)@, final(effects)@),
    {
        let ghost a = *self;
        let ghost ea = effects@;
        let summary = RpcCall::Summary {
            task_name: clone_opt(&self.current_task),
            include_superseded: true,
            include_approved: true,
        };
        self.send_request(summary, PendingRequest::Summary, effects);
        let ghost m1 = *self;
        let ghost e1 = effects@;
        let rows = RpcCall::RowsList {
            task_name: clone_opt(&self.current_task),
            include_superseded: true,
            include_approved: true,
            with_view: true,
        };
        self.send_request(rows, PendingRequest::Rows, effects);
        let ghost m = *self;
        let ghost em = effects@;
        proof {
            lemma_sent_compose(a, m1, m, ea, e1, em, seq![summary_call(a)], seq![PendingRequest::Summary], seq![rows_call(a)], seq![PendingRequest::Rows]);
            assert(seq![summary_call(a)] + seq![rows_call(a)] =~= seq![summary_call(a), rows_call(a)]);
            assert(seq![PendingRequest::Summary] + seq![PendingRequest::Rows] =~= seq![PendingRequest::Summary, PendingRequest::Rows]);
            assert(sent(a, m, ea, em, refresh_calls(a), refresh_requests()));
        }
        self.refresh_actions_for_scope(effects);
    }

    /// Asks the backend for the summary, the rows and the bulk actions of the
    /// task scope; does nothing without a backend.
    pub fn refresh_data(&mut self) -> (out: Vec<Effect>)
        ensures
            refreshed(*old(self), *final(self), Seq::empty(), out@),
    {
        let mut effects: Vec<Effect> = Vec::new();
        self.refresh_into(&mut effects);
        effects
    }
}

// ---------------------------------------------------------------------------
// Selections, prompts and confirmations
// ---------------------------------------------------------------------------

/// A selection moved by `delta` and kept within `len` items (0 when there are none).
pub open spec fn clamp_move(sel: int, delta: int, len: int) -> int {
    if len <= 0 {
        0
    } else if sel + delta < 0 {
        0
    } else if sel + delta > len - 1 {
        len - 1
    } else {
        sel + delta
    }
}

fn clamp_move_exec(sel: usize, delta: isize, len: usize) -> (out: usize)
    ensures
        out == clamp_move(sel as int, delta as int, len as int),
{
    if len == 0 {
        return 0;
    }
    let target: i128 = sel as i128 + delta as i128;
    if target < 0 {
        0
    } else if target > (len - 1) as i128 {
        len - 1
    } else {
        target as usize
    }
}

/// `s` without its last character, or `s` when it is empty.
pub open spec fn without_last(s: Seq<char>) -> Seq<char> {
    if s.len() == 0 {
        s
    } else {
        s.drop_last()
    }
}

/// `s` without its last character (`String::pop`).
pub fn pop_char(s: &String) -> (out: String)
    ensures
        out@ == without_last(s@),
{
    let mut v = chars_of(s.as_str());
    if v.len() > 0 {
        v.pop();
    }
    string_from_chars(&v)
}

/// `s` with `c` appended (`String::push`).
pub fn push_char(s: &String, c: char) -> (out: String)
    ensures
        out@ == s@.push(c),
{
    let mut v = chars_of(s.as_str());
    v.push(c);
    string_from_chars(&v)
}

/// The item ids of rows, in order.
pub open spec fn item_ids(rows: Seq<RowView>) -> Seq<Seq<char>> {
    rows.map_values(|r: RowView| r.item_id@)
}

/// `m` is a text prompt with this title, value, target and hint.
pub open spec fn is_prompt(m: Option<Modal>, title: Seq<char>, value: Seq<char>, hint: Seq<char>) -> bool {
    m matches Some(Modal::TextInput(p)) && p.title@ == title && p.value@ == value && p.hint@ == hint
}

/// `m` is a message with this title and body.
pub open spec fn is_info(m: Option<Modal>, title: Seq<char>, body: Seq<char>) -> bool {
    m matches Some(Modal::Info(i)) && i.title@ == title && i.body@ == body
}

/// `m` is a confirmation with this title and body.
pub open spec fn is_confirm(m: Option<Modal>, title: Seq<char>, body: Seq<char>) -> bool {
    m matches Some(Modal::Confirm(c)) && c.title@ == title && c.body@ == body
}

/// The body of a confirmation of a decision on the detail row.
pub open spec fn decision_body(d: DetailState, action: Seq<char>) -> Seq<char> {
    match d.row {
        Some(r) => "Apply '"@ + action + "' to "@ + r.task_name@ + ":"@ + r.item_id@ + "?\n\n"@
            + r.rendered_summary@,
        None => "Apply '"@ + action + "' to "@ + d.task_name@ + ":"@ + d.item_id@ + "?"@,
    }
}

/// The validity of JSON text, as the JSON decoder judges it; a function of the text alone.
pub uninterp spec fn valid_json(text: Seq<char>) -> bool;

/// `serde_json::from_str::<serde_json::Value>`: the claim is only that whether
/// the text decodes is the named judgement of its characters.
#[verifier::external_body]
fn json_text_is_valid(text: &str) -> (r: bool)
    ensures
        r == valid_json(text@),
{
    serde_json::from_str::<serde_json::Value>(text).is_ok()
}

/// The message when approve-with-edit input is not JSON.
pub open spec fn invalid_edit_message() -> Seq<char> {
    "approve-with-edit input must be valid JSON"@
}

impl App {
    /// Moves the queue selection by `delta`, within the rows on show.
    pub fn move_queue_selection(&mut self, delta: isize)
        ensures
            *final(self) == (App {
                queue_selected: clamp_move(old(self).queue_selected as int, delta as int, old(self).visible().len() as int) as usize,
                ..*old(self)
            }),
    {
        let len = self.visible_rows().len();
        self.queue_selected = clamp_move_exec(self.queue_selected, delta, len);
    }

    /// Moves the group selection by `delta`, within the groups listed.
    pub fn move_group_selection(&mut self, delta: isize)
        ensures
            exists|l: Seq<GroupEntry>|
                #[trigger] is_listing_of(all_labels(old(self).group_dimension, old(self).all_rows@), l)
                && *final(self) == (App {
                    group_selected: clamp_move(old(self).group_selected as int, delta as int, l.len() as int) as usize,
                    ..*old(self)
                }),
    {
        let entries = self.group_entries();
        self.group_selected = clamp_move_exec(self.group_selected, delta, entries.len());
    }

    /// Moves the bulk action selection by `delta`, within the actions listed.
    pub fn move_bulk_selection(&mut self, delta: isize)
        ensures
            *final(self) == (App {
                bulk_selected: clamp_move(old(self).bulk_selected as int, delta as int, old(self).bulk_actions@.len() as int) as usize,
                ..*old(self)
            }),
    {
        self.bulk_selected = clamp_move_exec(self.bulk_selected, delta, self.bulk_actions.len());
    }

    /// Keeps the queue selection within the rows on show.
    pub fn clamp_queue_selection(&mut self)
        ensures
            *final(self) == (App { queue_selected: old(self).clamped_selection(), ..*old(self) }),
    {
        let len = self.visible_rows().len();
        if len == 0 {
            self.queue_selected = 0;
        } else if self.queue_selected >= len {
            self.queue_selected = len - 1;
        }
    }

    /// Opens the queue on the selected group.
    pub fn drill_into_group(&mut self)
        ensures
            exists|l: Seq<GroupEntry>|
                #[trigger] is_listing_of(all_labels(old(self).group_dimension, old(self).all_rows@), l) && if old(self).group_selected < l.len() {
                    *final(self) == (App {
                        group_drill: Some(GroupFilter { dimension: old(self).group_dimension, value: l[old(self).group_selected as int].label }),
                        queue_preset: QueuePreset::Group,
                        queue_selected: 0,
                        screen: Screen::Queue,
                        ..*old(self)
                    })
                } else {
                    *final(self) == *old(self)
                },
    {
        let entries = self.group_entries();
        if self.group_selected >= entries.len() {
            return;
        }
        let label = entries[self.group_selected].label.clone();
        self.group_drill = Some(GroupFilter { dimension: self.group_dimension, value: label });
        self.queue_preset = QueuePreset::Group;
        self.queue_selected = 0;
        self.screen = Screen::Queue;
    }

    /// The item ids of the rows on show.
    fn visible_item_ids(&self) -> (out: Vec<String>)
        ensures
            views(out@) == item_ids(self.visible()),
    {
        let rows = self.visible_rows();
        let mut out: Vec<String> = Vec::new();
        let mut i: usize = 0;
        while i < rows.len()
            invariant
                i <= rows.len(),
                rows@.len() == self.visible().len(),
                forall|k: int| 0 <= k < rows@.len() ==> *rows@[k] == #[trigger] self.visible()[k],
                views(out@) == item_ids(self.visible()).take(i as int),
            decreases rows.len() - i,
        {
            let ghost before = out@;
            out.push(rows[i].item_id.clone());
            proof {
                assert(*rows@[i as int] == self.visible()[i as int]);
                assert(views(out@) =~= views(before).push(self.visible()[i as int].item_id@));
                assert(item_ids(self.visible()).take(i + 1) =~= item_ids(self.visible()).take(i as int).push(self.visible()[i as int].item_id@));
            }
            i = i + 1;
        }
        proof {
            assert(item_ids(self.visible()).take(i as int) =~= item_ids(self.visible()));
        }
        out
    }

    /// Asks to confirm a decision on the detail row; nothing without a row.
    pub fn confirm_builtin_decision(&mut self, action: &str, edits: Option<String>)
        ensures
            decision_confirm_post(*old(self), *final(self), action@, edits),
    {
        if self.detail.task_name.as_str().is_empty() || self.detail.item_id.as_str().is_empty() {
            return;
        }
        let mut title = String::from_str("Confirm ");
        title.append(action);
        let mut body = String::from_str("Apply '");
        body.append(action);
        body.append("' to ");
        match &self.detail.row {
            Some(row) => {
                body.append(row.task_name.as_str());
                body.append(":");
                body.append(row.item_id.as_str());
                body.append("?\n\n");
                body.append(row.rendered_summary.as_str());
            },
            None => {
                body.append(self.detail.task_name.as_str());
                body.append(":");
                body.append(self.detail.item_id.as_str());
                body.append("?");
            },
        }
        self.modal = Some(Modal::Confirm(ConfirmModal {
            title,
            body,
            action: ConfirmAction::Decision {
                task_name: self.detail.task_name.clone(),
                item_id: self.detail.item_id.clone(),
                action: String::from_str(action),
                edits,
            },
        }));
    }

    /// Asks to confirm running the selected bulk action on the rows on show.
    pub fn confirm_bulk_action(&mut self)
        ensures
            bulk_confirm_post(*old(self), *final(self)),
    {
        let task_name = match &self.current_task {
            Some(t) => t.clone(),
            None => {
                self.modal = Some(Modal::Info(InfoModal {
                    title: String::from_str("Task Required"),
                    body: String::from_str("Bulk actions require a concrete task selection. Press 't' to cycle tasks first."),
                }));
                return;
            },
        };
        if self.bulk_selected >= self.bulk_actions.len() {
            return;
        }
        let action = self.bulk_actions[self.bulk_selected].clone();
        if action.requires_edits {
            self.modal = Some(Modal::Info(InfoModal {
                title: String::from_str("Bulk Edits Unsupported"),
                body: String::from_str("This action requires edits. v1 only supports bulk invocation for actions without edit payloads."),
            }));
            return;
        }
        let ids = self.visible_item_ids();
        proof {
            assert(views(ids@).len() == ids@.len());
            assert(item_ids(self.visible()).len() == self.visible().len());
        }
        if ids.len() == 0 {
            return;
        }
        let mut title = String::from_str("Run ");
        title.append(action.name.as_str());
        let mut body = String::from_str("Invoke '");
        body.append(action.name.as_str());
        body.append("' on ");
        let n = usize_to_decimal(ids.len());
        body.append(n.as_str());
        body.append(" rows in the current queue scope?");
        self.modal = Some(Modal::Confirm(ConfirmModal {
            title,
            body,
            action: ConfirmAction::BulkInvoke { task_name, action, item_ids: ids },
        }));
    }

    /// Prompts for the file to export the queue to.
    pub fn open_export_prompt(&mut self)
        ensures
            export_prompt_post(*old(self), *final(self)),
    {
        self.modal = Some(Modal::TextInput(TextInputModal {
            title: String::from_str("Export Snapshot"),
            value: String::from_str("respkit-snapshot.md"),
            target: TextInputTarget::ExportPath,
            hint: String::from_str("Write .md, .csv, or .jsonl for the current queue scope"),
        }));
    }
}

// ---------------------------------------------------------------------------
// Opening rows, submitting prompts and confirmations
// ---------------------------------------------------------------------------

/// `m` is `a` with the detail screen opened on row `r`.
pub open spec fn detail_opened(a: App, m: App, r: RowView) -> bool {
    &&& m == (App { detail: m.detail, screen: Screen::Detail, ..a })
    &&& m.detail.task_name == r.task_name
    &&& m.detail.item_id == r.item_id
    &&& m.detail.row matches Some(x) && crate::protocol::same_row(x, r)
    &&& m.detail.preview is None
    &&& m.detail.history@.len() == 0
    &&& m.detail.tab == DetailTab::Overview
}

/// The requests that load a row's detail.
pub open spec fn detail_calls(r: RowView) -> Seq<RpcCall> {
    seq![
        RpcCall::RowGet { task_name: r.task_name, item_id: r.item_id, with_view: true },
        RpcCall::RowHistory { task_name: r.task_name, item_id: r.item_id },
        RpcCall::RowPreview { task_name: r.task_name, item_id: r.item_id },
    ]
}

/// What the requests that load a row's detail are for.
pub open spec fn detail_requests(r: RowView) -> Seq<PendingRequest> {
    seq![
        PendingRequest::DetailRow { task_name: r.task_name, item_id: r.item_id },
        PendingRequest::DetailHistory { task_name: r.task_name, item_id: r.item_id },
        PendingRequest::DetailPreview { task_name: r.task_name, item_id: r.item_id },
    ]
}

/// From `a` to `b` the selected row was opened: the detail screen shows it
/// and its row, history and preview were requested; with no row selected
/// nothing happens.
pub open spec fn row_opened(a: App, b: App, ea: Seq<Effect>, eb: Seq<Effect>) -> bool {
    if a.queue_selected >= a.visible().len() {
        b == a && eb == ea
    } else {
        let r = a.visible()[a.queue_selected as int];
        exists|m: App| #[trigger] detail_opened(a, m, r) && sent(m, b, ea, eb, detail_calls(r), detail_requests(r))
    }
}

/// The first index of `x` in `s`, or 0 when it does not occur.
pub open spec fn index_or_zero(s: Seq<Seq<char>>, x: Seq<char>) -> int
    decreases s.len(),
{
    if s.len() == 0 {
        0
    } else if s[0] == x {
        0
    } else if s.drop_first().contains(x) {
        1 + index_or_zero(s.drop_first(), x)
    } else {
        0
    }
}

/// The task scopes `t` cycles through: all tasks (the empty name), then each task.
pub open spec fn task_cycle(a: App) -> Seq<Seq<char>> {
    seq![Seq::<char>::empty()] + views(a.tasks.task_names@)
}

/// The task scope after the current one.
pub open spec fn next_task_scope(a: App) -> Option<Seq<char>> {
    let list = task_cycle(a);
    let current = match a.current_task {
        Some(t) => t@,
        None => Seq::empty(),
    };
    trimmed_opt(list[(index_or_zero(list, current) + 1) % (list.len() as int)])
}

/// The text of an optional name, empty for none.
pub open spec fn text_or_empty(o: Option<Seq<char>>) -> Seq<char> {
    match o {
        Some(t) => t,
        None => Seq::empty(),
    }
}

impl App {
    /// Opens the selected row on the detail screen and asks for its details.
    pub fn open_selected_row(&mut self, effects: &mut Vec<Effect>)
        ensures
            row_opened(*old(self), *final(self), old(effects)@, final(effects)@),
    {
        let ghost a = *self;
        let ghost ea = effects@;
        let row = match self.selected_row() {
            Some(r) => r.clone(),
            None => {
                return;
            },
        };
        let ghost r = a.visible()[a.queue_selected as int];
        self.detail = DetailState {
            task_name: row.task_name.clone(),
            item_id: row.item_id.clone(),
            row: Some(row.clone()),
            preview: None,
            history: Vec::new(),
            tab: DetailTab::Overview,
        };
        self.screen = Screen::Detail;
        let ghost m = *self;
        proof {
            assert(detail_opened(a, m, r));
        }
        self.send_request(
            RpcCall::RowGet { task_name: row.task_name.clone(), item_id: row.item_id.clone(), with_view: true },
            PendingRequest::DetailRow { task_name: row.task_name.clone(), item_id: row.item_id.clone() },
            effects,
        );
        let ghost m1 = *self;
        let ghost e1 = effects@;
        self.send_request(
            RpcCall::RowHistory { task_name: row.task_name.clone(), item_id: row.item_id.clone() },
            PendingRequest::DetailHistory { task_name: row.task_name.clone(), item_id: row.item_id.clone() },
            effects,
        );
        let ghost m2 = *self;
        let ghost e2 = effects@;
        self.send_request(
            RpcCall::RowPreview { task_name: row.task_name.clone(), item_id: row.item_id.clone() },
            PendingRequest::DetailPreview { task_name: row.task_name.clone(), item_id: row.item_id.clone() },
            effects,
        );
        proof {
            let c = detail_calls(r);
            let q = detail_requests(r);
            lemma_sent_compose(m, m1, m2, ea, e1, e2, seq![c[0]], seq![q[0]], seq![c[1]], seq![q[1]]);
            lemma_sent_compose(m, m2, *self, ea, e2, effects@, seq![c[0]] + seq![c[1]], seq![q[0]] + seq![q[1]], seq![c[2]], seq![q[2]]);
            assert(seq![c[0]] + seq![c[1]] + seq![c[2]] =~= c);
            assert(seq![q[0]] + seq![q[1]] + seq![q[2]] =~= q);
        }
    }

    fn submit_edit_into(
        &mut self,
        task_name: String,
        item_id: String,
        edits: String,
        is_json: bool,
        effects: &mut Vec<Effect>,
    ) -> (out: Result<(), String>)
        ensures
            edit_submitted(*old(self), *final(self), old(effects)@, final(effects)@, task_name, item_id, edits@, is_json, out),
    {
        if !is_json {
            return Err(String::from_str("approve-with-edit input must be valid JSON"));
        }
        let act = String::from_str("approve_with_edit");
        let call = RpcCall::Validate {
            task_name: task_name.clone(),
            item_id: item_id.clone(),
            edits: edits.clone(),
            derive_output: true,
        };
        self.send_request(
            call,
            PendingRequest::ValidateForDecision { task_name, item_id, action: act, edits: Some(edits) },
            effects,
        );
        Ok(())
    }

    /// Acts on approve-with-edit input `edits` for the row `task_name` /
    /// `item_id`, given whether the input is JSON (`is_json`): input that is
    /// not JSON is refused; otherwise returns the request asking the backend
    /// to validate the edited decision.
    pub fn submit_approve_edit(
        &mut self,
        task_name: String,
        item_id: String,
        edits: String,
        is_json: bool,
    ) -> (out: Result<Vec<Effect>, String>)
        ensures
            out matches Ok(effects) ==> edit_submitted(
                *old(self),
                *final(self),
                Seq::empty(),
                effects@,
                task_name,
                item_id,
                edits@,
                is_json,
                Ok(()),
            ),
            out matches Err(e) ==> edit_submitted(
                *old(self),
                *final(self),
                Seq::empty(),
                Seq::empty(),
                task_name,
                item_id,
                edits@,
                is_json,
                Err(e),
            ),
    {
        let mut effects: Vec<Effect> = Vec::new();
        match self.submit_edit_into(task_name, item_id, edits, is_json, &mut effects) {
            Ok(()) => Ok(effects),
            Err(e) => Err(e),
        }
    }

    /// Acts on a submitted text prompt.
    pub fn submit_text_input(&mut self, prompt: TextInputModal, effects: &mut Vec<Effect>) -> (out: Result<(), String>)
        ensures
            text_submitted(*old(self), *final(self), old(effects)@, final(effects)@, prompt, out),
    {
        match prompt.target {
            TextInputTarget::QueueFilter => {
                self.queue_filter = crate::text::trim_str(prompt.value.as_str());
                self.clamp_queue_selection();
                Ok(())
            },
            TextInputTarget::ApproveEdit { task_name, item_id } => {
                let edits = crate::text::trim_str(prompt.value.as_str());
                let is_json = json_text_is_valid(edits.as_str());
                self.submit_edit_into(task_name, item_id, edits, is_json, effects)
            },
            TextInputTarget::ExportPath => {
                let output = crate::text::trim_str(prompt.value.as_str());
                if output.as_str().is_empty() {
                    return Ok(());
                }
                let ids = self.visible_item_ids();
                proof {
                    assert(views(ids@).len() == ids@.len());
                    assert(item_ids(self.visible()).len() == self.visible().len());
                }
                let mut body = String::from_str("Export ");
                let n = usize_to_decimal(ids.len());
                body.append(n.as_str());
                body.append(" rows to ");
                body.append(output.as_str());
                body.append("?");
                self.modal = Some(Modal::Confirm(ConfirmModal {
                    title: String::from_str("Confirm Export"),
                    body,
                    action: ConfirmAction::Export { task_name: clone_opt(&self.current_task), item_ids: ids, output },
                }));
                Ok(())
            },
        }
    }

    /// Carries out a confirmed action by sending its request.
    pub fn submit_confirm(&mut self, action: ConfirmAction, effects: &mut Vec<Effect>)
        ensures
            confirmed(*old(self), *final(self), old(effects)@, final(effects)@, action),
    {
        match action {
            ConfirmAction::Decision { task_name, item_id, action, edits } => {
                let req = PendingRequest::ApplyDecision { task_name: task_name.clone(), item_id: item_id.clone() };
                self.send_request(
                    RpcCall::Decide { task_name, item_id, action, edits, apply: true },
                    req,
                    effects,
                );
            },
            ConfirmAction::BulkInvoke { task_name, action, item_ids } => {
                let req = PendingRequest::InvokeAction { action: action.name.clone() };
                self.send_request(
                    RpcCall::Invoke { task_name, action: action.name, item_ids, apply: action.builtin },
                    req,
                    effects,
                );
            },
            ConfirmAction::Export { task_name, item_ids, output } => {
                let format = String::from_str(crate::queue::export_format_from_path(output.as_str()));
                self.send_request(
                    RpcCall::Export {
                        task_name,
                        item_ids,
                        format,
                        output,
                        include_superseded: true,
                        include_approved: true,
                    },
                    PendingRequest::Export,
                    effects,
                );
            },
        }
    }
}

/// From `a` to `b` a decision named `action` on the detail row was put up for
/// confirmation; without a detail row nothing happens.
pub open spec fn decision_confirm_post(a: App, b: App, action: Seq<char>, edits: Option<String>) -> bool {
    &&& (a.detail.task_name@.len() == 0 || a.detail.item_id@.len() == 0) ==> b == a
    &&& (a.detail.task_name@.len() > 0 && a.detail.item_id@.len() > 0) ==> {
        &&& b == (App { modal: b.modal, ..a })
        &&& is_confirm(b.modal, "Confirm "@ + action, decision_body(a.detail, action))
        &&& b.modal matches Some(Modal::Confirm(c)) && c.action == (ConfirmAction::Decision {
            task_name: a.detail.task_name,
            item_id: a.detail.item_id,
            action: c.action->Decision_action,
            edits,
        }) && c.action->Decision_action@ == action
    }
}

/// From `a` to `b` the selected bulk action was put up for confirmation on the
/// rows on show, or the reason it cannot run was shown, or nothing happened
/// when there is no action selected or no row on show.
pub open spec fn bulk_confirm_post(a: App, b: App) -> bool {
    &&& a.current_task is None ==> {
        &&& b == (App { modal: b.modal, ..a })
        &&& is_info(
            b.modal,
            "Task Required"@,
            "Bulk actions require a concrete task selection. Press 't' to cycle tasks first."@,
        )
    }
    &&& a.current_task matches Some(task) ==> {
        if a.bulk_selected >= a.bulk_actions@.len() {
            b == a
        } else if a.bulk_actions@[a.bulk_selected as int].requires_edits {
            &&& b == (App { modal: b.modal, ..a })
            &&& is_info(
                b.modal,
                "Bulk Edits Unsupported"@,
                "This action requires edits. v1 only supports bulk invocation for actions without edit payloads."@,
            )
        } else if a.visible().len() == 0 {
            b == a
        } else {
            let act = a.bulk_actions@[a.bulk_selected as int];
            &&& b == (App { modal: b.modal, ..a })
            &&& is_confirm(
                b.modal,
                "Run "@ + act.name@,
                "Invoke '"@ + act.name@ + "' on "@ + decimal(a.visible().len()) + " rows in the current queue scope?"@,
            )
            &&& b.modal matches Some(Modal::Confirm(c)) && c.action matches ConfirmAction::BulkInvoke { task_name, action, item_ids: ids }
                && task_name == task && action == act && views(ids@) == item_ids(a.visible())
        }
    }
}

/// From `a` to `b` the export prompt was opened.
pub open spec fn export_prompt_post(a: App, b: App) -> bool {
    &&& b == (App { modal: b.modal, ..a })
    &&& is_prompt(
        b.modal,
        "Export Snapshot"@,
        "respkit-snapshot.md"@,
        "Write .md, .csv, or .jsonl for the current queue scope"@,
    )
    &&& b.modal matches Some(Modal::TextInput(p)) && p.target is ExportPath
}

/// From `a` to `b`, with effects `ea` growing to `eb` and result `out`,
/// approve-with-edit input `edits` for a row was acted on; `is_json` tells
/// whether `edits` is JSON. Input that is not JSON is refused and changes
/// nothing; otherwise the backend is asked to validate the edited decision.
pub open spec fn edit_submitted(
    a: App,
    b: App,
    ea: Seq<Effect>,
    eb: Seq<Effect>,
    task_name: String,
    item_id: String,
    edits: Seq<char>,
    is_json: bool,
    out: Result<(), String>,
) -> bool {
    if !is_json {
        &&& out matches Err(e) && e@ == invalid_edit_message()
        &&& b == a
        &&& eb == ea
    } else {
        &&& out is Ok
        &&& exists|e: String, act: String|
            e@ == edits && act@ == "approve_with_edit"@ && #[trigger] sent(
                a,
                b,
                ea,
                eb,
                seq![RpcCall::Validate { task_name, item_id, edits: e, derive_output: true }],
                seq![PendingRequest::ValidateForDecision { task_name, item_id, action: act, edits: Some(e) }],
            )
    }
}

/// From `a` to `b`, with effects `ea` growing to `eb` and result `out`, a
/// submitted prompt was acted on.
pub open spec fn text_submitted(a: App, b: App, ea: Seq<Effect>, eb: Seq<Effect>, prompt: TextInputModal, out: Result<(), String>) -> bool {
    &&& prompt.target is QueueFilter ==> {
        let m = App { queue_filter: b.queue_filter, ..a };
        &&& out is Ok
        &&& b.queue_filter@ == trim(prompt.value@)
        &&& b == (App { queue_selected: m.clamped_selection(), ..m })
        &&& eb == ea
    }
    &&& prompt.target matches TextInputTarget::ApproveEdit { task_name, item_id } ==> edit_submitted(
        a,
        b,
        ea,
        eb,
        task_name,
        item_id,
        trim(prompt.value@),
        valid_json(trim(prompt.value@)),
        out,
    )
    &&& prompt.target is ExportPath ==> {
        &&& out is Ok
        &&& eb == ea
        &&& if trim(prompt.value@).len() == 0 {
            b == a
        } else {
            &&& b == (App { modal: b.modal, ..a })
            &&& is_confirm(
                b.modal,
                "Confirm Export"@,
                "Export "@ + decimal(a.visible().len()) + " rows to "@ + trim(prompt.value@) + "?"@,
            )
            &&& b.modal matches Some(Modal::Confirm(c)) && c.action matches ConfirmAction::Export { task_name, item_ids: ids, output }
                && task_name == a.current_task && views(ids@) == item_ids(a.visible())
                && output@ == trim(prompt.value@)
        }
    }
}

/// From `a` to `b`, with effects `ea` growing to `eb`, a confirmed action was
/// carried out by sending its request.
pub open spec fn confirmed(a: App, b: App, ea: Seq<Effect>, eb: Seq<Effect>, action: ConfirmAction) -> bool {
    &&& action matches ConfirmAction::Decision { task_name, item_id, action: act, edits } ==> sent(
        a,
        b,
        ea,
        eb,
        seq![RpcCall::Decide { task_name, item_id, action: act, edits, apply: true }],
        seq![PendingRequest::ApplyDecision { task_name, item_id }],
    )
    &&& action matches ConfirmAction::BulkInvoke { task_name, action: act, item_ids: ids } ==> sent(
        a,
        b,
        ea,
        eb,
        seq![RpcCall::Invoke { task_name, action: act.name, item_ids: ids, apply: act.builtin }],
        seq![PendingRequest::InvokeAction { action: act.name }],
    )
    &&& action matches ConfirmAction::Export { task_name, item_ids: ids, output } ==> exists|format: String|
        format@ == crate::queue::export_format(output@) && #[trigger] sent(
            a,
            b,
            ea,
            eb,
            seq![RpcCall::Export {
                task_name,
                item_ids: ids,
                format,
                output,
                include_superseded: true,
                include_approved: true,
            }],
            seq![PendingRequest::Export],
        )
}

// ---------------------------------------------------------------------------
// Keys
// ---------------------------------------------------------------------------

/// `m` is `a` with the task scope moved to the next one.
pub open spec fn task_switched(a: App, m: App) -> bool {
    &&& opt_view(m.current_task) == next_task_scope(a)
    &&& m.startup.task_name@ == text_or_empty(next_task_scope(a))
    &&& m == (App {
        current_task: m.current_task,
        startup: StartupForm { task_name: m.startup.task_name, ..a.startup },
        ..a
    })
}

/// From `a` to `b` the task scope moved to the next one and the data was
/// refreshed; with no tasks known nothing happens.
pub open spec fn task_cycled(a: App, b: App, ea: Seq<Effect>, eb: Seq<Effect>) -> bool {
    if a.tasks.task_names@.len() == 0 {
        b == a && eb == ea
    } else {
        exists|m: App| #[trigger] task_switched(a, m) && refreshed(m, b, ea, eb)
    }
}

/// From `a` to `b` the console asked the backend to shut down (when one is
/// attached) and stopped running.
pub open spec fn quit_post(a: App, b: App, ea: Seq<Effect>, eb: Seq<Effect>) -> bool {
    exists|m: App|
        #[trigger] sent(a, m, ea, eb, seq![RpcCall::Shutdown], seq![PendingRequest::Shutdown])
            && b == (App { running: false, ..m })
}

/// The text of the startup field being edited.
pub open spec fn field_text(f: StartupForm) -> Seq<char> {
    match f.active_field {
        StartupField::BackendCommand => f.backend_command@,
        StartupField::LedgerPath => f.ledger_path@,
        StartupField::TaskName => f.task_name@,
    }
}

/// `b` is `a` with the startup field being edited set to `text`.
pub open spec fn form_edited(a: App, b: App, text: Seq<char>) -> bool {
    &&& b == (App { startup: b.startup, ..a })
    &&& b.startup.active_field == a.startup.active_field
    &&& field_text(b.startup) == text
    &&& a.startup.active_field != StartupField::BackendCommand ==> b.startup.backend_command == a.startup.backend_command
    &&& a.startup.active_field != StartupField::LedgerPath ==> b.startup.ledger_path == a.startup.ledger_path
    &&& a.startup.active_field != StartupField::TaskName ==> b.startup.task_name == a.startup.task_name
}

/// `eb` is `ea` followed by a request to launch the backend with the trimmed
/// command, the trimmed ledger path, and the task name if one is given.
pub open spec fn launch_requested(a: App, ea: Seq<Effect>, eb: Seq<Effect>) -> bool {
    &&& eb.len() == ea.len() + 1
    &&& eb.subrange(0, ea.len() as int) == ea
    &&& eb.last() matches Effect::Launch { command, ledger_path, task_name }
        && command@ == trim(a.startup.backend_command@)
        && ledger_path@ == trim(a.startup.ledger_path@)
        && opt_view(task_name) == trimmed_opt(a.startup.task_name@)
}

/// A plain or shifted key: one that types a character.
pub open spec fn types_char(key: KeyEvent) -> bool {
    key.modifiers == KeyModifiers::Plain || key.modifiers == KeyModifiers::Shift
}

/// What a key does on the startup form.
pub open spec fn startup_key_post(a: App, b: App, ea: Seq<Effect>, eb: Seq<Effect>, key: KeyEvent) -> bool {
    match key.code {
        KeyCode::Tab => b == (App {
            startup: StartupForm { active_field: field_after(a.startup.active_field), ..a.startup },
            ..a
        }) && eb == ea,
        KeyCode::BackTab => b == (App {
            startup: StartupForm { active_field: field_before(a.startup.active_field), ..a.startup },
            ..a
        }) && eb == ea,
        KeyCode::Enter => b == a && launch_requested(a, ea, eb),
        KeyCode::Backspace => form_edited(a, b, without_last(field_text(a.startup))) && eb == ea,
        KeyCode::Char(c) => if c == 'q' && key.modifiers == KeyModifiers::Plain {
            b == (App { running: false, ..a }) && eb == ea
        } else if types_char(key) {
            form_edited(a, b, field_text(a.startup).push(c)) && eb == ea
        } else {
            b == a && eb == ea
        },
        _ => b == a && eb == ea,
    }
}

/// What a key does on the dashboard.
pub open spec fn dashboard_key_post(a: App, b: App, key: KeyEvent) -> bool {
    match key.code {
        KeyCode::Enter => b == (App { screen: Screen::Queue, ..a }),
        KeyCode::Char(c) => if c == '1' {
            b == (App { queue_preset: QueuePreset::Unresolved, ..a })
        } else if c == '2' {
            b == (App { queue_preset: QueuePreset::Approved, ..a })
        } else if c == '3' {
            b == (App { queue_preset: QueuePreset::Rejected, ..a })
        } else if c == '4' {
            b == (App { queue_preset: QueuePreset::ProviderError, ..a })
        } else {
            b == a
        },
        _ => b == a,
    }
}

/// `b` is `a` with the queue selection moved by `delta`.
pub open spec fn queue_moved(a: App, b: App, delta: int) -> bool {
    b == (App { queue_selected: clamp_move(a.queue_selected as int, delta, a.visible().len() as int) as usize, ..a })
}

/// `b` is `a` with the preset moved `direction` steps, the drill-down dropped,
/// and the selection kept within the rows on show.
pub open spec fn preset_cycled(a: App, b: App, direction: int) -> bool {
    let m = App { queue_preset: crate::queue::cycled(a.queue_preset, direction), group_drill: None, ..a };
    b == (App { queue_selected: m.clamped_selection(), ..m })
}

/// What a key does on the queue.
pub open spec fn queue_key_post(a: App, b: App, ea: Seq<Effect>, eb: Seq<Effect>, key: KeyEvent) -> bool {
    match key.code {
        KeyCode::Down => queue_moved(a, b, 1) && eb == ea,
        KeyCode::Up => queue_moved(a, b, -1) && eb == ea,
        KeyCode::PageDown => queue_moved(a, b, 10) && eb == ea,
        KeyCode::PageUp => queue_moved(a, b, -10) && eb == ea,
        KeyCode::Backspace => {
            let m = App { queue_filter: b.queue_filter, ..a };
            &&& b.queue_filter@.len() == 0
            &&& b == (App { queue_selected: m.clamped_selection(), ..m })
            &&& eb == ea
        },
        KeyCode::Enter => row_opened(a, b, ea, eb),
        KeyCode::Char(c) => eb == ea && if c == 'j' {
            queue_moved(a, b, 1)
        } else if c == 'k' {
            queue_moved(a, b, -1)
        } else if c == '[' {
            preset_cycled(a, b, -1)
        } else if c == ']' {
            preset_cycled(a, b, 1)
        } else if c == '/' {
            &&& b == (App { modal: b.modal, ..a })
            &&& is_prompt(b.modal, "Queue Filter"@, a.queue_filter@, "Filter by item id, locator, or summary"@)
            &&& b.modal matches Some(Modal::TextInput(p)) && p.target is QueueFilter
        } else {
            b == a
        },
        _ => b == a && eb == ea,
    }
}

/// `b` is `a` with the group selection moved by `delta`.
pub open spec fn group_moved(a: App, b: App, delta: int) -> bool {
    exists|l: Seq<GroupEntry>|
        #[trigger] is_listing_of(all_labels(a.group_dimension, a.all_rows@), l)
        && b == (App { group_selected: clamp_move(a.group_selected as int, delta, l.len() as int) as usize, ..a })
}

/// `b` is `a` drilled into the selected group, or `a` when no group is selected.
pub open spec fn group_drilled(a: App, b: App) -> bool {
    exists|l: Seq<GroupEntry>|
        #[trigger] is_listing_of(all_labels(a.group_dimension, a.all_rows@), l) && if a.group_selected < l.len() {
            b == (App {
                group_drill: Some(GroupFilter { dimension: a.group_dimension, value: l[a.group_selected as int].label }),
                queue_preset: QueuePreset::Group,
                queue_selected: 0,
                screen: Screen::Queue,
                ..a
            })
        } else {
            b == a
        }
}

/// What a key does on the groups screen.
pub open spec fn group_key_post(a: App, b: App, key: KeyEvent) -> bool {
    match key.code {
        KeyCode::Down => group_moved(a, b, 1),
        KeyCode::Up => group_moved(a, b, -1),
        KeyCode::Enter => group_drilled(a, b),
        KeyCode::Char(c) => if c == '1' {
            b == (App { group_dimension: GroupDimension::HumanStatus, ..a })
        } else if c == '2' {
            b == (App { group_dimension: GroupDimension::MachineStatus, ..a })
        } else if c == '3' {
            b == (App { group_dimension: GroupDimension::RiskFlag, ..a })
        } else if c == '4' {
            b == (App { group_dimension: GroupDimension::SourcePrefix, ..a })
        } else if c == '5' {
            b == (App { group_dimension: GroupDimension::Category, ..a })
        } else if c == 'j' {
            group_moved(a, b, 1)
        } else if c == 'k' {
            group_moved(a, b, -1)
        } else if c == 'c' {
            b == (App { group_drill: None, queue_preset: QueuePreset::Unresolved, ..a })
        } else {
            b == a
        },
        _ => b == a,
    }
}

/// What a key does on the row detail.
pub open spec fn detail_key_post(a: App, b: App, key: KeyEvent) -> bool {
    match key.code {
        KeyCode::Char(c) => if c == 'o' {
            b == (App { detail: DetailState { tab: DetailTab::Overview, ..a.detail }, ..a })
        } else if c == 'p' {
            b == (App { detail: DetailState { tab: DetailTab::Preview, ..a.detail }, ..a })
        } else if c == 'h' {
            b == (App { detail: DetailState { tab: DetailTab::History, ..a.detail }, ..a })
        } else if c == 'a' {
            decision_confirm_post(a, b, "approve"@, None)
        } else if c == 'x' {
            decision_confirm_post(a, b, "reject"@, None)
        } else if c == 'f' {
            decision_confirm_post(a, b, "needs_review"@, None)
        } else if c == 'e' {
            &&& b == (App { modal: b.modal, ..a })
            &&& is_prompt(
                b.modal,
                "Approve With Edit JSON"@,
                "{}"@,
                "Enter JSON edits; backend will validate and derive approved output"@,
            )
            &&& b.modal matches Some(Modal::TextInput(p)) && p.target == (TextInputTarget::ApproveEdit {
                task_name: a.detail.task_name,
                item_id: a.detail.item_id,
            })
        } else {
            b == a
        },
        _ => b == a,
    }
}

/// What a key does on the bulk screen.
pub open spec fn bulk_key_post(a: App, b: App, key: KeyEvent) -> bool {
    let moved = |delta: int| b == (App {
        bulk_selected: clamp_move(a.bulk_selected as int, delta, a.bulk_actions@.len() as int) as usize,
        ..a
    });
    match key.code {
        KeyCode::Down => moved(1),
        KeyCode::Up => moved(-1),
        KeyCode::Enter => bulk_confirm_post(a, b),
        KeyCode::Char(c) => if c == 'j' {
            moved(1)
        } else if c == 'k' {
            moved(-1)
        } else {
            b == a
        },
        _ => b == a,
    }
}

/// What a key does on the apply screen.
pub open spec fn apply_key_post(a: App, b: App, key: KeyEvent) -> bool {
    if key.code == KeyCode::Enter || key.code == KeyCode::Char('l') {
        b == (App { queue_preset: QueuePreset::ApplyReady, screen: Screen::Queue, ..a })
    } else {
        b == a
    }
}

/// `b` is `a` with its text prompt's value set to `value`.
pub open spec fn prompt_value_set(a: App, b: App, value: Seq<char>) -> bool {
    &&& b == (App { modal: b.modal, ..a })
    &&& a.modal matches Some(Modal::TextInput(p)) && b.modal matches Some(Modal::TextInput(q)) && q == (TextInputModal {
        value: q.value,
        ..p
    }) && q.value@ == value
}

/// What a key does while a dialog is open.
pub open spec fn modal_key_post(a: App, b: App, ea: Seq<Effect>, eb: Seq<Effect>, key: KeyEvent, out: Result<(), String>) -> bool {
    match a.modal {
        Some(Modal::TextInput(p)) => match key.code {
            KeyCode::Esc => b == (App { modal: None, ..a }) && eb == ea && out is Ok,
            KeyCode::Backspace => prompt_value_set(a, b, without_last(p.value@)) && eb == ea && out is Ok,
            KeyCode::Enter => text_submitted(App { modal: None, ..a }, b, ea, eb, p, out),
            KeyCode::Char(c) => eb == ea && out is Ok && if types_char(key) {
                prompt_value_set(a, b, p.value@.push(c))
            } else {
                b == a
            },
            _ => b == a && eb == ea && out is Ok,
        },
        Some(Modal::Confirm(c)) => out is Ok && if key.code == KeyCode::Esc || key.code == KeyCode::Char('n') {
            b == (App { modal: None, ..a }) && eb == ea
        } else if key.code == KeyCode::Enter || key.code == KeyCode::Char('y') {
            confirmed(App { modal: None, ..a }, b, ea, eb, c.action)
        } else {
            b == a && eb == ea
        },
        Some(Modal::Info(_)) => out is Ok && eb == ea && if key.code == KeyCode::Esc || key.code == KeyCode::Enter {
            b == (App { modal: None, ..a })
        } else {
            b == a
        },
        None => b == a && eb == ea && out is Ok,
    }
}

/// What a screen key does after the global keys have been handled.
pub open spec fn screen_key_post(a: App, b: App, ea: Seq<Effect>, eb: Seq<Effect>, key: KeyEvent) -> bool {
    match a.screen {
        Screen::Dashboard => dashboard_key_post(a, b, key) && eb == ea,
        Screen::Queue => queue_key_post(a, b, ea, eb, key),
        Screen::Groups => group_key_post(a, b, key) && eb == ea,
        Screen::Detail => detail_key_post(a, b, key) && eb == ea,
        Screen::Bulk => bulk_key_post(a, b, key) && eb == ea,
        Screen::Apply => apply_key_post(a, b, key) && eb == ea,
        Screen::Startup | Screen::Help => b == a && eb == ea,
    }
}

/// What the global keys (other than quit and help) do, before the screen's own
/// handling. On the row detail, `p` and `x` are left to the detail screen
/// (preview panel, reject).
pub open spec fn global_key_post(a: App, b: App, ea: Seq<Effect>, eb: Seq<Effect>, key: KeyEvent) -> bool {
    match key.code {
        KeyCode::Char(c) => if c == 'd' {
            b == (App { screen: Screen::Dashboard, ..a }) && eb == ea
        } else if c == 'l' {
            b == (App { screen: Screen::Queue, ..a }) && eb == ea
        } else if c == 'g' {
            b == (App { screen: Screen::Groups, ..a }) && eb == ea
        } else if c == 'b' {
            actions_refreshed(App { screen: Screen::Bulk, ..a }, b, ea, eb)
        } else if c == 'p' {
            eb == ea && if a.screen == Screen::Detail {
                b == a
            } else {
                b == (App { screen: Screen::Apply, ..a })
            }
        } else if c == 'r' {
            refreshed(a, b, ea, eb)
        } else if c == 't' {
            task_cycled(a, b, ea, eb)
        } else if c == 'x' {
            eb == ea && if a.screen == Screen::Detail {
                b == a
            } else {
                export_prompt_post(a, b)
            }
        } else {
            b == a && eb == ea
        },
        KeyCode::Esc => eb == ea && if a.screen == Screen::Detail {
            b == (App { screen: Screen::Queue, ..a })
        } else if a.screen == Screen::Groups {
            b == (App { group_drill: None, queue_preset: QueuePreset::Unresolved, ..a })
        } else {
            b == a
        },
        _ => b == a && eb == ea,
    }
}

/// What a key press does: a dialog takes it first, then the startup form or
/// the help screen, then the global keys, then the screen on show.
pub open spec fn key_post(a: App, b: App, eb: Seq<Effect>, key: KeyEvent, out: Result<(), String>) -> bool {
    let ea = Seq::<Effect>::empty();
    if a.modal is Some {
        modal_key_post(a, b, ea, eb, key, out)
    } else if a.screen == Screen::Startup {
        startup_key_post(a, b, ea, eb, key) && out is Ok
    } else if a.screen == Screen::Help {
        out is Ok && eb == ea && if key.code == KeyCode::Esc || key.code == KeyCode::Char('?') {
            b == (App { screen: a.previous_screen, ..a })
        } else {
            b == a
        }
    } else if key.code == KeyCode::Char('q') {
        out is Ok && quit_post(a, b, ea, eb)
    } else if key.code == KeyCode::Char('?') {
        out is Ok && eb == ea && b == (App { previous_screen: a.screen, screen: Screen::Help, ..a })
    } else {
        out is Ok && exists|m: App, em: Seq<Effect>|
            #[trigger] global_key_post(a, m, ea, em, key) && screen_key_post(m, b, em, eb, key)
    }
}

proof fn lemma_index_or_zero(s: Seq<Seq<char>>, x: Seq<char>, k: int)
    requires
        0 <= k <= s.len(),
        forall|j: int| 0 <= j < k ==> s[j] != x,
        k < s.len() ==> s[k] == x,
    ensures
        index_or_zero(s, x) == if k < s.len() { k } else { 0 },
    decreases s.len(),
{
    if s.len() > 0 {
        if k == 0 {
        } else {
            let t = s.drop_first();
            assert forall|j: int| 0 <= j < k - 1 implies t[j] != x by {
                assert(t[j] == s[j + 1]);
            }
            if k < s.len() {
                assert(t[k - 1] == x);
                assert(t.contains(x));
            } else {
                assert(!t.contains(x)) by {
                    if t.contains(x) {
                        let j = choose|j: int| 0 <= j < t.len() && t[j] == x;
                        assert(s[j + 1] == x);
                    }
                }
            }
            assert(s[0] != x);
            lemma_index_or_zero(t, x, k - 1);
        }
    }
}

impl App {
    /// Moves the task scope to the next one (all tasks, then each task) and refreshes.
    pub fn cycle_task(&mut self, effects: &mut Vec<Effect>)
        ensures
            task_cycled(*old(self), *final(self), old(effects)@, final(effects)@),
    {
        if self.tasks.task_names.len() == 0 {
            return;
        }
        let ghost a = *self;
        let mut tasks: Vec<String> = Vec::new();
        tasks.push(String::new());
        let mut i: usize = 0;
        while i < self.tasks.task_names.len()
            invariant
                *self == a,
                i <= self.tasks.task_names.len(),
                views(tasks@) == seq![Seq::<char>::empty()] + views(self.tasks.task_names@).take(i as int),
            decreases self.tasks.task_names.len() - i,
        {
            let ghost before = tasks@;
            tasks.push(self.tasks.task_names[i].clone());
            proof {
                assert(views(tasks@) =~= views(before).push(self.tasks.task_names@[i as int]@));
                assert(views(self.tasks.task_names@).take(i + 1) =~= views(self.tasks.task_names@).take(i as int).push(self.tasks.task_names@[i as int]@));
            }
            i = i + 1;
        }
        proof {
            assert(views(self.tasks.task_names@).take(i as int) =~= views(self.tasks.task_names@));
            assert(views(tasks@) =~= task_cycle(a));
        }
        let current = opt_or_empty(&self.current_task);
        let mut index: usize = 0;
        while index < tasks.len() && !str_eq(tasks[index].as_str(), current.as_str())
            invariant
                index <= tasks.len(),
                views(tasks@) == task_cycle(a),
                *self == a,
                forall|j: int| 0 <= j < index ==> #[trigger] views(tasks@)[j] != current@,
            decreases tasks.len() - index,
        {
            index = index + 1;
        }
        proof {
            lemma_index_or_zero(views(tasks@), current@, index as int);
        }
        if index == tasks.len() {
            index = 0;
        }
        let next = (index + 1) % tasks.len();
        self.current_task = crate::queue::trimmed_option(tasks[next].as_str());
        self.startup.task_name = opt_or_empty(&self.current_task);
        let ghost m = *self;
        proof {
            let list = task_cycle(a);
            assert(views(tasks@)[next as int] == tasks@[next as int]@);
            assert(list.len() == tasks@.len());
            assert(index_or_zero(list, current@) == index);
            assert(next == (index_or_zero(list, current@) + 1) % (list.len() as int));
            assert(current@ == match a.current_task {
                Some(t) => t@,
                None => Seq::<char>::empty(),
            });
            assert(trimmed_opt(list[next as int]) == next_task_scope(a));
            assert(opt_view(m.current_task) == next_task_scope(a));
            assert(m.startup.task_name@ == text_or_empty(next_task_scope(a)));
            assert(task_switched(a, m));
        }
        self.refresh_into(effects);
    }

    /// Asks the backend to shut down and stops running.
    pub fn quit(&mut self, effects: &mut Vec<Effect>)
        ensures
            quit_post(*old(self), *final(self), old(effects)@, final(effects)@),
    {
        self.send_request(RpcCall::Shutdown, PendingRequest::Shutdown, effects);
        let ghost m = *self;
        self.running = false;
        proof {
            assert(*self == (App { running: false, ..m }));
        }
    }

    /// The text of the startup field being edited.
    fn active_field_text(&self) -> (out: &String)
        ensures
            out@ == field_text(self.startup),
    {
        match self.startup.active_field {
            StartupField::BackendCommand => &self.startup.backend_command,
            StartupField::LedgerPath => &self.startup.ledger_path,
            StartupField::TaskName => &self.startup.task_name,
        }
    }

    /// Sets the startup field being edited.
    fn set_active_field_text(&mut self, text: String)
        ensures
            form_edited(*old(self), *final(self), text@),
    {
        match self.startup.active_field {
            StartupField::BackendCommand => self.startup.backend_command = text,
            StartupField::LedgerPath => self.startup.ledger_path = text,
            StartupField::TaskName => self.startup.task_name = text,
        }
    }

    /// A key on the startup form.
    pub fn handle_startup_key(&mut self, key: KeyEvent, effects: &mut Vec<Effect>)
        ensures
            startup_key_post(*old(self), *final(self), old(effects)@, final(effects)@, key),
    {
        match key.code {
            KeyCode::Tab => self.startup.active_field = self.startup.active_field.next(),
            KeyCode::BackTab => self.startup.active_field = self.startup.active_field.previous(),
            KeyCode::Enter => {
                let command = crate::text::trim_str(self.startup.backend_command.as_str());
                let ledger_path = crate::text::trim_str(self.startup.ledger_path.as_str());
                let task_name = crate::queue::trimmed_option(self.startup.task_name.as_str());
                let ghost ea = effects@;
                effects.push(Effect::Launch { command: BackendCommand::new(command.as_str()), ledger_path, task_name });
                proof {
                    assert(effects@.subrange(0, ea.len() as int) =~= ea);
                }
            },
            KeyCode::Backspace => {
                let text = pop_char(self.active_field_text());
                self.set_active_field_text(text);
            },
            KeyCode::Char(c) => {
                if c == 'q' && key.modifiers == KeyModifiers::Plain {
                    self.running = false;
                } else if key.modifiers == KeyModifiers::Plain || key.modifiers == KeyModifiers::Shift {
                    let text = push_char(self.active_field_text(), c);
                    self.set_active_field_text(text);
                }
            },
            _ => {},
        }
    }

    /// A key on the dashboard, after the global keys.
    pub fn handle_dashboard_key(&mut self, key: KeyEvent)
        ensures
            dashboard_key_post(*old(self), *final(self), key),
    {
        match key.code {
            KeyCode::Enter => self.screen = Screen::Queue,
            KeyCode::Char('1') => self.queue_preset = QueuePreset::Unresolved,
            KeyCode::Char('2') => self.queue_preset = QueuePreset::Approved,
            KeyCode::Char('3') => self.queue_preset = QueuePreset::Rejected,
            KeyCode::Char('4') => self.queue_preset = QueuePreset::ProviderError,
            _ => {},
        }
    }

    /// A key on the queue, after the global keys.
    pub fn handle_queue_key(&mut self, key: KeyEvent, effects: &mut Vec<Effect>)
        ensures
            queue_key_post(*old(self), *final(self), old(effects)@, final(effects)@, key),
    {
        match key.code {
            KeyCode::Down | KeyCode::Char('j') => self.move_queue_selection(1),
            KeyCode::Up | KeyCode::Char('k') => self.move_queue_selection(-1),
            KeyCode::PageDown => self.move_queue_selection(10),
            KeyCode::PageUp => self.move_queue_selection(-10),
            KeyCode::Char('[') => {
                self.queue_preset = self.queue_preset.cycle(-1);
                self.group_drill = None;
                self.clamp_queue_selection();
            },
            KeyCode::Char(']') => {
                self.queue_preset = self.queue_preset.cycle(1);
                self.group_drill = None;
                self.clamp_queue_selection();
            },
            KeyCode::Char('/') => {
                self.modal = Some(Modal::TextInput(TextInputModal {
                    title: String::from_str("Queue Filter"),
                    value: self.queue_filter.clone(),
                    target: TextInputTarget::QueueFilter,
                    hint: String::from_str("Filter by item id, locator, or summary"),
                }));
            },
            KeyCode::Backspace => {
                self.queue_filter = String::new();
                self.clamp_queue_selection();
            },
            KeyCode::Enter => self.open_selected_row(effects),
            _ => {},
        }
    }

    /// A key on the group screen, after the global keys.
    pub fn handle_group_key(&mut self, key: KeyEvent)
        ensures
            group_key_post(*old(self), *final(self), key),
    {
        match key.code {
            KeyCode::Char('1') => self.group_dimension = GroupDimension::HumanStatus,
            KeyCode::Char('2') => self.group_dimension = GroupDimension::MachineStatus,
            KeyCode::Char('3') => self.group_dimension = GroupDimension::RiskFlag,
            KeyCode::Char('4') => self.group_dimension = GroupDimension::SourcePrefix,
            KeyCode::Char('5') => self.group_dimension = GroupDimension::Category,
            KeyCode::Down | KeyCode::Char('j') => self.move_group_selection(1),
            KeyCode::Up | KeyCode::Char('k') => self.move_group_selection(-1),
            KeyCode::Enter => self.drill_into_group(),
            KeyCode::Char('c') => {
                self.group_drill = None;
                self.queue_preset = QueuePreset::Unresolved;
            },
            _ => {},
        }
    }

    /// A key on the row detail, after the global keys.
    pub fn handle_detail_key(&mut self, key: KeyEvent)
        ensures
            detail_key_post(*old(self), *final(self), key),
    {
        match key.code {
            KeyCode::Char('o') => self.detail.tab = DetailTab::Overview,
            KeyCode::Char('p') => self.detail.tab = DetailTab::Preview,
            KeyCode::Char('h') => self.detail.tab = DetailTab::History,
            KeyCode::Char('a') => self.confirm_builtin_decision("approve", None),
            KeyCode::Char('x') => self.confirm_builtin_decision("reject", None),
            KeyCode::Char('f') => self.confirm_builtin_decision("needs_review", None),
            KeyCode::Char('e') => {
                self.modal = Some(Modal::TextInput(TextInputModal {
                    title: String::from_str("Approve With Edit JSON"),
                    value: String::from_str("{}"),
                    target: TextInputTarget::ApproveEdit {
                        task_name: self.detail.task_name.clone(),
                        item_id: self.detail.item_id.clone(),
                    },
                    hint: String::from_str("Enter JSON edits; backend will validate and derive approved output"),
                }));
            },
            _ => {},
        }
    }

    /// A key on the bulk action screen, after the global keys.
    pub fn handle_bulk_key(&mut self, key: KeyEvent)
        ensures
            bulk_key_post(*old(self), *final(self), key),
    {
        match key.code {
            KeyCode::Down | KeyCode::Char('j') => self.move_bulk_selection(1),
            KeyCode::Up | KeyCode::Char('k') => self.move_bulk_selection(-1),
            KeyCode::Enter => self.confirm_bulk_action(),
            _ => {},
        }
    }

    /// A key on the apply screen, after the global keys.
    pub fn handle_apply_key(&mut self, key: KeyEvent)
        ensures
            apply_key_post(*old(self), *final(self), key),
    {
        match key.code {
            KeyCode::Enter | KeyCode::Char('l') => {
                self.queue_preset = QueuePreset::ApplyReady;
                self.screen = Screen::Queue;
            },
            _ => {},
        }
    }

    /// A key while a dialog is open: the dialog takes it.
    pub fn handle_modal_key(&mut self, key: KeyEvent, effects: &mut Vec<Effect>) -> (out: Result<(), String>)
        ensures
            modal_key_post(*old(self), *final(self), old(effects)@, final(effects)@, key, out),
    {
        let modal = self.modal.take();
        match modal {
            Some(Modal::TextInput(prompt)) => match key.code {
                KeyCode::Esc => Ok(()),
                KeyCode::Backspace => {
                    let value = pop_char(&prompt.value);
                    self.modal = Some(Modal::TextInput(TextInputModal { value, ..prompt }));
                    Ok(())
                },
                KeyCode::Enter => self.submit_text_input(prompt, effects),
                KeyCode::Char(c) => {
                    if key.modifiers == KeyModifiers::Plain || key.modifiers == KeyModifiers::Shift {
                        let value = push_char(&prompt.value, c);
                        self.modal = Some(Modal::TextInput(TextInputModal { value, ..prompt }));
                    } else {
                        self.modal = Some(Modal::TextInput(prompt));
                    }
                    Ok(())
                },
                _ => {
                    self.modal = Some(Modal::TextInput(prompt));
                    Ok(())
                },
            },
            Some(Modal::Confirm(confirm)) => match key.code {
                KeyCode::Esc | KeyCode::Char('n') => Ok(()),
                KeyCode::Enter | KeyCode::Char('y') => {
                    self.submit_confirm(confirm.action, effects);
                    Ok(())
                },
                _ => {
                    self.modal = Some(Modal::Confirm(confirm));
                    Ok(())
                },
            },
            Some(Modal::Info(info)) => match key.code {
                KeyCode::Esc | KeyCode::Enter => Ok(()),
                _ => {
                    self.modal = Some(Modal::Info(info));
                    Ok(())
                },
            },
            None => Ok(()),
        }
    }

    /// Handles a key press; returns the work to carry out, or the reason the
    /// input was refused.
    pub fn handle_key(&mut self, key: KeyEvent) -> (out: Result<Vec<Effect>, String>)
        ensures
            out matches Ok(effects) ==> key_post(*old(self), *final(self), effects@, key, Ok(())),
            out matches Err(e) ==> key_post(*old(self), *final(self), Seq::empty(), key, Err(e)),
    {
        let mut effects: Vec<Effect> = Vec::new();
        if self.modal.is_some() {
            let ghost a = *self;
            let r = self.handle_modal_key(key, &mut effects);
            proof {
                assert(modal_key_post(a, *self, Seq::empty(), effects@, key, r));
                assert(key_post(a, *self, effects@, key, r));
            }
            match r {
                Ok(()) => {
                    return Ok(effects);
                },
                Err(e) => {
                    proof {
                        assert(effects@ == Seq::<Effect>::empty());
                        assert(key_post(a, *self, Seq::empty(), key, Err(e)));
                    }
                    return Err(e);
                },
            }
        }
        if self.screen == Screen::Startup {
            self.handle_startup_key(key, &mut effects);
            return Ok(effects);
        }
        if self.screen == Screen::Help {
            match key.code {
                KeyCode::Esc | KeyCode::Char('?') => {
                    self.screen = self.previous_screen;
                },
                _ => {},
            }
            return Ok(effects);
        }
        match key.code {
            KeyCode::Char('q') => {
                self.quit(&mut effects);
                return Ok(effects);
            },
            KeyCode::Char('?') => {
                self.previous_screen = self.screen;
                self.screen = Screen::Help;
                return Ok(effects);
            },
            _ => {},
        }
        let ghost a = *self;
        match key.code {
            KeyCode::Char('d') => self.screen = Screen::Dashboard,
            KeyCode::Char('l') => self.screen = Screen::Queue,
            KeyCode::Char('g') => self.screen = Screen::Groups,
            KeyCode::Char('b') => {
                self.screen = Screen::Bulk;
                self.refresh_actions_for_scope(&mut effects);
            },
            KeyCode::Char('p') => {
                // On the row detail `p` picks the preview panel instead.
                if self.screen != Screen::Detail {
                    self.screen = Screen::Apply;
                }
            },
            KeyCode::Char('r') => self.refresh_into(&mut effects),
            KeyCode::Char('t') => self.cycle_task(&mut effects),
            KeyCode::Char('x') => {
                // On the row detail `x` rejects the row instead.
                if self.screen != Screen::Detail {
                    self.open_export_prompt();
                }
            },
            KeyCode::Esc => {
                if self.screen == Screen::Detail {
                    self.screen = Screen::Queue;
                } else if self.screen == Screen::Groups {
                    self.group_drill = None;
                    self.queue_preset = QueuePreset::Unresolved;
                }
            },
            _ => {},
        }
        let ghost m = *self;
        let ghost em = effects@;
        proof {
            assert(global_key_post(a, m, Seq::empty(), em, key));
        }
        match self.screen {
            Screen::Dashboard => self.handle_dashboard_key(key),
            Screen::Queue => self.handle_queue_key(key, &mut effects),
            Screen::Groups => self.handle_group_key(key),
            Screen::Detail => self.handle_detail_key(key),
            Screen::Bulk => self.handle_bulk_key(key),
            Screen::Apply => self.handle_apply_key(key),
            Screen::Startup | Screen::Help => {},
        }
        proof {
            assert(screen_key_post(m, *self, em, effects@, key));
        }
        Ok(effects)
    }
}

// ---------------------------------------------------------------------------
// Connecting, backend events and replies
// ---------------------------------------------------------------------------

/// `b` is `a` with `msg` added as the newest notification.
pub open spec fn notified(a: App, b: App, msg: Seq<char>) -> bool {
    &&& b == (App { notifications: b.notifications, ..a })
    &&& views(b.notifications@) == at_most(seq![msg] + views(a.notifications@), NOTIFICATION_LIMIT as nat)
}

/// `b` is `a` with its startup checks rebuilt from `probe`.
pub open spec fn checks_updated(a: App, b: App, probe: LedgerProbe) -> bool {
    &&& b == (App { validation_checks: b.validation_checks, ..a })
    &&& b.validation_checks@.map_values(|c: ValidationCheck| check_view(c)) == checks_for(a, probe)
}

/// `m` is `a` freshly attached to a backend started as `command_line`.
pub open spec fn attach_state(a: App, m: App, command_line: Seq<char>) -> bool {
    let n = App {
        connected: true,
        command_line: m.command_line,
        pending: m.pending,
        next_request_id: 1,
        current_task: m.current_task,
        screen: Screen::Dashboard,
        group_drill: None,
        queue_preset: QueuePreset::Unresolved,
        ..a
    };
    &&& m.command_line@ == command_line
    &&& m.pending@.len() == 0
    &&& opt_view(m.current_task) == trimmed_opt(a.startup.task_name@)
    &&& notified(n, m, "backend connected"@)
}

/// The requests made right after attaching a backend.
pub open spec fn attach_calls() -> Seq<RpcCall> {
    seq![RpcCall::Health, RpcCall::Info, RpcCall::Tasks]
}

/// What the requests made right after attaching a backend are for.
pub open spec fn attach_requests() -> Seq<PendingRequest> {
    seq![PendingRequest::Health, PendingRequest::Info, PendingRequest::Tasks]
}

/// From `a` to `b`, with effects `eb`, the console attached a backend:
/// connected state set, health, info and tasks requested, data refreshed,
/// startup checks rebuilt.
pub open spec fn attached(a: App, b: App, eb: Seq<Effect>, command_line: Seq<char>, probe: LedgerProbe) -> bool {
    exists|m1: App, m2: App, e2: Seq<Effect>, m3: App|
        #![trigger attach_state(a, m1, command_line), sent(m1, m2, Seq::empty(), e2, attach_calls(), attach_requests()), refreshed(m2, m3, e2, eb)]
        attach_state(a, m1, command_line) && sent(m1, m2, Seq::empty(), e2, attach_calls(), attach_requests())
            && refreshed(m2, m3, e2, eb) && checks_updated(m3, b, probe)
}

/// What a reply resolved to: the request it answers and its result's JSON
/// text, or the message of why it has none.
#[derive(Debug)]
pub struct ResponseTask {
    pub request: PendingRequest,
    pub result: Result<String, String>,
}

/// A reply decoded for the request it answers.
#[derive(Debug)]
pub enum ResponseOutcome {
    Health(Result<HealthStatus, String>),
    Info(Result<LedgerInfo, String>),
    Tasks(Result<LedgerTasks, String>),
    Summary(Result<LedgerSummary, String>),
    Rows(Result<crate::protocol::RowsListResult, String>),
    Actions(Result<crate::protocol::ActionsListResult, String>),
    DetailRow { task_name: String, item_id: String, result: Result<crate::protocol::RowResult, String> },
    DetailHistory { task_name: String, item_id: String, result: Result<crate::protocol::HistoryResult, String> },
    DetailPreview { task_name: String, item_id: String, result: Result<crate::protocol::PreviewResult, String> },
    ValidateForDecision {
        task_name: String,
        item_id: String,
        action: String,
        edits: Option<String>,
        result: Result<crate::protocol::ValidationResult, String>,
    },
    ApplyDecision { task_name: String, item_id: String, result: Result<crate::protocol::DecisionResult, String> },
    InvokeAction { action: String, result: Result<crate::protocol::ActionsInvokeResult, String> },
    Export(Result<crate::protocol::ExportResult, String>),
    Shutdown(Result<crate::protocol::ShutdownResult, String>),
}

/// The failure message a reply carries, if any.
pub open spec fn outcome_error(o: ResponseOutcome) -> Option<String> {
    match o {
        ResponseOutcome::Health(Err(e)) => Some(e),
        ResponseOutcome::Info(Err(e)) => Some(e),
        ResponseOutcome::Tasks(Err(e)) => Some(e),
        ResponseOutcome::Summary(Err(e)) => Some(e),
        ResponseOutcome::Rows(Err(e)) => Some(e),
        ResponseOutcome::Actions(Err(e)) => Some(e),
        ResponseOutcome::DetailRow { result: Err(e), .. } => Some(e),
        ResponseOutcome::DetailHistory { result: Err(e), .. } => Some(e),
        ResponseOutcome::DetailPreview { result: Err(e), .. } => Some(e),
        ResponseOutcome::ValidateForDecision { result: Err(e), .. } => Some(e),
        ResponseOutcome::ApplyDecision { result: Err(e), .. } => Some(e),
        ResponseOutcome::InvokeAction { result: Err(e), .. } => Some(e),
        ResponseOutcome::Export(Err(e)) => Some(e),
        ResponseOutcome::Shutdown(Err(e)) => Some(e),
        _ => None,
    }
}

/// The detail screen shows the row of the given task name and item id.
pub open spec fn detail_is(a: App, task_name: String, item_id: String) -> bool {
    a.detail.task_name@ == task_name@ && a.detail.item_id@ == item_id@
}

/// How many action outcomes succeeded (`ok` or `applied`).
pub open spec fn success_count(results: Seq<crate::protocol::ActionOutcome>) -> nat
    decreases results.len(),
{
    if results.len() == 0 {
        0
    } else {
        success_count(results.drop_last()) + if results.last().status@ == "ok"@ || results.last().status@
            == "applied"@ {
            1nat
        } else {
            0nat
        }
    }
}

/// From `a` to `b`, with effects `eb`, a decoded reply was applied.
pub open spec fn response_applied(a: App, b: App, eb: Seq<Effect>, o: ResponseOutcome, probe: LedgerProbe) -> bool {
    match outcome_error(o) {
        Some(e) => notified(a, b, "request failed: "@ + e@) && eb.len() == 0,
        None => match o {
            ResponseOutcome::Health(Ok(h)) => eb.len() == 0 && checks_updated(App { health: Some(h), ..a }, b, probe),
            ResponseOutcome::Info(Ok(i)) => eb.len() == 0 && checks_updated(App { ledger_info: Some(i), ..a }, b, probe),
            ResponseOutcome::Tasks(Ok(t)) => {
                let m1 = App { tasks: t, ..a };
                if a.current_task is None && t.task_names@.len() == 1 {
                    exists|m2: App, m3: App|
                        #![trigger refreshed(m2, m3, Seq::empty(), eb)]
                        refreshed(m2, m3, Seq::empty(), eb) && m2 == (App {
                            current_task: m2.current_task,
                            startup: StartupForm { task_name: m2.startup.task_name, ..m1.startup },
                            ..m1
                        }) && m2.current_task == Some(m2.startup.task_name)
                            && m2.startup.task_name@ == t.task_names@[0]@ && checks_updated(m3, b, probe)
                } else {
                    eb.len() == 0 && checks_updated(m1, b, probe)
                }
            },
            ResponseOutcome::Summary(Ok(sm)) => eb.len() == 0 && checks_updated(App { summary: sm, ..a }, b, probe),
            ResponseOutcome::Rows(Ok(r)) => {
                let m = App { all_rows: r.rows, ..a };
                eb.len() == 0 && b == (App { queue_selected: m.clamped_selection(), ..m })
            },
            ResponseOutcome::Actions(Ok(l)) => eb.len() == 0 && b == (App { bulk_actions: l.actions, bulk_selected: 0, ..a }),
            ResponseOutcome::DetailRow { task_name, item_id, result: Ok(r) } => eb.len() == 0 && if detail_is(a, task_name, item_id) {
                b == (App { detail: DetailState { row: Some(r.row), ..a.detail }, ..a })
            } else {
                b == a
            },
            ResponseOutcome::DetailHistory { task_name, item_id, result: Ok(h) } => eb.len() == 0 && if detail_is(a, task_name, item_id) {
                b == (App { detail: DetailState { history: h.events, ..a.detail }, ..a })
            } else {
                b == a
            },
            ResponseOutcome::DetailPreview { task_name, item_id, result: Ok(p) } => eb.len() == 0 && if detail_is(a, task_name, item_id) {
                b == (App { detail: DetailState { preview: Some(p.preview), ..a.detail }, ..a })
            } else {
                b == a
            },
            ResponseOutcome::ValidateForDecision { task_name, item_id, action, edits, result: Ok(v) } => {
                &&& eb.len() == 0
                &&& b == (App { modal: b.modal, ..a })
                &&& if !v.valid {
                    is_info(b.modal, "Validation Failed"@, joined(views(v.errors@), "\n"@))
                } else {
                    let derived = match v.approved_output {
                        Some(t) => t@,
                        None => "no approved output preview returned"@,
                    };
                    &&& is_confirm(
                        b.modal,
                        "Confirm Approve With Edit"@,
                        "Validation passed for "@ + task_name@ + ":"@ + item_id@ + ".\n\nDerived approved output:\n"@ + derived,
                    )
                    &&& b.modal matches Some(Modal::Confirm(c)) && c.action == (ConfirmAction::Decision { task_name, item_id, action, edits })
                }
            },
            ResponseOutcome::ApplyDecision { task_name, item_id, result: Ok(d) } => {
                exists|m1: App, m2: App, e2: Seq<Effect>|
                    #![trigger notified(a, m1, task_name@ + ":"@ + item_id@ + " -> "@ + d.status@), refreshed(m1, m2, Seq::empty(), e2)]
                    notified(a, m1, task_name@ + ":"@ + item_id@ + " -> "@ + d.status@)
                        && refreshed(m1, m2, Seq::empty(), e2) && if detail_is(m2, task_name, item_id) {
                        row_opened(m2, b, e2, eb)
                    } else {
                        b == m2 && eb == e2
                    }
            },
            ResponseOutcome::InvokeAction { action, result: Ok(r) } => {
                exists|m1: App|
                    #[trigger] notified(a, m1, action@ + " completed on "@ + decimal(success_count(r.results@)) + " rows"@)
                        && refreshed(m1, b, Seq::empty(), eb)
            },
            ResponseOutcome::Export(Ok(e)) => eb.len() == 0 && notified(
                a,
                b,
                "export wrote "@ + match e.output {
                    Some(o) => o@,
                    None => "inline data"@,
                },
            ),
            ResponseOutcome::Shutdown(Ok(sd)) => eb.len() == 0 && notified(a, b, "backend "@ + sd.status@),
            _ => true,
        },
    }
}

impl App {
    fn notify(&mut self, message: String)
        ensures
            notified(*old(self), *final(self), message@),
    {
        let ghost before = self.notifications@;
        self.push_notification(message);
        proof {
            assert(views(seq![message] + before) =~= seq![message@] + views(before));
            if (seq![message] + before).len() > NOTIFICATION_LIMIT {
                assert(views((seq![message] + before).take(NOTIFICATION_LIMIT as int)) =~= (seq![message@] + views(before)).take(NOTIFICATION_LIMIT as int));
            }
        }
    }

    /// Records the connection settings of the startup form: the backend
    /// command as typed, the trimmed task (if any), and the trimmed ledger as
    /// the most recent one. The caller saves the settings before attaching.
    pub fn remember_connection(&mut self)
        ensures
            final(self).config.backend_command == Some(final(self).startup.backend_command),
            opt_view(final(self).config.default_task_name) == trimmed_opt(old(self).startup.task_name@),
            trim(old(self).startup.ledger_path@).len() == 0 ==> {
                &&& final(self).config.recent_ledgers == old(self).config.recent_ledgers
                &&& final(self).config.default_ledger_path == old(self).config.default_ledger_path
            },
            trim(old(self).startup.ledger_path@).len() > 0 ==> {
                &&& final(self).config.recent_view() == crate::config::recorded_ledgers(
                    old(self).config.recent_view(),
                    trim(old(self).startup.ledger_path@),
                )
                &&& opt_view(final(self).config.default_ledger_path) == Some(trim(old(self).startup.ledger_path@))
            },
            *final(self) == (App { config: final(self).config, ..*old(self) }),
    {
        self.config.backend_command = Some(self.startup.backend_command.clone());
        self.config.default_task_name = crate::queue::trimmed_option(self.startup.task_name.as_str());
        self.config.record_recent_ledger(self.startup.ledger_path.as_str());
    }

    /// Attaches a backend started as `command_line`: marks the console
    /// connected, asks for health, info and tasks, refreshes the data, and
    /// rebuilds the startup checks from `probe`.
    pub fn attach_backend(&mut self, command_line: String, probe: &LedgerProbe) -> (out: Vec<Effect>)
        ensures
            attached(*old(self), *final(self), out@, command_line@, *probe),
    {
        let ghost a = *self;
        let ghost cl = command_line@;
        self.connected = true;
        self.command_line = command_line;
        self.next_request_id = 1;
        self.pending = PendingTable::new();
        self.current_task = crate::queue::trimmed_option(self.startup.task_name.as_str());
        self.screen = Screen::Dashboard;
        self.group_drill = None;
        self.queue_preset = QueuePreset::Unresolved;
        self.notify(String::from_str("backend connected"));
        let ghost m1 = *self;
        proof {
            assert(attach_state(a, m1, cl));
        }
        let mut effects: Vec<Effect> = Vec::new();
        self.send_request(RpcCall::Health, PendingRequest::Health, &mut effects);
        let ghost ma = *self;
        let ghost ea = effects@;
        self.send_request(RpcCall::Info, PendingRequest::Info, &mut effects);
        let ghost mb = *self;
        let ghost eb = effects@;
        self.send_request(RpcCall::Tasks, PendingRequest::Tasks, &mut effects);
        let ghost m2 = *self;
        let ghost e2 = effects@;
        proof {
            lemma_sent_compose(m1, ma, mb, Seq::empty(), ea, eb, seq![RpcCall::Health], seq![PendingRequest::Health], seq![RpcCall::Info], seq![PendingRequest::Info]);
            lemma_sent_compose(m1, mb, m2, Seq::empty(), eb, e2, seq![RpcCall::Health] + seq![RpcCall::Info], seq![PendingRequest::Health] + seq![PendingRequest::Info], seq![RpcCall::Tasks], seq![PendingRequest::Tasks]);
            assert(seq![RpcCall::Health] + seq![RpcCall::Info] + seq![RpcCall::Tasks] =~= attach_calls());
            assert(seq![PendingRequest::Health] + seq![PendingRequest::Info] + seq![PendingRequest::Tasks] =~= attach_requests());
        }
        self.refresh_into(&mut effects);
        let ghost m3 = *self;
        self.update_validation_checks(probe);
        proof {
            assert(checks_updated(m3, *self, *probe));
        }
        effects
    }

    /// Records that the shutdown request `id` could not be written.
    pub fn shutdown_request_failed(&mut self, id: &str, error: &str)
        ensures
            exists|m: App|
                #[trigger] notified(m, *final(self), "backend shutdown request failed: "@ + error@)
                    && m == (App { pending: m.pending, ..*old(self) })
                    && m.pending_pairs() == pending_without(old(self).pending_pairs(), id@),
    {
        self.discard_pending(id);
        let ghost m = *self;
        let mut message = String::from_str("backend shutdown request failed: ");
        message.append(error);
        self.notify(message);
        proof {
            assert(notified(m, *self, "backend shutdown request failed: "@ + error@));
        }
    }

    /// Shows a line the backend logged.
    pub fn handle_backend_log(&mut self, line: &str)
        ensures
            notified(*old(self), *final(self), "backend: "@ + line@),
    {
        let mut message = String::from_str("backend: ");
        message.append(line);
        self.notify(message);
    }

    /// Handles the backend's exit: disconnects, forgets pending requests, and
    /// returns to the startup screen.
    pub fn handle_backend_exit(&mut self, code: Option<i32>)
        ensures
            exists|m: App|
                #[trigger] notified(m, *final(self), exit_message(code)) && m == (App {
                    connected: false,
                    pending: m.pending,
                    screen: Screen::Startup,
                    ..*old(self)
                }) && m.pending@.len() == 0,
    {
        self.connected = false;
        self.pending = PendingTable::new();
        self.screen = Screen::Startup;
        let ghost m = *self;
        let message = match code {
            Some(c) => {
                let mut text = String::from_str("backend exited (");
                let n = crate::text::i64_to_decimal(c as i64);
                text.append(n.as_str());
                text.append(")");
                text
            },
            None => String::from_str("backend exited (signal)"),
        };
        self.notify(message);
        proof {
            assert(notified(m, *self, exit_message(code)));
        }
    }

    /// Matches a reply to the request it answers, removing that request from
    /// the pending table; a reply to no pending request is dropped.
    pub fn handle_response(&mut self, response: crate::protocol::RpcResponseEnvelope) -> (out: Option<ResponseTask>)
        ensures
            final(self).pending_pairs() == pending_without(old(self).pending_pairs(), crate::protocol::id_text(response.id)),
            *final(self) == (App { pending: final(self).pending, ..*old(self) }),
            ids_unique(final(self).pending_pairs()),
            pending_lookup(old(self).pending_pairs(), crate::protocol::id_text(response.id)) is Some ==> exists|k: int|
                0 <= k < old(self).pending_pairs().len() && old(self).pending_pairs()[k].0 == crate::protocol::id_text(response.id)
                    && #[trigger] old(self).pending_pairs().remove(k) == final(self).pending_pairs(),
            final(self).pending@.len() == if pending_lookup(
                old(self).pending_pairs(),
                crate::protocol::id_text(response.id),
            ) is Some {
                old(self).pending@.len() - 1
            } else {
                old(self).pending@.len() as int
            },
            match pending_lookup(old(self).pending_pairs(), crate::protocol::id_text(response.id)) {
                None => out is None,
                Some(req) => out matches Some(t) && t.request == req && match crate::protocol::envelope_outcome(response) {
                    Ok(text) => t.result == Ok::<String, String>(text),
                    Err(e) => t.result matches Err(m) && m@ == crate::protocol::rpc_error_report(e),
                },
            },
    {
        self.pending.ids_are_unique();
        proof {
            law_reply_removes_its_request(self.pending_pairs(), crate::protocol::id_text(response.id));
        }
        let id = response.id_string();
        let request = match self.take_pending(id.as_str()) {
            Some(r) => r,
            None => {
                return None;
            },
        };
        let result = match response.into_result() {
            Ok(text) => Ok(text),
            Err(e) => Err(crate::protocol::format_rpc_error(&e)),
        };
        Some(ResponseTask { request, result })
    }

    /// Applies a decoded reply; returns the requests it leads to. `probe` is
    /// what the local check of the ledger path found.
    /// A summary or task list in a reply must hold its maps in key order.
    pub fn apply_response(&mut self, outcome: ResponseOutcome, probe: &LedgerProbe) -> (out: Vec<Effect>)
        requires
            outcome matches ResponseOutcome::Summary(Ok(sm)) ==> sm.well_formed(),
            outcome matches ResponseOutcome::Tasks(Ok(t)) ==> t.well_formed(),
        ensures
            response_applied(*old(self), *final(self), out@, outcome, *probe),
            old(self).summary.well_formed() ==> final(self).summary.well_formed(),
            old(self).tasks.well_formed() ==> final(self).tasks.well_formed(),
    {
        let ghost a = *self;
        let mut effects: Vec<Effect> = Vec::new();
        match outcome {
            ResponseOutcome::Health(Ok(h)) => {
                self.health = Some(h);
                self.update_validation_checks(probe);
            },
            ResponseOutcome::Info(Ok(i)) => {
                self.ledger_info = Some(i);
                self.update_validation_checks(probe);
            },
            ResponseOutcome::Tasks(Ok(t)) => {
                self.tasks = t;
                if self.current_task.is_none() && self.tasks.task_names.len() == 1 {
                    let first = self.tasks.task_names[0].clone();
                    self.startup.task_name = first.clone();
                    self.current_task = Some(first);
                    let ghost m2 = *self;
                    self.refresh_into(&mut effects);
                    let ghost m3 = *self;
                    self.update_validation_checks(probe);
                    proof {
                        assert(refreshed(m2, m3, Seq::empty(), effects@) && checks_updated(m3, *self, *probe));
                    }
                } else {
                    self.update_validation_checks(probe);
                }
            },
            ResponseOutcome::Summary(Ok(sm)) => {
                self.summary = sm;
                self.update_validation_checks(probe);
            },
            ResponseOutcome::Rows(Ok(r)) => {
                self.all_rows = r.rows;
                self.clamp_queue_selection();
            },
            ResponseOutcome::Actions(Ok(l)) => {
                self.bulk_actions = l.actions;
                self.bulk_selected = 0;
            },
            ResponseOutcome::DetailRow { task_name, item_id, result: Ok(r) } => {
                if str_eq(self.detail.task_name.as_str(), task_name.as_str()) && str_eq(self.detail.item_id.as_str(), item_id.as_str()) {
                    self.detail.row = Some(r.row);
                }
            },
            ResponseOutcome::DetailHistory { task_name, item_id, result: Ok(h) } => {
                if str_eq(self.detail.task_name.as_str(), task_name.as_str()) && str_eq(self.detail.item_id.as_str(), item_id.as_str()) {
                    self.detail.history = h.events;
                }
            },
            ResponseOutcome::DetailPreview { task_name, item_id, result: Ok(p) } => {
                if str_eq(self.detail.task_name.as_str(), task_name.as_str()) && str_eq(self.detail.item_id.as_str(), item_id.as_str()) {
                    self.detail.preview = Some(p.preview);
                }
            },
            ResponseOutcome::ValidateForDecision { task_name, item_id, action, edits, result: Ok(v) } => {
                if !v.valid {
                    self.modal = Some(Modal::Info(InfoModal {
                        title: String::from_str("Validation Failed"),
                        body: join_strings(&v.errors, "\n"),
                    }));
                } else {
                    let derived = match &v.approved_output {
                        Some(t) => t.clone(),
                        None => String::from_str("no approved output preview returned"),
                    };
                    let mut body = String::from_str("Validation passed for ");
                    body.append(task_name.as_str());
                    body.append(":");
                    body.append(item_id.as_str());
                    body.append(".\n\nDerived approved output:\n");
                    body.append(derived.as_str());
                    self.modal = Some(Modal::Confirm(ConfirmModal {
                        title: String::from_str("Confirm Approve With Edit"),
                        body,
                        action: ConfirmAction::Decision { task_name, item_id, action, edits },
                    }));
                }
            },
            ResponseOutcome::ApplyDecision { task_name, item_id, result: Ok(d) } => {
                let mut message = task_name.clone();
                message.append(":");
                message.append(item_id.as_str());
                message.append(" -> ");
                message.append(d.status.as_str());
                self.notify(message);
                let ghost m1 = *self;
                self.refresh_into(&mut effects);
                let ghost m2 = *self;
                let ghost e2 = effects@;
                if str_eq(self.detail.task_name.as_str(), task_name.as_str()) && str_eq(self.detail.item_id.as_str(), item_id.as_str()) {
                    self.open_selected_row(&mut effects);
                }
                proof {
                    assert(notified(a, m1, task_name@ + ":"@ + item_id@ + " -> "@ + d.status@));
                    assert(refreshed(m1, m2, Seq::empty(), e2));
                }
            },
            ResponseOutcome::InvokeAction { action, result: Ok(r) } => {
                let n = count_successes(&r.results);
                let mut message = action.clone();
                message.append(" completed on ");
                let count = usize_to_decimal(n);
                message.append(count.as_str());
                message.append(" rows");
                self.notify(message);
                let ghost m1 = *self;
                self.refresh_into(&mut effects);
                proof {
                    assert(notified(a, m1, action@ + " completed on "@ + decimal(success_count(r.results@)) + " rows"@));
                }
            },
            ResponseOutcome::Export(Ok(e)) => {
                let mut message = String::from_str("export wrote ");
                match &e.output {
                    Some(o) => message.append(o.as_str()),
                    None => message.append("inline data"),
                }
                self.notify(message);
            },
            ResponseOutcome::Shutdown(Ok(sd)) => {
                let mut message = String::from_str("backend ");
                message.append(sd.status.as_str());
                self.notify(message);
            },
            ResponseOutcome::Health(Err(e)) | ResponseOutcome::Info(Err(e)) | ResponseOutcome::Tasks(Err(e))
            | ResponseOutcome::Summary(Err(e)) | ResponseOutcome::Rows(Err(e)) | ResponseOutcome::Actions(Err(e))
            | ResponseOutcome::DetailRow { result: Err(e), .. } | ResponseOutcome::DetailHistory { result: Err(e), .. }
            | ResponseOutcome::DetailPreview { result: Err(e), .. }
            | ResponseOutcome::ValidateForDecision { result: Err(e), .. }
            | ResponseOutcome::ApplyDecision { result: Err(e), .. }
            | ResponseOutcome::InvokeAction { result: Err(e), .. } | ResponseOutcome::Export(Err(e))
            | ResponseOutcome::Shutdown(Err(e)) => {
                let mut message = String::from_str("request failed: ");
                message.append(e.as_str());
                self.notify(message);
            },
        }
        effects
    }
}

/// How many action outcomes succeeded.
fn count_successes(results: &Vec<crate::protocol::ActionOutcome>) -> (n: usize)
    ensures
        n == success_count(results@),
{
    let mut n: usize = 0;
    let mut i: usize = 0;
    while i < results.len()
        invariant
            i <= results.len(),
            n == success_count(results@.take(i as int)),
            n <= i,
        decreases results.len() - i,
    {
        proof {
            assert(results@.take(i + 1).drop_last() =~= results@.take(i as int));
            assert(results@.take(i + 1).last() == results@[i as int]);
        }
        if str_eq(results[i].status.as_str(), "ok") || str_eq(results[i].status.as_str(), "applied") {
            n = n + 1;
        }
        i = i + 1;
    }
    proof {
        assert(results@.take(results@.len() as int) =~= results@);
    }
    n
}

/// Filtering is local over the fetched rows: every row on show is a fetched
/// row, and no more rows are on show than were fetched.
pub proof fn law_visible_rows_are_fetched(app: App)
    ensures
        app.visible().len() <= app.all_rows@.len(),
        forall|i: int| 0 <= i < app.visible().len() ==> app.all_rows@.contains(#[trigger] app.visible()[i]),
{
    lemma_visible_among_subset(app, app.all_rows@);
}

proof fn lemma_visible_among_subset(app: App, rows: Seq<RowView>)
    ensures
        app.visible_among(rows).len() <= rows.len(),
        forall|i: int| 0 <= i < app.visible_among(rows).len() ==> rows.contains(#[trigger] app.visible_among(rows)[i]),
    decreases rows.len(),
{
    if rows.len() > 0 {
        let t = rows.drop_last();
        lemma_visible_among_subset(app, t);
        let v = app.visible_among(rows);
        assert forall|i: int| 0 <= i < v.len() implies rows.contains(#[trigger] v[i]) by {
            if i < app.visible_among(t).len() {
                assert(v[i] == app.visible_among(t)[i]);
                let k = choose|k: int| 0 <= k < t.len() && t[k] == v[i];
                assert(rows[k] == v[i]);
            } else {
                assert(rows[rows.len() - 1] == v[i]);
            }
        }
    }
}

/// The rows on show are the fetched rows that the preset, the drill-down
/// and the filter admit, in the order they were fetched.
pub proof fn law_visible_is_filter(app: App)
    ensures
        app.visible() == app.all_rows@.filter(|r: RowView| app.row_visible(r)),
{
    lemma_visible_among_filter(app, app.all_rows@);
}

proof fn lemma_visible_among_filter(app: App, rows: Seq<RowView>)
    ensures
        app.visible_among(rows) == rows.filter(|r: RowView| app.row_visible(r)),
    decreases rows.len(),
{
    reveal(Seq::filter);
    if rows.len() > 0 {
        lemma_visible_among_filter(app, rows.drop_last());
    }
}

/// A kept queue selection points at a row on show, or is 0 when none is on show.
pub proof fn law_clamped_selection_in_range(app: App)
    ensures
        app.visible().len() == 0 ==> app.clamped_selection() == 0,
        app.visible().len() > 0 ==> app.clamped_selection() < app.visible().len(),
{
}

/// Notifications stay few, newest first.
pub proof fn law_notifications_bounded(before: Seq<Seq<char>>, msg: Seq<char>)
    ensures
        at_most(seq![msg] + before, NOTIFICATION_LIMIT as nat).len() <= NOTIFICATION_LIMIT,
        at_most(seq![msg] + before, NOTIFICATION_LIMIT as nat)[0] == msg,
{
}

/// The dimensions in dashboard order.
pub open spec fn dimension_at(k: int) -> GroupDimension {
    if k == 0 {
        GroupDimension::HumanStatus
    } else if k == 1 {
        GroupDimension::MachineStatus
    } else if k == 2 {
        GroupDimension::RiskFlag
    } else if k == 3 {
        GroupDimension::SourcePrefix
    } else {
        GroupDimension::Category
    }
}

fn dimension_at_exec(k: usize) -> (d: GroupDimension)
    ensures
        d == dimension_at(k as int),
{
    if k == 0 {
        GroupDimension::HumanStatus
    } else if k == 1 {
        GroupDimension::MachineStatus
    } else if k == 2 {
        GroupDimension::RiskFlag
    } else if k == 3 {
        GroupDimension::SourcePrefix
    } else {
        GroupDimension::Category
    }
}

/// The text of an optional string, empty for none.
fn opt_or_empty(o: &Option<String>) -> (out: String)
    ensures
        match o {
            Some(s) => out@ == s@,
            None => out@.len() == 0,
        },
{
    match o {
        Some(s) => s.clone(),
        None => String::new(),
    }
}

/// The ids a bulk run or an export is given are, in order, the item ids of
/// the rows they are given for.
pub proof fn law_scope_ids_are_item_ids(rows: Seq<RowView>)
    ensures
        item_ids(rows).len() == rows.len(),
        forall|k: int| 0 <= k < rows.len() ==> #[trigger] item_ids(rows)[k] == rows[k].item_id@,
{
}

/// A bulk run put up for confirmation carries, in order, the item ids of
/// the rows on show (not their task names or any other field).
pub proof fn law_bulk_run_carries_visible_item_ids(a: App, b: App)
    requires
        a.modal is None,
        bulk_confirm_post(a, b),
    ensures
        b.modal matches Some(Modal::Confirm(c)) ==> (c.action matches ConfirmAction::BulkInvoke { item_ids: ids, .. } ==> {
            &&& ids@.len() == a.visible().len()
            &&& forall|k: int| 0 <= k < ids@.len() ==> #[trigger] ids@[k]@ == a.visible()[k].item_id@
        }),
{
    if let Some(Modal::Confirm(c)) = b.modal {
        if let ConfirmAction::BulkInvoke { item_ids: ids, .. } = c.action {
            assert(views(ids@) == item_ids(a.visible()));
            assert(views(ids@).len() == ids@.len());
            assert(item_ids(a.visible()).len() == a.visible().len());
            assert forall|k: int| 0 <= k < ids@.len() implies #[trigger] ids@[k]@ == a.visible()[k].item_id@ by {
                assert(views(ids@)[k] == ids@[k]@);
                assert(item_ids(a.visible())[k] == a.visible()[k].item_id@);
            }
        }
    }
}

/// An export put up for confirmation carries, in order, the item ids of the
/// rows on show.
pub proof fn law_export_carries_visible_item_ids(
    a: App,
    b: App,
    ea: Seq<Effect>,
    eb: Seq<Effect>,
    prompt: TextInputModal,
    out: Result<(), String>,
)
    requires
        a.modal is None,
        prompt.target is ExportPath,
        text_submitted(a, b, ea, eb, prompt, out),
    ensures
        b.modal matches Some(Modal::Confirm(c)) ==> (c.action matches ConfirmAction::Export { item_ids: ids, .. } ==> {
            &&& ids@.len() == a.visible().len()
            &&& forall|k: int| 0 <= k < ids@.len() ==> #[trigger] ids@[k]@ == a.visible()[k].item_id@
        }),
{
    if let Some(Modal::Confirm(c)) = b.modal {
        if let ConfirmAction::Export { item_ids: ids, .. } = c.action {
            assert(views(ids@) == item_ids(a.visible()));
            assert(views(ids@).len() == ids@.len());
            assert(item_ids(a.visible()).len() == a.visible().len());
            assert forall|k: int| 0 <= k < ids@.len() implies #[trigger] ids@[k]@ == a.visible()[k].item_id@ by {
                assert(views(ids@)[k] == ids@[k]@);
                assert(item_ids(a.visible())[k] == a.visible()[k].item_id@);
            }
        }
    }
}

/// The distance between two integers.
pub open spec fn distance(x: int, y: int) -> int {
    if x >= y { x - y } else { y - x }
}

/// A moved selection lands on the item nearest to where the move points:
/// among the `len` items (when there are any) no position is closer to
/// `sel + delta`, so a move past the end stops at the last item and a move
/// before the start at the first.
pub proof fn law_move_lands_on_nearest_item(sel: int, delta: int, len: int, j: int)
    requires
        len > 0,
        0 <= j < len,
    ensures
        0 <= clamp_move(sel, delta, len) < len,
        distance(clamp_move(sel, delta, len), sel + delta) <= distance(j, sel + delta),
        sel + delta >= len - 1 ==> clamp_move(sel, delta, len) == len - 1,
        sel + delta <= 0 ==> clamp_move(sel, delta, len) == 0,
{
}

/// The schema check passes exactly when the ledger reports schema `1.0`, the
/// supported one, and then names the schema and the service version; without
/// a report it waits.
pub proof fn law_schema_check_accepts_version_one(app: App, probe: LedgerProbe)
    ensures
        checks_for(app, probe).len() == 10,
        checks_for(app, probe)[2].0 == "schema/version"@,
        app.ledger_info is None ==> checks_for(app, probe)[2].1 == CheckStatus::Warn,
        app.ledger_info matches Some(i) ==> (checks_for(app, probe)[2].1 == CheckStatus::Pass
            <==> i.schema_version@ == "1.0"@),
        app.ledger_info matches Some(i) ==> (i.schema_version@ == "1.0"@ ==> checks_for(app, probe)[2].2
            == "schema 1.0 service "@ + i.service_version@),
{
    if let Some(i) = app.ledger_info {
        if i.schema_version@ == "1.0"@ {
            reveal_strlit("schema ");
            reveal_strlit("1.0");
            reveal_strlit(" service ");
            reveal_strlit("schema 1.0 service ");
            assert("schema "@ + i.schema_version@ + " service "@ =~= "schema 1.0 service "@);
        }
    }
}

/// The decision a detail key asks to confirm: `a` approve, `x` reject, `f`
/// needs_review (follow-up).
pub open spec fn decision_of_key(c: char) -> Seq<char> {
    if c == 'a' {
        "approve"@
    } else if c == 'x' {
        "reject"@
    } else {
        "needs_review"@
    }
}

/// On the row detail, with a row open and no dialog, the keys `a`, `x` and `f`
/// ask to confirm three different decisions on that row (approve, reject,
/// needs_review) and send nothing yet.
pub proof fn law_detail_decision_keys(a: App, b: App, eb: Seq<Effect>, key: KeyEvent, out: Result<(), String>)
    requires
        a.modal is None,
        a.screen == Screen::Detail,
        a.detail.task_name@.len() > 0,
        a.detail.item_id@.len() > 0,
        key.code == KeyCode::Char('a') || key.code == KeyCode::Char('x') || key.code == KeyCode::Char('f'),
        key_post(a, b, eb, key, out),
    ensures
        out is Ok,
        eb.len() == 0,
        b.screen == Screen::Detail,
        b.modal matches Some(Modal::Confirm(c)) && c.action matches ConfirmAction::Decision {
            task_name,
            item_id,
            action,
            edits,
        } && task_name == a.detail.task_name && item_id == a.detail.item_id && edits is None && (key.code
            == KeyCode::Char('a') ==> action@ == "approve"@) && (key.code == KeyCode::Char('x') ==> action@
            == "reject"@) && (key.code == KeyCode::Char('f') ==> action@ == "needs_review"@),
        "approve"@ != "reject"@ && "reject"@ != "needs_review"@ && "approve"@ != "needs_review"@,
{
    reveal_strlit("approve");
    reveal_strlit("reject");
    reveal_strlit("needs_review");
    assert("approve"@.len() == 7);
    assert("reject"@.len() == 6);
    assert("needs_review"@.len() == 12);
    let (m, em) = choose|m: App, em: Seq<Effect>| #[trigger] global_key_post(a, m, Seq::empty(), em, key) && screen_key_post(m, b, em, eb, key);
    assert(m == a);
    assert(em.len() == 0);
    assert(detail_key_post(a, b, key));
}

/// Whether `c` is one of the characters the global keys use.
pub open spec fn is_global_char(c: char) -> bool {
    c == 'q' || c == '?' || c == 'd' || c == 'l' || c == 'g' || c == 'b' || c == 'p' || c == 'r' || c == 't' || c == 'x'
}

proof fn lemma_screen_key(a: App, b: App, eb: Seq<Effect>, key: KeyEvent, out: Result<(), String>)
    requires
        a.modal is None,
        a.screen != Screen::Startup,
        a.screen != Screen::Help,
        key.code != KeyCode::Esc,
        key.code matches KeyCode::Char(c) ==> !is_global_char(c),
        key_post(a, b, eb, key, out),
    ensures
        out is Ok,
        screen_key_post(a, b, Seq::empty(), eb, key),
{
    let (m, em) = choose|m: App, em: Seq<Effect>|
        #[trigger] global_key_post(a, m, Seq::empty(), em, key) && screen_key_post(m, b, em, eb, key);
    assert(m == a && em == Seq::<Effect>::empty());
}

/// On the queue, `j`/Down and `k`/Up move the selection one row down and up,
/// PageDown and PageUp ten rows, each kept within the rows on show; nothing
/// else changes and nothing is sent.
pub proof fn law_queue_movement_keys(a: App, b: App, eb: Seq<Effect>, key: KeyEvent, out: Result<(), String>)
    requires
        a.modal is None,
        a.screen == Screen::Queue,
        key_post(a, b, eb, key, out),
    ensures
        (key.code == KeyCode::Down || key.code == KeyCode::Char('j')) ==> b == (App {
            queue_selected: clamp_move(a.queue_selected as int, 1, a.visible().len() as int) as usize,
            ..a
        }) && eb.len() == 0,
        (key.code == KeyCode::Up || key.code == KeyCode::Char('k')) ==> b == (App {
            queue_selected: clamp_move(a.queue_selected as int, -1, a.visible().len() as int) as usize,
            ..a
        }) && eb.len() == 0,
        key.code == KeyCode::PageDown ==> b == (App {
            queue_selected: clamp_move(a.queue_selected as int, 10, a.visible().len() as int) as usize,
            ..a
        }) && eb.len() == 0,
        key.code == KeyCode::PageUp ==> b == (App {
            queue_selected: clamp_move(a.queue_selected as int, -10, a.visible().len() as int) as usize,
            ..a
        }) && eb.len() == 0,
        key.code == KeyCode::Char(']') ==> b.queue_preset == crate::queue::cycled(a.queue_preset, 1) && b.group_drill is None,
        key.code == KeyCode::Char('[') ==> b.queue_preset == crate::queue::cycled(a.queue_preset, -1) && b.group_drill is None,
{
    if key.code == KeyCode::Down || key.code == KeyCode::Char('j') || key.code == KeyCode::Up || key.code
        == KeyCode::Char('k') || key.code == KeyCode::PageDown || key.code == KeyCode::PageUp || key.code
        == KeyCode::Char(']') || key.code == KeyCode::Char('[') {
        lemma_screen_key(a, b, eb, key, out);
    }
}

/// On the group screen, `1` to `5` choose the dimensions human status,
/// machine status, risk flag, source prefix and category, and `c` clears the
/// drill-down back to the unresolved preset.
pub proof fn law_group_dimension_keys(a: App, b: App, eb: Seq<Effect>, key: KeyEvent, out: Result<(), String>)
    requires
        a.modal is None,
        a.screen == Screen::Groups,
        key_post(a, b, eb, key, out),
    ensures
        key.code == KeyCode::Char('1') ==> b == (App { group_dimension: GroupDimension::HumanStatus, ..a }),
        key.code == KeyCode::Char('2') ==> b == (App { group_dimension: GroupDimension::MachineStatus, ..a }),
        key.code == KeyCode::Char('3') ==> b == (App { group_dimension: GroupDimension::RiskFlag, ..a }),
        key.code == KeyCode::Char('4') ==> b == (App { group_dimension: GroupDimension::SourcePrefix, ..a }),
        key.code == KeyCode::Char('5') ==> b == (App { group_dimension: GroupDimension::Category, ..a }),
        key.code == KeyCode::Char('c') ==> b == (App { group_drill: None, queue_preset: QueuePreset::Unresolved, ..a }),
{
    if key.code == KeyCode::Char('1') || key.code == KeyCode::Char('2') || key.code == KeyCode::Char('3')
        || key.code == KeyCode::Char('4') || key.code == KeyCode::Char('5') || key.code == KeyCode::Char('c') {
        lemma_screen_key(a, b, eb, key, out);
    }
}

/// On the dashboard, `1` to `4` choose the presets unresolved, approved,
/// rejected and provider_error, and Enter opens the queue.
pub proof fn law_dashboard_keys(a: App, b: App, eb: Seq<Effect>, key: KeyEvent, out: Result<(), String>)
    requires
        a.modal is None,
        a.screen == Screen::Dashboard,
        key_post(a, b, eb, key, out),
    ensures
        key.code == KeyCode::Char('1') ==> b == (App { queue_preset: QueuePreset::Unresolved, ..a }),
        key.code == KeyCode::Char('2') ==> b == (App { queue_preset: QueuePreset::Approved, ..a }),
        key.code == KeyCode::Char('3') ==> b == (App { queue_preset: QueuePreset::Rejected, ..a }),
        key.code == KeyCode::Char('4') ==> b == (App { queue_preset: QueuePreset::ProviderError, ..a }),
        key.code == KeyCode::Enter ==> b == (App { screen: Screen::Queue, ..a }),
{
    if key.code == KeyCode::Char('1') || key.code == KeyCode::Char('2') || key.code == KeyCode::Char('3')
        || key.code == KeyCode::Char('4') || key.code == KeyCode::Enter {
        lemma_screen_key(a, b, eb, key, out);
    }
}

/// On the apply screen, Enter jumps to the queue of rows ready to apply.
pub proof fn law_apply_enter_opens_apply_ready(a: App, b: App, eb: Seq<Effect>, key: KeyEvent, out: Result<(), String>)
    requires
        a.modal is None,
        a.screen == Screen::Apply,
        key.code == KeyCode::Enter,
        key_post(a, b, eb, key, out),
    ensures
        b == (App { queue_preset: QueuePreset::ApplyReady, screen: Screen::Queue, ..a }),
        eb.len() == 0,
{
    lemma_screen_key(a, b, eb, key, out);
}

/// The backend check passes exactly when the service reports status `ok`,
/// and then shows the ledger path; the unresolved count check shows the
/// summary's unresolved count in decimal; the ledger file check passes
/// exactly when the path is a regular file.
pub proof fn law_startup_checks(app: App, probe: LedgerProbe)
    ensures
        checks_for(app, probe)[1].0 == "backend reachable"@,
        app.health matches Some(h) ==> (checks_for(app, probe)[1].1 == CheckStatus::Pass <==> h.status@ == "ok"@),
        app.health matches Some(h) ==> (h.status@ == "ok"@ ==> checks_for(app, probe)[1].2 == h.ledger_path@),
        app.health is None ==> checks_for(app, probe)[1].1 == CheckStatus::Warn,
        checks_for(app, probe)[5].0 == "unresolved count"@,
        checks_for(app, probe)[5].2 == decimal(count_of(app.summary.counts@, "unresolved"@)),
        checks_for(app, probe)[0].1 == CheckStatus::Pass <==> probe is RegularFile,
{
}

/// A confirmation is cancelled by Esc or `n`, which close it and send
/// nothing, and accepted by Enter or `y`, which carry out its action; a
/// decision accepted this way sends `rows.decide` for the row with the
/// confirmed action, applied.
pub proof fn law_confirmation_keys(a: App, b: App, eb: Seq<Effect>, key: KeyEvent, out: Result<(), String>)
    requires
        a.modal matches Some(Modal::Confirm(_)),
        key_post(a, b, eb, key, out),
    ensures
        out is Ok,
        (key.code == KeyCode::Esc || key.code == KeyCode::Char('n')) ==> b == (App { modal: None, ..a }) && eb.len() == 0,
        (key.code == KeyCode::Enter || key.code == KeyCode::Char('y')) ==> b.modal is None,
        a.modal matches Some(Modal::Confirm(c)) ==> ((key.code == KeyCode::Enter || key.code == KeyCode::Char('y')) ==> (c.action matches ConfirmAction::Decision { task_name, item_id, action, edits } ==> (a.connected ==> eb.len() == 1 && is_send(
            eb[0],
            decimal(a.next_request_id as nat),
            RpcCall::Decide { task_name, item_id, action, edits, apply: true },
        )))),
{
    if let Some(Modal::Confirm(c)) = a.modal {
        if key.code == KeyCode::Enter || key.code == KeyCode::Char('y') {
            if let ConfirmAction::Decision { task_name, item_id, action, edits } = c.action {
                if a.connected {
                    let call = RpcCall::Decide { task_name, item_id, action, edits, apply: true };
                    assert(sent(
                        App { modal: None, ..a },
                        b,
                        Seq::empty(),
                        eb,
                        seq![call],
                        seq![PendingRequest::ApplyDecision { task_name, item_id }],
                    ));
                    assert(id_advance(a.next_request_id, 0) == a.next_request_id);
                    let ea = Seq::<Effect>::empty();
                    assert(is_send(eb[ea.len() + 0int], decimal(id_advance(a.next_request_id, 0) as nat), seq![call][0]));
                    assert(ea.len() + 0int == 0);
                }
            }
        }
    }
}

/// Esc on the row detail goes back to the queue and changes nothing else;
/// `?` opens the help and Esc or `?` there returns to the screen it was opened from.
pub proof fn law_back_and_help_keys(a: App, b: App, eb: Seq<Effect>, key: KeyEvent, out: Result<(), String>)
    requires
        a.modal is None,
        key_post(a, b, eb, key, out),
    ensures
        a.screen == Screen::Detail && key.code == KeyCode::Esc ==> b == (App { screen: Screen::Queue, ..a }) && eb.len() == 0,
        a.screen != Screen::Startup && a.screen != Screen::Help && key.code == KeyCode::Char('?') ==> b == (App {
            previous_screen: a.screen,
            screen: Screen::Help,
            ..a
        }),
        a.screen == Screen::Help && (key.code == KeyCode::Esc || key.code == KeyCode::Char('?')) ==> b == (App {
            screen: a.previous_screen,
            ..a
        }),
{
    if a.screen == Screen::Detail && key.code == KeyCode::Esc {
        let (m, em) = choose|m: App, em: Seq<Effect>|
            #[trigger] global_key_post(a, m, Seq::empty(), em, key) && screen_key_post(m, b, em, eb, key);
        assert(m == (App { screen: Screen::Queue, ..a }));
    }
}

/// On the row detail, `o`, `p` and `h` show the overview, preview and
/// history panels and change nothing else.
pub proof fn law_detail_panel_keys(a: App, b: App, eb: Seq<Effect>, key: KeyEvent, out: Result<(), String>)
    requires
        a.modal is None,
        a.screen == Screen::Detail,
        key_post(a, b, eb, key, out),
    ensures
        key.code == KeyCode::Char('o') ==> b == (App { detail: DetailState { tab: DetailTab::Overview, ..a.detail }, ..a }),
        key.code == KeyCode::Char('p') ==> b == (App { detail: DetailState { tab: DetailTab::Preview, ..a.detail }, ..a }),
        key.code == KeyCode::Char('h') ==> b == (App { detail: DetailState { tab: DetailTab::History, ..a.detail }, ..a }),
{
    if key.code == KeyCode::Char('o') || key.code == KeyCode::Char('h') {
        lemma_screen_key(a, b, eb, key, out);
    }
    if key.code == KeyCode::Char('p') {
        let (m, em) = choose|m: App, em: Seq<Effect>|
            #[trigger] global_key_post(a, m, Seq::empty(), em, key) && screen_key_post(m, b, em, eb, key);
        assert(m == a);
    }
}

/// On the bulk screen, `j`/Down and `k`/Up move the action selection one
/// down and up, kept within the actions listed.
pub proof fn law_bulk_movement_keys(a: App, b: App, eb: Seq<Effect>, key: KeyEvent, out: Result<(), String>)
    requires
        a.modal is None,
        a.screen == Screen::Bulk,
        key_post(a, b, eb, key, out),
    ensures
        (key.code == KeyCode::Down || key.code == KeyCode::Char('j')) ==> b == (App {
            bulk_selected: clamp_move(a.bulk_selected as int, 1, a.bulk_actions@.len() as int) as usize,
            ..a
        }),
        (key.code == KeyCode::Up || key.code == KeyCode::Char('k')) ==> b == (App {
            bulk_selected: clamp_move(a.bulk_selected as int, -1, a.bulk_actions@.len() as int) as usize,
            ..a
        }),
{
    if key.code == KeyCode::Down || key.code == KeyCode::Char('j') || key.code == KeyCode::Up || key.code
        == KeyCode::Char('k') {
        lemma_screen_key(a, b, eb, key, out);
    }
}

} // verus!
