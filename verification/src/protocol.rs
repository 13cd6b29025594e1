//! The JSON-RPC 2.0 protocol spoken with the ledger service: response
//! envelopes, their errors, the calls the console makes, and the payloads it reads.
//!
//! JSON values that the console only passes on or shows are held as JSON text.

use vstd::prelude::*;
use vstd::string::*;

use crate::text::{
    clone_opt, clone_strings, i64_to_decimal, signed_decimal, str_eq,
};

verus! {

/// The protocol version the service must answer with.
pub const JSONRPC_VERSION: &'static str = "2.0";

/// The `id` member of a response.
#[derive(Debug, Clone)]
pub enum ResponseId {
    /// A JSON string.
    Text(String),
    /// A JSON number, as its JSON text.
    Number(String),
    /// JSON `null` (also what a missing id reads as).
    Null,
    /// Any other JSON value, as its compact JSON text.
    Other(String),
}

/// The `error` member of a response.
#[derive(Debug)]
pub struct RpcErrorPayload {
    pub code: i64,
    pub message: String,
    /// Optional extra data, as JSON text.
    pub data: Option<String>,
}

impl Clone for RpcErrorPayload {
    fn clone(&self) -> (out: Self)
        ensures
            out == *self,
    {
        RpcErrorPayload {
            code: self.code,
            message: self.message.clone(),
            data: clone_opt(&self.data),
        }
    }
}

/// One response line from the service.
#[derive(Debug)]
pub struct RpcResponseEnvelope {
    pub jsonrpc: String,
    pub id: ResponseId,
    /// The `result` member, as JSON text.
    pub result: Option<String>,
    pub error: Option<RpcErrorPayload>,
}

/// Why a response carries no usable result.
#[derive(Debug)]
pub enum RpcResponseError {
    /// The response named another protocol version.
    InvalidVersion(String),
    /// Neither an error nor a result was present.
    MissingResult,
    /// The service reported an error.
    Service(RpcErrorPayload),
    /// The result did not have the expected shape; the decoder's message.
    Deserialize(String),
}

/// The text an id is matched by: a string id as it is, any other id as JSON text.
pub open spec fn id_text(id: ResponseId) -> Seq<char> {
    match id {
        ResponseId::Text(s) => s@,
        ResponseId::Number(s) => s@,
        ResponseId::Null => "null"@,
        ResponseId::Other(s) => s@,
    }
}

/// What a response envelope resolves to, checked in this order: the version,
/// then a service error, then the presence of a result.
pub open spec fn envelope_outcome(env: RpcResponseEnvelope) -> Result<String, RpcResponseError> {
    if env.jsonrpc@ != JSONRPC_VERSION@ {
        Err(RpcResponseError::InvalidVersion(env.jsonrpc))
    } else if env.error is Some {
        Err(RpcResponseError::Service(env.error->0))
    } else if env.result is None {
        Err(RpcResponseError::MissingResult)
    } else {
        Ok(env.result->0)
    }
}

/// The message of a service error: `rpc error <code>: <message>`.
pub open spec fn payload_message(p: RpcErrorPayload) -> Seq<char> {
    "rpc error "@ + signed_decimal(p.code as int) + ": "@ + p.message@
}

/// The message of a response error.
pub open spec fn response_error_message(e: RpcResponseError) -> Seq<char> {
    match e {
        RpcResponseError::InvalidVersion(v) => "unexpected jsonrpc version: "@ + v@,
        RpcResponseError::MissingResult => "missing result payload"@,
        RpcResponseError::Service(p) => payload_message(p),
        RpcResponseError::Deserialize(m) => "failed to deserialize rpc result: "@ + m@,
    }
}

/// How a failed request is reported: a service error as `rpc <code>: <message>`,
/// anything else by its message.
pub open spec fn rpc_error_report(e: RpcResponseError) -> Seq<char> {
    match e {
        RpcResponseError::Service(p) => "rpc "@ + signed_decimal(p.code as int) + ": "@ + p.message@,
        other => response_error_message(other),
    }
}

impl RpcResponseEnvelope {
    /// The id as the text requests are matched by.
    pub fn id_string(&self) -> (out: String)
        ensures
            out@ == id_text(self.id),
    {
        match &self.id {
            ResponseId::Text(s) => s.clone(),
            ResponseId::Number(s) => s.clone(),
            ResponseId::Null => String::from_str("null"),
            ResponseId::Other(s) => s.clone(),
        }
    }

    /// The result's JSON text, or why there is none.
    pub fn into_result(self) -> (out: Result<String, RpcResponseError>)
        ensures
            out == envelope_outcome(self),
    {
        if !str_eq(self.jsonrpc.as_str(), JSONRPC_VERSION) {
            return Err(RpcResponseError::InvalidVersion(self.jsonrpc));
        }
        if let Some(error) = self.error {
            return Err(RpcResponseError::Service(error));
        }
        match self.result {
            Some(result) => Ok(result),
            None => Err(RpcResponseError::MissingResult),
        }
    }
}

impl RpcErrorPayload {
    /// `rpc error <code>: <message>`.
    pub fn to_message(&self) -> (out: String)
        ensures
            out@ == payload_message(*self),
    {
        let mut out = String::from_str("rpc error ");
        let code = i64_to_decimal(self.code);
        out.append(code.as_str());
        out.append(": ");
        out.append(self.message.as_str());
        out
    }
}

impl RpcResponseError {
    /// The error's message.
    pub fn to_message(&self) -> (out: String)
        ensures
            out@ == response_error_message(*self),
    {
        match self {
            RpcResponseError::InvalidVersion(v) => {
                let mut out = String::from_str("unexpected jsonrpc version: ");
                out.append(v.as_str());
                out
            },
            RpcResponseError::MissingResult => String::from_str("missing result payload"),
            RpcResponseError::Service(p) => p.to_message(),
            RpcResponseError::Deserialize(m) => {
                let mut out = String::from_str("failed to deserialize rpc result: ");
                out.append(m.as_str());
                out
            },
        }
    }
}

/// How a failed request is reported to the user.
pub fn format_rpc_error(error: &RpcResponseError) -> (out: String)
    ensures
        out@ == rpc_error_report(*error),
{
    match error {
        RpcResponseError::Service(p) => {
            let mut out = String::from_str("rpc ");
            let code = i64_to_decimal(p.code);
            out.append(code.as_str());
            out.append(": ");
            out.append(p.message.as_str());
            out
        },
        other => other.to_message(),
    }
}

// ---------------------------------------------------------------------------
// Calls
// ---------------------------------------------------------------------------

/// A request the console sends, with its parameters.
#[derive(Debug)]
pub enum RpcCall {
    Health,
    Info,
    Tasks,
    Summary { task_name: Option<String>, include_superseded: bool, include_approved: bool },
    RowsList {
        task_name: Option<String>,
        include_superseded: bool,
        include_approved: bool,
        with_view: bool,
    },
    ActionsList { task_name: String },
    RowGet { task_name: String, item_id: String, with_view: bool },
    RowHistory { task_name: String, item_id: String },
    RowPreview { task_name: String, item_id: String },
    /// `edits` is JSON text.
    Validate { task_name: String, item_id: String, edits: String, derive_output: bool },
    /// `edits` is JSON text.
    Decide {
        task_name: String,
        item_id: String,
        action: String,
        edits: Option<String>,
        apply: bool,
    },
    Invoke { task_name: String, action: String, item_ids: Vec<String>, apply: bool },
    Export {
        task_name: Option<String>,
        item_ids: Vec<String>,
        format: String,
        output: String,
        include_superseded: bool,
        include_approved: bool,
    },
    Shutdown,
}

/// The method name of a call.
pub open spec fn method_name(call: RpcCall) -> Seq<char> {
    match call {
        RpcCall::Health => "ledger.health"@,
        RpcCall::Info => "ledger.info"@,
        RpcCall::Tasks => "ledger.tasks"@,
        RpcCall::Summary { .. } => "ledger.summary"@,
        RpcCall::RowsList { .. } => "rows.list"@,
        RpcCall::ActionsList { .. } => "actions.list"@,
        RpcCall::RowGet { .. } => "rows.get"@,
        RpcCall::RowHistory { .. } => "rows.history"@,
        RpcCall::RowPreview { .. } => "rows.preview"@,
        RpcCall::Validate { .. } => "rows.validate"@,
        RpcCall::Decide { .. } => "rows.decide"@,
        RpcCall::Invoke { .. } => "actions.invoke"@,
        RpcCall::Export { .. } => "export"@,
        RpcCall::Shutdown => "system.shutdown"@,
    }
}

impl RpcCall {
    /// The method name.
    pub fn method(&self) -> (out: &'static str)
        ensures
            out@ == method_name(*self),
    {
        match self {
            RpcCall::Health => "ledger.health",
            RpcCall::Info => "ledger.info",
            RpcCall::Tasks => "ledger.tasks",
            RpcCall::Summary { .. } => "ledger.summary",
            RpcCall::RowsList { .. } => "rows.list",
            RpcCall::ActionsList { .. } => "actions.list",
            RpcCall::RowGet { .. } => "rows.get",
            RpcCall::RowHistory { .. } => "rows.history",
            RpcCall::RowPreview { .. } => "rows.preview",
            RpcCall::Validate { .. } => "rows.validate",
            RpcCall::Decide { .. } => "rows.decide",
            RpcCall::Invoke { .. } => "actions.invoke",
            RpcCall::Export { .. } => "export",
            RpcCall::Shutdown => "system.shutdown",
        }
    }
}

// ---------------------------------------------------------------------------
// Payloads
// ---------------------------------------------------------------------------

/// `ledger.info`.
#[derive(Debug, Clone)]
pub struct LedgerInfo {
    pub schema_version: String,
    pub ledger_path: String,
    pub row_count: usize,
    pub task_count: usize,
    pub service_version: String,
}

/// `ledger.health`.
#[derive(Debug, Clone)]
pub struct HealthStatus {
    pub status: String,
    pub ledger_path: String,
}

/// `ledger.tasks`.
#[derive(Debug, Clone)]
pub struct LedgerTasks {
    pub task_names: Vec<String>,
    /// Row counts per task, in key order.
    pub rows_by_task: Vec<(String, usize)>,
    pub registered_adapters: Vec<String>,
}

/// The keys of `s` strictly ascend in code-point order, so none occurs
/// twice: the shape of a map ordered by its keys.
pub open spec fn keys_ascending<V>(s: Seq<(String, V)>) -> bool {
    forall|i: int, j: int| 0 <= i < j < s.len() ==> crate::grouping::lex_less(#[trigger] s[i].0@, #[trigger] s[j].0@)
}

/// Whether the keys of `s` strictly ascend in code-point order.
pub fn keys_in_order<V>(s: &Vec<(String, V)>) -> (r: bool)
    ensures
        r == keys_ascending(s@),
{
    if s.len() == 0 {
        return true;
    }
    let mut k: usize = 1;
    while k < s.len()
        invariant
            1 <= k <= s.len(),
            forall|i: int, j: int| 0 <= i < j < k ==> crate::grouping::lex_less(#[trigger] s@[i].0@, #[trigger] s@[j].0@),
        decreases s.len() - k,
    {
        if !crate::grouping::label_less(s[k - 1].0.as_str(), s[k].0.as_str()) {
            return false;
        }
        proof {
            assert forall|i: int, j: int| 0 <= i < j < k + 1 implies crate::grouping::lex_less(#[trigger] s@[i].0@, #[trigger] s@[j].0@) by {
                if j == k && i < k - 1 {
                    crate::grouping::lemma_lex_transitive(s@[i].0@, s@[k - 1].0@, s@[k as int].0@);
                }
            }
        }
        k = k + 1;
    }
    true
}

impl LedgerTasks {
    /// The row counts are a map from task name, in key order.
    pub open spec fn well_formed(&self) -> bool {
        keys_ascending(self.rows_by_task@)
    }

    /// Whether the row counts are in key order.
    pub fn is_well_formed(&self) -> (r: bool)
        ensures
            r == self.well_formed(),
    {
        keys_in_order(&self.rows_by_task)
    }

    /// No tasks, no counts, no adapters.
    pub fn empty() -> (out: Self)
        ensures
            out.well_formed(),
            out.task_names@.len() == 0,
            out.rows_by_task@.len() == 0,
            out.registered_adapters@.len() == 0,
    {
        LedgerTasks { task_names: Vec::new(), rows_by_task: Vec::new(), registered_adapters: Vec::new() }
    }
}

/// Per-task decision counts.
#[derive(Debug, Clone)]
pub struct TaskSummary {
    pub total: usize,
    pub approved: usize,
    pub rejected: usize,
    pub needs_review: usize,
}

/// `ledger.summary`.
#[derive(Debug, Clone)]
pub struct LedgerSummary {
    /// Counts by status name, in key order.
    pub counts: Vec<(String, usize)>,
    /// Summaries by task name, in key order.
    pub by_task: Vec<(String, TaskSummary)>,
}

impl LedgerSummary {
    /// The counts and the task summaries are maps from name, in key order.
    pub open spec fn well_formed(&self) -> bool {
        keys_ascending(self.counts@) && keys_ascending(self.by_task@)
    }

    /// Whether the counts and the task summaries are in key order.
    pub fn is_well_formed(&self) -> (r: bool)
        ensures
            r == self.well_formed(),
    {
        keys_in_order(&self.counts) && keys_in_order(&self.by_task)
    }

    /// No counts.
    pub fn empty() -> (out: Self)
        ensures
            out.well_formed(),
            out.counts@.len() == 0,
            out.by_task@.len() == 0,
    {
        LedgerSummary { counts: Vec::new(), by_task: Vec::new() }
    }
}

/// One ledger row as the service presents it.
#[derive(Debug)]
pub struct RowView {
    pub task_name: String,
    pub item_id: String,
    pub item_locator: Option<String>,
    pub machine_status: String,
    pub human_status: String,
    pub rerun_eligible: bool,
    /// The JSON payloads below are held as pretty-printed JSON text.
    pub proposal_payload: Option<String>,
    pub review_payload: Option<String>,
    pub apply_payload: Option<String>,
    pub human_decision_payload: Option<String>,
    pub extras: String,
    pub risk_flags: Vec<String>,
    pub categories: Vec<String>,
    pub human_notes: Option<String>,
    pub decision_source: Option<String>,
    pub decision_actor: Option<String>,
    pub decision_note: Option<String>,
    pub decision_metadata: String,
    pub rendered_summary: String,
    pub approved_output: Option<String>,
}

/// Two rows hold the same values.
pub open spec fn same_row(a: RowView, b: RowView) -> bool {
    &&& a.task_name == b.task_name
    &&& a.item_id == b.item_id
    &&& a.item_locator == b.item_locator
    &&& a.machine_status == b.machine_status
    &&& a.human_status == b.human_status
    &&& a.rerun_eligible == b.rerun_eligible
    &&& a.proposal_payload == b.proposal_payload
    &&& a.review_payload == b.review_payload
    &&& a.apply_payload == b.apply_payload
    &&& a.human_decision_payload == b.human_decision_payload
    &&& a.extras == b.extras
    &&& a.risk_flags@ == b.risk_flags@
    &&& a.categories@ == b.categories@
    &&& a.human_notes == b.human_notes
    &&& a.decision_source == b.decision_source
    &&& a.decision_actor == b.decision_actor
    &&& a.decision_note == b.decision_note
    &&& a.decision_metadata == b.decision_metadata
    &&& a.rendered_summary == b.rendered_summary
    &&& a.approved_output == b.approved_output
}

impl Clone for RowView {
    fn clone(&self) -> (out: Self)
        ensures
            same_row(out, *self),
    {
        RowView {
            task_name: self.task_name.clone(),
            item_id: self.item_id.clone(),
            item_locator: clone_opt(&self.item_locator),
            machine_status: self.machine_status.clone(),
            human_status: self.human_status.clone(),
            rerun_eligible: self.rerun_eligible,
            proposal_payload: clone_opt(&self.proposal_payload),
            review_payload: clone_opt(&self.review_payload),
            apply_payload: clone_opt(&self.apply_payload),
            human_decision_payload: clone_opt(&self.human_decision_payload),
            extras: self.extras.clone(),
            risk_flags: clone_strings(&self.risk_flags),
            categories: clone_strings(&self.categories),
            human_notes: clone_opt(&self.human_notes),
            decision_source: clone_opt(&self.decision_source),
            decision_actor: clone_opt(&self.decision_actor),
            decision_note: clone_opt(&self.decision_note),
            decision_metadata: self.decision_metadata.clone(),
            rendered_summary: self.rendered_summary.clone(),
            approved_output: clone_opt(&self.approved_output),
        }
    }
}

impl RowView {
    /// A row with the given identity and statuses and every other field empty.
    pub fn new(task_name: &str, item_id: &str, machine_status: &str, human_status: &str) -> (out: Self)
        ensures
            out.task_name@ == task_name@,
            out.item_id@ == item_id@,
            out.machine_status@ == machine_status@,
            out.human_status@ == human_status@,
            out.item_locator is None,
            out.risk_flags@.len() == 0,
            out.categories@.len() == 0,
            out.rendered_summary@.len() == 0,
    {
        RowView {
            task_name: String::from_str(task_name),
            item_id: String::from_str(item_id),
            item_locator: None,
            machine_status: String::from_str(machine_status),
            human_status: String::from_str(human_status),
            rerun_eligible: false,
            proposal_payload: None,
            review_payload: None,
            apply_payload: None,
            human_decision_payload: None,
            extras: String::from_str("null"),
            risk_flags: Vec::new(),
            categories: Vec::new(),
            human_notes: None,
            decision_source: None,
            decision_actor: None,
            decision_note: None,
            decision_metadata: String::from_str("null"),
            rendered_summary: String::new(),
            approved_output: None,
        }
    }
}

/// One version in a row's history.
#[derive(Debug, Clone)]
pub struct RowHistoryEvent {
    pub version: usize,
    pub event_type: String,
    pub machine_status: String,
    pub human_status: String,
    pub event_at: String,
    /// Pretty-printed JSON text.
    pub payload: String,
}

/// `rows.list`.
#[derive(Debug)]
pub struct RowsListResult {
    pub rows: Vec<RowView>,
    pub count: usize,
}

/// `rows.get`.
#[derive(Debug)]
pub struct RowResult {
    pub row: RowView,
}

/// `rows.history`.
#[derive(Debug)]
pub struct HistoryResult {
    pub events: Vec<RowHistoryEvent>,
}

/// `rows.preview`.
#[derive(Debug)]
pub struct PreviewResult {
    /// Pretty-printed JSON text.
    pub preview: String,
}

/// `rows.validate`.
#[derive(Debug)]
pub struct ValidationResult {
    pub valid: bool,
    pub errors: Vec<String>,
    /// Pretty-printed JSON text.
    pub approved_output: Option<String>,
}

/// A derived approved output.
#[derive(Debug)]
pub struct DeriveResult {
    /// Pretty-printed JSON text.
    pub approved_output: String,
}

/// `rows.decide`.
#[derive(Debug)]
pub struct DecisionResult {
    pub status: String,
    pub task_name: String,
    pub item_id: String,
    pub action: Option<String>,
    pub decision: Option<String>,
    pub message: Option<String>,
    pub decision_source: Option<String>,
    pub decision_actor: Option<String>,
    pub decision_note: Option<String>,
    pub validation: Option<ValidationResult>,
    /// JSON text.
    pub decision_payload: Option<String>,
    /// JSON text.
    pub approved_output: Option<String>,
    pub row: Option<RowView>,
}

/// `actions.list`.
#[derive(Debug)]
pub struct ActionsListResult {
    pub actions: Vec<ActionDescriptor>,
}

/// A backend action that can be invoked on rows.
#[derive(Debug)]
pub struct ActionDescriptor {
    pub name: String,
    pub description: String,
    pub requires_edits: bool,
    pub builtin: bool,
}

impl Clone for ActionDescriptor {
    fn clone(&self) -> (out: Self)
        ensures
            out == *self,
    {
        ActionDescriptor {
            name: self.name.clone(),
            description: self.description.clone(),
            requires_edits: self.requires_edits,
            builtin: self.builtin,
        }
    }
}

/// `actions.invoke`.
#[derive(Debug)]
pub struct ActionsInvokeResult {
    pub action: String,
    pub results: Vec<ActionOutcome>,
}

/// The outcome of an action on one row.
#[derive(Debug)]
pub struct ActionOutcome {
    pub task_name: String,
    pub item_id: String,
    pub action: Option<String>,
    pub status: String,
    pub message: Option<String>,
    /// JSON text.
    pub payload: Option<String>,
}

/// `export`.
#[derive(Debug)]
pub struct ExportResult {
    pub format: String,
    pub output: Option<String>,
    /// JSON text.
    pub data: Option<String>,
}

/// `system.shutdown`.
#[derive(Debug, Clone)]
pub struct ShutdownResult {
    pub status: String,
    pub message: Option<String>,
}

} // verus!
