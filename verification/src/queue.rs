//! The row queue: presets, the free-text filter, and export formats.

use vstd::prelude::*;
use vstd::string::*;

use crate::protocol::RowView;
use crate::text::{contains, ends_with, lowercase, str_ends_with, str_eq, trim, trim_str};

verus! {

/// A predefined queue scope.
#[derive(Debug, Clone, Copy, PartialEq, Eq, Structural)]
pub enum QueuePreset {
    All,
    Unresolved,
    NeedsReview,
    Approved,
    Rejected,
    ProviderError,
    ApplyReady,
    /// Rows of a drilled-into group.
    Group,
}

/// The label of a preset.
pub open spec fn preset_label(p: QueuePreset) -> Seq<char> {
    match p {
        QueuePreset::All => "all"@,
        QueuePreset::Unresolved => "unresolved"@,
        QueuePreset::NeedsReview => "needs_review"@,
        QueuePreset::Approved => "approved"@,
        QueuePreset::Rejected => "rejected"@,
        QueuePreset::ProviderError => "provider_error"@,
        QueuePreset::ApplyReady => "apply_ready"@,
        QueuePreset::Group => "group drill"@,
    }
}

/// How many presets the cycle runs through (all but the group drill).
pub open spec fn cycle_len() -> int {
    7
}

/// A preset's place in the cycle; the group drill has none.
pub open spec fn preset_index(p: QueuePreset) -> int {
    match p {
        QueuePreset::All => 0,
        QueuePreset::Unresolved => 1,
        QueuePreset::NeedsReview => 2,
        QueuePreset::Approved => 3,
        QueuePreset::Rejected => 4,
        QueuePreset::ProviderError => 5,
        QueuePreset::ApplyReady => 6,
        QueuePreset::Group => -1,
    }
}

/// The preset at a place in the cycle.
pub open spec fn preset_at(i: int) -> QueuePreset {
    if i == 0 {
        QueuePreset::All
    } else if i == 1 {
        QueuePreset::Unresolved
    } else if i == 2 {
        QueuePreset::NeedsReview
    } else if i == 3 {
        QueuePreset::Approved
    } else if i == 4 {
        QueuePreset::Rejected
    } else if i == 5 {
        QueuePreset::ProviderError
    } else {
        QueuePreset::ApplyReady
    }
}

/// The preset `direction` steps from `p` around the cycle; from the group
/// drill, forward leads to `All` and backward to `ApplyReady`.
pub open spec fn cycled(p: QueuePreset, direction: int) -> QueuePreset {
    if p == QueuePreset::Group {
        if direction >= 0 {
            QueuePreset::All
        } else {
            QueuePreset::ApplyReady
        }
    } else {
        preset_at((preset_index(p) + direction) % cycle_len())
    }
}

impl QueuePreset {
    /// The presets the cycle runs through, in order.
    pub const ALL: [QueuePreset; 7] = [
        QueuePreset::All,
        QueuePreset::Unresolved,
        QueuePreset::NeedsReview,
        QueuePreset::Approved,
        QueuePreset::Rejected,
        QueuePreset::ProviderError,
        QueuePreset::ApplyReady,
    ];

    /// The preset's label.
    pub fn label(self) -> (out: &'static str)
        ensures
            out@ == preset_label(self),
    {
        match self {
            QueuePreset::All => "all",
            QueuePreset::Unresolved => "unresolved",
            QueuePreset::NeedsReview => "needs_review",
            QueuePreset::Approved => "approved",
            QueuePreset::Rejected => "rejected",
            QueuePreset::ProviderError => "provider_error",
            QueuePreset::ApplyReady => "apply_ready",
            QueuePreset::Group => "group drill",
        }
    }

    /// The preset `direction` steps away around the cycle.
    pub fn cycle(self, direction: isize) -> (out: Self)
        requires
            self != QueuePreset::Group ==> preset_index(self) + direction <= isize::MAX,
        ensures
            out == cycled(self, direction as int),
    {
        let index: isize = match self {
            QueuePreset::All => 0,
            QueuePreset::Unresolved => 1,
            QueuePreset::NeedsReview => 2,
            QueuePreset::Approved => 3,
            QueuePreset::Rejected => 4,
            QueuePreset::ProviderError => 5,
            QueuePreset::ApplyReady => 6,
            QueuePreset::Group => {
                return if direction >= 0 {
                    QueuePreset::All
                } else {
                    QueuePreset::ApplyReady
                };
            },
        };
        let sum = index + direction;
        let next = match sum.checked_rem_euclid(7) {
            Some(r) => r,
            None => 0,
        };
        if next == 0 {
            QueuePreset::All
        } else if next == 1 {
            QueuePreset::Unresolved
        } else if next == 2 {
            QueuePreset::NeedsReview
        } else if next == 3 {
            QueuePreset::Approved
        } else if next == 4 {
            QueuePreset::Rejected
        } else if next == 5 {
            QueuePreset::ProviderError
        } else {
            QueuePreset::ApplyReady
        }
    }
}

/// Cycling never lands on the group drill; one step forward and one step back
/// (or back and forward) returns to the start; and a full turn does too.
pub proof fn law_cycle_round_trip(p: QueuePreset, d: int)
    ensures
        cycled(p, d) != QueuePreset::Group,
        p != QueuePreset::Group ==> cycled(cycled(p, 1), -1) == p,
        p != QueuePreset::Group ==> cycled(cycled(p, -1), 1) == p,
        p != QueuePreset::Group ==> cycled(p, cycle_len()) == p,
{
}

/// Whether a preset admits a row.
pub open spec fn preset_admits(p: QueuePreset, row: RowView) -> bool {
    match p {
        QueuePreset::All | QueuePreset::Group => true,
        QueuePreset::Unresolved => row.machine_status@ != "applied"@ && row.machine_status@
            != "superseded"@,
        QueuePreset::NeedsReview => row.human_status@ == "needs_review"@,
        QueuePreset::Approved => row.human_status@ == "approved"@,
        QueuePreset::Rejected => row.human_status@ == "rejected"@,
        QueuePreset::ProviderError => row.machine_status@ == "provider_error"@,
        QueuePreset::ApplyReady => row.machine_status@ == "apply_ready"@,
    }
}

/// Whether a preset admits a row.
pub fn preset_admits_row(p: QueuePreset, row: &RowView) -> (r: bool)
    ensures
        r == preset_admits(p, *row),
{
    match p {
        QueuePreset::All | QueuePreset::Group => true,
        QueuePreset::Unresolved => !str_eq(row.machine_status.as_str(), "applied") && !str_eq(
            row.machine_status.as_str(),
            "superseded",
        ),
        QueuePreset::NeedsReview => str_eq(row.human_status.as_str(), "needs_review"),
        QueuePreset::Approved => str_eq(row.human_status.as_str(), "approved"),
        QueuePreset::Rejected => str_eq(row.human_status.as_str(), "rejected"),
        QueuePreset::ProviderError => str_eq(row.machine_status.as_str(), "provider_error"),
        QueuePreset::ApplyReady => str_eq(row.machine_status.as_str(), "apply_ready"),
    }
}

/// The text the queue filter searches in a row: item id, locator and summary,
/// separated by spaces.
pub open spec fn row_haystack(row: RowView) -> Seq<char> {
    let locator = match row.item_locator {
        Some(l) => l@,
        None => Seq::empty(),
    };
    row.item_id@ + " "@ + locator + " "@ + row.rendered_summary@
}

/// Whether a row passes the queue filter `needle` (already lower-cased):
/// an empty needle passes everything, otherwise the lower-cased haystack must hold it.
pub open spec fn text_admits(needle: Seq<char>, row: RowView) -> bool {
    needle.len() == 0 || contains(lowercase(row_haystack(row)), needle)
}

/// A row's haystack.
pub fn row_haystack_text(row: &RowView) -> (out: String)
    ensures
        out@ == row_haystack(*row),
{
    let mut out = row.item_id.clone();
    out.append(" ");
    match &row.item_locator {
        Some(l) => out.append(l.as_str()),
        None => {},
    }
    out.append(" ");
    out.append(row.rendered_summary.as_str());
    out
}

/// The export format a file name asks for: `jsonl`, `csv`, or `markdown`.
pub open spec fn export_format(path: Seq<char>) -> Seq<char> {
    if ends_with(path, ".jsonl"@) {
        "jsonl"@
    } else if ends_with(path, ".csv"@) {
        "csv"@
    } else {
        "markdown"@
    }
}

/// The export format a file name asks for.
pub fn export_format_from_path(path: &str) -> (out: &'static str)
    ensures
        out@ == export_format(path@),
{
    if str_ends_with(path, ".jsonl") {
        "jsonl"
    } else if str_ends_with(path, ".csv") {
        "csv"
    } else {
        "markdown"
    }
}

/// The trimmed value, or nothing when it is blank.
pub open spec fn trimmed_opt(value: Seq<char>) -> Option<Seq<char>> {
    if trim(value).len() == 0 {
        None
    } else {
        Some(trim(value))
    }
}

/// The trimmed value, or `None` when it is blank.
pub fn trimmed_option(value: &str) -> (out: Option<String>)
    ensures
        match out {
            Some(s) => trimmed_opt(value@) == Some(s@),
            None => trimmed_opt(value@) is None,
        },
{
    let t = trim_str(value);
    if t.as_str().is_empty() {
        None
    } else {
        Some(t)
    }
}

/// How many queue rows are listed above the selection.
pub const WINDOW_ABOVE: usize = 8;

/// How many queue rows are listed at most.
pub const WINDOW_ROWS: usize = 16;

/// The first row listed in the queue window: eight rows above the
/// selection, or the top.
pub open spec fn window_start(selected: int) -> int {
    if selected >= WINDOW_ABOVE { selected - WINDOW_ABOVE } else { 0 }
}

/// The end of the queue window (exclusive): sixteen rows after its start, or
/// the end of the queue.
pub open spec fn window_end(selected: int, len: int) -> int {
    let end = window_start(selected) + WINDOW_ROWS;
    if len < end { len } else { end }
}

/// The range of queue rows listed around the selection `selected`, among
/// `len` rows.
pub fn queue_window(selected: usize, len: usize) -> (out: (usize, usize))
    ensures
        out.0 == window_start(selected as int),
        out.1 == window_end(selected as int, len as int),
{
    let start: usize = if selected >= WINDOW_ABOVE { selected - WINDOW_ABOVE } else { 0 };
    let end: usize = if len < WINDOW_ROWS || len - WINDOW_ROWS <= start { len } else { start + WINDOW_ROWS };
    (start, end)
}

/// Each status preset reads one status field: Rejected, Approved and
/// NeedsReview admit a row exactly when its human status is `rejected`,
/// `approved` or `needs_review`, whatever its machine status; ProviderError and
/// ApplyReady admit exactly the rows whose machine status is `provider_error`
/// or `apply_ready`, whatever their human status; Unresolved admits the rows
/// whose machine status is neither `applied` nor `superseded`; All admits
/// every row.
pub proof fn law_presets_read_their_status(row: RowView, other: RowView)
    ensures
        preset_admits(QueuePreset::Rejected, row) <==> row.human_status@ == "rejected"@,
        preset_admits(QueuePreset::Approved, row) <==> row.human_status@ == "approved"@,
        preset_admits(QueuePreset::NeedsReview, row) <==> row.human_status@ == "needs_review"@,
        preset_admits(QueuePreset::ProviderError, row) <==> row.machine_status@ == "provider_error"@,
        preset_admits(QueuePreset::ApplyReady, row) <==> row.machine_status@ == "apply_ready"@,
        preset_admits(QueuePreset::Unresolved, row) <==> (row.machine_status@ != "applied"@
            && row.machine_status@ != "superseded"@),
        preset_admits(QueuePreset::All, row),
        other.human_status@ == row.human_status@ ==> {
            &&& preset_admits(QueuePreset::Rejected, other) == preset_admits(QueuePreset::Rejected, row)
            &&& preset_admits(QueuePreset::Approved, other) == preset_admits(QueuePreset::Approved, row)
            &&& preset_admits(QueuePreset::NeedsReview, other) == preset_admits(QueuePreset::NeedsReview, row)
        },
        other.machine_status@ == row.machine_status@ ==> {
            &&& preset_admits(QueuePreset::ProviderError, other) == preset_admits(QueuePreset::ProviderError, row)
            &&& preset_admits(QueuePreset::ApplyReady, other) == preset_admits(QueuePreset::ApplyReady, row)
            &&& preset_admits(QueuePreset::Unresolved, other) == preset_admits(QueuePreset::Unresolved, row)
        },
{
}

/// `]` and `[` walk the presets in the order all, unresolved, needs_review,
/// approved, rejected, provider_error, apply_ready, wrapping around; from the
/// group drill they go to all (forward) or apply_ready (back).
pub proof fn law_cycle_order()
    ensures
        cycled(QueuePreset::All, 1) == QueuePreset::Unresolved,
        cycled(QueuePreset::Unresolved, 1) == QueuePreset::NeedsReview,
        cycled(QueuePreset::NeedsReview, 1) == QueuePreset::Approved,
        cycled(QueuePreset::Approved, 1) == QueuePreset::Rejected,
        cycled(QueuePreset::Rejected, 1) == QueuePreset::ProviderError,
        cycled(QueuePreset::ProviderError, 1) == QueuePreset::ApplyReady,
        cycled(QueuePreset::ApplyReady, 1) == QueuePreset::All,
        cycled(QueuePreset::All, -1) == QueuePreset::ApplyReady,
        cycled(QueuePreset::Group, 1) == QueuePreset::All,
        cycled(QueuePreset::Group, -1) == QueuePreset::ApplyReady,
{
}

/// The export format follows the file name's extension: `.jsonl` gives
/// jsonl, `.csv` gives csv, and anything else markdown.
pub proof fn law_export_format_by_extension(path: Seq<char>)
    ensures
        ends_with(path, ".jsonl"@) ==> export_format(path) == "jsonl"@,
        !ends_with(path, ".jsonl"@) && ends_with(path, ".csv"@) ==> export_format(path) == "csv"@,
        !ends_with(path, ".jsonl"@) && !ends_with(path, ".csv"@) ==> export_format(path) == "markdown"@,
{
}

} // verus!
