//! Grouping rows by a dimension (status, risk flag, source prefix, category)
//! and drilling into one group.

use vstd::prelude::*;
use vstd::string::*;

use crate::config::at_most;
use crate::protocol::RowView;
use crate::text::{
    all_whitespace, char_is_whitespace, chars_of, is_whitespace, lemma_trim_empty_iff_all_whitespace, slice_chars,
    str_eq, string_from_chars, trim, views, list_contains,
};

verus! {

/// What rows are grouped by.
#[derive(Debug, Clone, Copy, PartialEq, Eq, Structural)]
pub enum GroupDimension {
    HumanStatus,
    MachineStatus,
    RiskFlag,
    SourcePrefix,
    Category,
}

/// The label of a dimension.
pub open spec fn dimension_label(d: GroupDimension) -> Seq<char> {
    match d {
        GroupDimension::HumanStatus => "human"@,
        GroupDimension::MachineStatus => "machine"@,
        GroupDimension::RiskFlag => "risk"@,
        GroupDimension::SourcePrefix => "source"@,
        GroupDimension::Category => "category"@,
    }
}

impl GroupDimension {
    /// Every dimension, in display order.
    pub const ALL: [GroupDimension; 5] = [
        GroupDimension::HumanStatus,
        GroupDimension::MachineStatus,
        GroupDimension::RiskFlag,
        GroupDimension::SourcePrefix,
        GroupDimension::Category,
    ];

    /// The dimension's label.
    pub fn label(self) -> (out: &'static str)
        ensures
            out@ == dimension_label(self),
    {
        match self {
            GroupDimension::HumanStatus => "human",
            GroupDimension::MachineStatus => "machine",
            GroupDimension::RiskFlag => "risk",
            GroupDimension::SourcePrefix => "source",
            GroupDimension::Category => "category",
        }
    }
}

/// One group: its label and how many row labels fell into it.
#[derive(Debug)]
pub struct GroupEntry {
    pub label: String,
    pub count: usize,
}

impl Clone for GroupEntry {
    fn clone(&self) -> (out: Self)
        ensures
            out == *self,
    {
        GroupEntry { label: self.label.clone(), count: self.count }
    }
}

/// A drill-down into one group of one dimension.
#[derive(Debug)]
pub struct GroupFilter {
    pub dimension: GroupDimension,
    pub value: String,
}

impl Clone for GroupFilter {
    fn clone(&self) -> (out: Self)
        ensures
            out == *self,
    {
        GroupFilter { dimension: self.dimension, value: self.value.clone() }
    }
}

// ---------------------------------------------------------------------------
// Source prefix
// ---------------------------------------------------------------------------

/// A separator between path segments.
pub open spec fn is_separator(c: char) -> bool {
    c == '/' || c == ':'
}

/// The end of the segment that starts at `i`: the index of the next separator, or the length.
pub open spec fn segment_end(s: Seq<char>, i: int) -> int
    decreases s.len() - i,
{
    if i >= s.len() {
        s.len() as int
    } else if is_separator(s[i]) {
        i
    } else {
        segment_end(s, i + 1)
    }
}

pub proof fn lemma_segment_end(s: Seq<char>, i: int)
    requires
        0 <= i <= s.len(),
    ensures
        i <= segment_end(s, i) <= s.len(),
        segment_end(s, i) < s.len() ==> is_separator(s[segment_end(s, i)]),
        forall|k: int| i <= k < segment_end(s, i) ==> !is_separator(#[trigger] s[k]),
    decreases s.len() - i,
{
    if i < s.len() && !is_separator(s[i]) {
        lemma_segment_end(s, i + 1);
    }
}

/// The first segment, from index `i` on, that is not blank when trimmed.
pub open spec fn first_nonblank_segment(s: Seq<char>, i: int) -> Option<Seq<char>>
    decreases s.len() - i,
{
    if i < 0 || i > s.len() {
        None
    } else {
        let j = segment_end(s, i);
        proof {
            lemma_segment_end(s, i);
        }
        if trim(s.subrange(i, j)).len() > 0 {
            Some(s.subrange(i, j))
        } else if j < s.len() {
            first_nonblank_segment(s, j + 1)
        } else {
            None
        }
    }
}

/// The text a row's source is read from: its locator, or its item id.
pub open spec fn source_text(row: RowView) -> Seq<char> {
    match row.item_locator {
        Some(l) => l@,
        None => row.item_id@,
    }
}

/// A row's source prefix: the first non-blank segment of its source text split
/// at `/` and `:`, or `unknown`.
pub open spec fn source_prefix_of(row: RowView) -> Seq<char> {
    match first_nonblank_segment(source_text(row), 0) {
        Some(seg) => seg,
        None => "unknown"@,
    }
}

fn all_whitespace_range(v: &Vec<char>, i: usize, j: usize) -> (r: bool)
    requires
        i <= j <= v.len(),
    ensures
        r == all_whitespace(v@.subrange(i as int, j as int)),
{
    let mut k = i;
    while k < j
        invariant
            i <= k <= j <= v.len(),
            forall|m: int| i <= m < k ==> is_whitespace(#[trigger] v@[m]),
        decreases j - k,
    {
        if !char_is_whitespace(v[k]) {
            proof {
                assert(v@.subrange(i as int, j as int)[k - i] == v@[k as int]);
            }
            return false;
        }
        k = k + 1;
    }
    proof {
        let t = v@.subrange(i as int, j as int);
        assert forall|m: int| 0 <= m < t.len() implies is_whitespace(#[trigger] t[m]) by {
            assert(t[m] == v@[m + i]);
        }
    }
    true
}

/// A row's source prefix.
pub fn source_prefix(row: &RowView) -> (out: String)
    ensures
        out@ == source_prefix_of(*row),
{
    let v = match &row.item_locator {
        Some(l) => chars_of(l.as_str()),
        None => chars_of(row.item_id.as_str()),
    };
    let mut i: usize = 0;
    loop
        invariant
            i <= v.len(),
            first_nonblank_segment(v@, 0) == first_nonblank_segment(v@, i as int),
            v@ == source_text(*row),
        decreases v.len() - i,
    {
        let ghost s = v@;
        let mut j = i;
        while j < v.len() && v[j] != '/' && v[j] != ':'
            invariant
                i <= j <= v.len(),
                forall|k: int| i <= k < j ==> !is_separator(#[trigger] v@[k]),
            decreases v.len() - j,
        {
            j = j + 1;
        }
        proof {
            lemma_segment_end(s, i as int);
            lemma_segment_end_unique(s, i as int, j as int);
            lemma_trim_empty_iff_all_whitespace(s.subrange(i as int, j as int));
        }
        if !all_whitespace_range(&v, i, j) {
            let seg = slice_chars(&v, i, j);
            return string_from_chars(&seg);
        }
        if j == v.len() {
            return String::from_str("unknown");
        }
        i = j + 1;
    }
}

proof fn lemma_segment_end_unique(s: Seq<char>, i: int, j: int)
    requires
        0 <= i <= j <= s.len(),
        forall|k: int| i <= k < j ==> !is_separator(#[trigger] s[k]),
        j == s.len() || is_separator(s[j]),
    ensures
        segment_end(s, i) == j,
    decreases j - i,
{
    if i < j {
        lemma_segment_end_unique(s, i + 1, j);
    }
}

// ---------------------------------------------------------------------------
// Matching a drill-down
// ---------------------------------------------------------------------------

/// Whether a row falls into the group a filter names.
pub open spec fn filter_matches(f: GroupFilter, row: RowView) -> bool {
    match f.dimension {
        GroupDimension::HumanStatus => row.human_status@ == f.value@,
        GroupDimension::MachineStatus => row.machine_status@ == f.value@,
        GroupDimension::RiskFlag => if f.value@ == "none"@ {
            row.risk_flags@.len() == 0
        } else {
            views(row.risk_flags@).contains(f.value@)
        },
        GroupDimension::SourcePrefix => source_prefix_of(row) == f.value@,
        GroupDimension::Category => if f.value@ == "uncategorized"@ {
            row.categories@.len() == 0
        } else {
            views(row.categories@).contains(f.value@)
        },
    }
}

impl GroupFilter {
    /// Whether `row` falls into this group.
    pub fn matches(&self, row: &RowView) -> (r: bool)
        ensures
            r == filter_matches(*self, *row),
    {
        match self.dimension {
            GroupDimension::HumanStatus => str_eq(row.human_status.as_str(), self.value.as_str()),
            GroupDimension::MachineStatus => str_eq(row.machine_status.as_str(), self.value.as_str()),
            GroupDimension::RiskFlag => {
                if str_eq(self.value.as_str(), "none") {
                    row.risk_flags.len() == 0
                } else {
                    list_contains(&row.risk_flags, self.value.as_str())
                }
            },
            GroupDimension::SourcePrefix => {
                let prefix = source_prefix(row);
                str_eq(prefix.as_str(), self.value.as_str())
            },
            GroupDimension::Category => {
                if str_eq(self.value.as_str(), "uncategorized") {
                    row.categories.len() == 0
                } else {
                    list_contains(&row.categories, self.value.as_str())
                }
            },
        }
    }
}

/// The rows of `rows` in the group `f` names, in order.
pub open spec fn rows_in_group(rows: Seq<RowView>, f: GroupFilter) -> Seq<RowView>
    decreases rows.len(),
{
    if rows.len() == 0 {
        Seq::empty()
    } else {
        let kept = rows_in_group(rows.drop_last(), f);
        if filter_matches(f, rows.last()) {
            kept.push(rows.last())
        } else {
            kept
        }
    }
}

/// The rows of a group are the rows the group's filter admits, in order.
pub proof fn law_rows_in_group_is_filter(rows: Seq<RowView>, f: GroupFilter)
    ensures
        rows_in_group(rows, f) == rows.filter(|r: RowView| filter_matches(f, r)),
    decreases rows.len(),
{
    reveal(Seq::filter);
    if rows.len() > 0 {
        law_rows_in_group_is_filter(rows.drop_last(), f);
    }
}

/// The first `limit` rows of `rows` in the group `f` names (all of them when
/// there are fewer), in order: the sample shown beside a group.
pub fn sample_group_rows<'a>(f: &GroupFilter, rows: &'a Vec<RowView>, limit: usize) -> (out: Vec<&'a RowView>)
    ensures
        out@.len() == at_most(rows_in_group(rows@, *f), limit as nat).len(),
        forall|i: int| 0 <= i < out@.len() ==> *out@[i] == #[trigger] at_most(rows_in_group(rows@, *f), limit as nat)[i],
{
    let mut out: Vec<&RowView> = Vec::new();
    let mut i: usize = 0;
    while i < rows.len()
        invariant
            i <= rows.len(),
            out@.len() == at_most(rows_in_group(rows@.take(i as int), *f), limit as nat).len(),
            forall|k: int| 0 <= k < out@.len() ==> *out@[k] == #[trigger] at_most(rows_in_group(rows@.take(i as int), *f), limit as nat)[k],
        decreases rows.len() - i,
    {
        let row = &rows[i];
        let ghost before = rows_in_group(rows@.take(i as int), *f);
        proof {
            assert(rows@.take(i + 1).drop_last() =~= rows@.take(i as int));
            assert(rows@.take(i + 1).last() == rows@[i as int]);
        }
        if f.matches(row) {
            if out.len() < limit {
                out.push(row);
            }
            proof {
                let after = before.push(rows@[i as int]);
                assert(rows_in_group(rows@.take(i + 1), *f) == after);
                if before.len() < limit {
                    assert(at_most(after, limit as nat) =~= at_most(before, limit as nat).push(rows@[i as int]));
                } else {
                    assert(at_most(after, limit as nat) =~= at_most(before, limit as nat));
                }
            }
        }
        i = i + 1;
    }
    proof {
        assert(rows@.take(rows@.len() as int) =~= rows@);
    }
    out
}



// ---------------------------------------------------------------------------
// Group listings
// ---------------------------------------------------------------------------

/// The labels one row contributes to a dimension's groups.
pub open spec fn row_labels(d: GroupDimension, row: RowView) -> Seq<Seq<char>> {
    match d {
        GroupDimension::HumanStatus => seq![row.human_status@],
        GroupDimension::MachineStatus => seq![row.machine_status@],
        GroupDimension::RiskFlag => if row.risk_flags@.len() == 0 {
            seq!["none"@]
        } else {
            views(row.risk_flags@)
        },
        GroupDimension::SourcePrefix => seq![source_prefix_of(row)],
        GroupDimension::Category => if row.categories@.len() == 0 {
            seq!["uncategorized"@]
        } else {
            views(row.categories@)
        },
    }
}

/// The labels all rows contribute, row by row.
pub open spec fn all_labels(d: GroupDimension, rows: Seq<RowView>) -> Seq<Seq<char>>
    decreases rows.len(),
{
    if rows.len() == 0 {
        Seq::empty()
    } else {
        all_labels(d, rows.drop_last()) + row_labels(d, rows.last())
    }
}

/// How many times `l` occurs in `s`.
pub open spec fn occurrences(s: Seq<Seq<char>>, l: Seq<char>) -> nat
    decreases s.len(),
{
    if s.len() == 0 {
        0
    } else {
        occurrences(s.drop_last(), l) + if s.last() == l { 1nat } else { 0nat }
    }
}

/// A count as a `usize` holds it: the true count, or the largest `usize`
/// should the true count not fit.
pub open spec fn bounded_count(n: nat) -> nat {
    if n <= usize::MAX { n } else { usize::MAX as nat }
}

/// `a` comes before `b` in code-point order.
pub open spec fn lex_less(a: Seq<char>, b: Seq<char>) -> bool
    decreases a.len(),
{
    if b.len() == 0 {
        false
    } else if a.len() == 0 {
        true
    } else if a[0] != b[0] {
        a[0] < b[0]
    } else {
        lex_less(a.drop_first(), b.drop_first())
    }
}

/// Listing order of groups: larger count first, then label order.
pub open spec fn entry_before(a: GroupEntry, b: GroupEntry) -> bool {
    ||| a.count > b.count
    ||| (a.count == b.count && lex_less(a.label@, b.label@))
}

/// `out` lists the groups of `labels`: one entry for each distinct label,
/// with its number of occurrences, ordered by [`entry_before`].
pub open spec fn is_listing_of(labels: Seq<Seq<char>>, out: Seq<GroupEntry>) -> bool {
    &&& forall|i: int| 0 <= i < out.len() ==> labels.contains(#[trigger] out[i].label@)
    &&& forall|i: int| 0 <= i < out.len() ==> #[trigger] out[i].count == bounded_count(occurrences(labels, out[i].label@))
    &&& forall|l: Seq<char>| labels.contains(l) ==> exists|i: int| 0 <= i < out.len() && #[trigger] out[i].label@ == l
    &&& forall|i: int, j: int| 0 <= i < j < out.len() ==> entry_before(#[trigger] out[i], #[trigger] out[j])
}

pub proof fn lemma_lex_transitive(a: Seq<char>, b: Seq<char>, c: Seq<char>)
    requires
        lex_less(a, b),
        lex_less(b, c),
    ensures
        lex_less(a, c),
    decreases a.len(),
{
    if a.len() > 0 && b.len() > 0 && c.len() > 0 && a[0] == b[0] && b[0] == c[0] {
        lemma_lex_transitive(a.drop_first(), b.drop_first(), c.drop_first());
    }
}

pub proof fn lemma_lex_total(a: Seq<char>, b: Seq<char>)
    requires
        a != b,
    ensures
        lex_less(a, b) || lex_less(b, a),
    decreases a.len(),
{
    if a.len() > 0 && b.len() > 0 && a[0] == b[0] {
        if a.drop_first() == b.drop_first() {
            assert(a =~= seq![a[0]] + a.drop_first());
            assert(b =~= seq![b[0]] + b.drop_first());
        }
        lemma_lex_total(a.drop_first(), b.drop_first());
    } else if a.len() == 0 && b.len() == 0 {
        assert(a =~= b);
    }
}

/// No sequence comes before itself.
pub proof fn lemma_lex_irreflexive(a: Seq<char>)
    ensures
        !lex_less(a, a),
    decreases a.len(),
{
    if a.len() > 0 {
        lemma_lex_irreflexive(a.drop_first());
    }
}

/// A group entry by value: its label's characters and its count.
pub open spec fn entry_view(e: GroupEntry) -> (Seq<char>, usize) {
    (e.label@, e.count)
}

proof fn lemma_entry_asymmetric(a: GroupEntry, b: GroupEntry)
    ensures
        !(entry_before(a, b) && entry_before(b, a)),
        entry_view(a) == entry_view(b) ==> !entry_before(a, b),
{
    lemma_lex_irreflexive(a.label@);
    if entry_before(a, b) && entry_before(b, a) {
        lemma_lex_transitive(a.label@, b.label@, a.label@);
    }
}

/// Some entry of `s` has the value `v`.
pub open spec fn has_entry(s: Seq<GroupEntry>, v: (Seq<char>, usize)) -> bool {
    exists|j: int| 0 <= j < s.len() && entry_view(#[trigger] s[j]) == v
}

/// Every entry is listed before the entries after it.
pub open spec fn strictly_ordered(s: Seq<GroupEntry>) -> bool {
    forall|i: int, j: int| 0 <= i < j < s.len() ==> entry_before(#[trigger] s[i], #[trigger] s[j])
}

/// Every entry of `a` has its value among the entries of `b`.
pub open spec fn values_within(a: Seq<GroupEntry>, b: Seq<GroupEntry>) -> bool {
    forall|i: int| 0 <= i < a.len() ==> has_entry(b, entry_view(#[trigger] a[i]))
}

proof fn lemma_tail_within(a: Seq<GroupEntry>, b: Seq<GroupEntry>)
    requires
        a.len() > 0,
        b.len() > 0,
        entry_view(a[0]) == entry_view(b[0]),
        strictly_ordered(a),
        values_within(a, b),
    ensures
        values_within(a.drop_first(), b.drop_first()),
{
    let a1 = a.drop_first();
    let b1 = b.drop_first();
    assert forall|i: int| 0 <= i < a1.len() implies has_entry(b1, entry_view(#[trigger] a1[i])) by {
        assert(a1[i] == a[i + 1]);
        assert(has_entry(b, entry_view(a[i + 1])));
        let j = choose|j: int| 0 <= j < b.len() && entry_view(#[trigger] b[j]) == entry_view(a[i + 1]);
        if j == 0 {
            assert(entry_before(a[0], a[i + 1]));
            lemma_entry_asymmetric(a[0], a[i + 1]);
        }
        assert(b1[j - 1] == b[j]);
    }
}

proof fn lemma_tail_ordered(a: Seq<GroupEntry>)
    requires
        a.len() > 0,
        strictly_ordered(a),
    ensures
        strictly_ordered(a.drop_first()),
{
    let a1 = a.drop_first();
    assert forall|i: int, j: int| 0 <= i < j < a1.len() implies entry_before(#[trigger] a1[i], #[trigger] a1[j]) by {
        assert(a1[i] == a[i + 1] && a1[j] == a[j + 1]);
    }
}

/// Two strictly ordered sequences with the same entries (by value) agree.
proof fn lemma_sorted_same(a: Seq<GroupEntry>, b: Seq<GroupEntry>)
    requires
        strictly_ordered(a),
        strictly_ordered(b),
        values_within(a, b),
        values_within(b, a),
    ensures
        a.len() == b.len(),
        forall|i: int| 0 <= i < a.len() ==> entry_view(#[trigger] a[i]) == entry_view(b[i]),
    decreases a.len(),
{
    if a.len() == 0 {
        if b.len() > 0 {
            assert(has_entry(a, entry_view(b[0])));
        }
    } else if b.len() == 0 {
        assert(has_entry(b, entry_view(a[0])));
    } else {
        assert(has_entry(b, entry_view(a[0])));
        assert(has_entry(a, entry_view(b[0])));
        let j = choose|j: int| 0 <= j < b.len() && entry_view(#[trigger] b[j]) == entry_view(a[0]);
        let k = choose|k: int| 0 <= k < a.len() && entry_view(#[trigger] a[k]) == entry_view(b[0]);
        if j != 0 {
            assert(entry_before(b[0], b[j]));
            lemma_entry_asymmetric(b[0], a[0]);
            if k != 0 {
                assert(entry_before(a[0], a[k]));
                lemma_entry_asymmetric(a[0], b[0]);
            }
        }
        assert(entry_view(a[0]) == entry_view(b[0]));
        lemma_tail_within(a, b);
        lemma_tail_within(b, a);
        lemma_tail_ordered(a);
        lemma_tail_ordered(b);
        let a1 = a.drop_first();
        let b1 = b.drop_first();
        lemma_sorted_same(a1, b1);
        assert forall|i: int| 0 <= i < a.len() implies entry_view(#[trigger] a[i]) == entry_view(b[i]) by {
            if i > 0 {
                assert(a1[i - 1] == a[i] && b1[i - 1] == b[i]);
            }
        }
    }
}

proof fn lemma_listing_within(labels: Seq<Seq<char>>, a: Seq<GroupEntry>, b: Seq<GroupEntry>)
    requires
        is_listing_of(labels, a),
        is_listing_of(labels, b),
    ensures
        values_within(a, b),
{
    assert forall|i: int| 0 <= i < a.len() implies has_entry(b, entry_view(#[trigger] a[i])) by {
        assert(labels.contains(a[i].label@));
        let j = choose|j: int| 0 <= j < b.len() && #[trigger] b[j].label@ == a[i].label@;
        assert(b[j].count == bounded_count(occurrences(labels, b[j].label@)));
        assert(a[i].count == bounded_count(occurrences(labels, a[i].label@)));
        assert(entry_view(b[j]) == entry_view(a[i]));
    }
}

/// A label sequence has one listing: two listings of the same labels hold
/// the same labels with the same counts in the same order.
pub proof fn law_listing_unique(labels: Seq<Seq<char>>, a: Seq<GroupEntry>, b: Seq<GroupEntry>)
    requires
        is_listing_of(labels, a),
        is_listing_of(labels, b),
    ensures
        a.len() == b.len(),
        forall|i: int| 0 <= i < a.len() ==> entry_view(#[trigger] a[i]) == entry_view(b[i]),
{
    lemma_listing_within(labels, a, b);
    lemma_listing_within(labels, b, a);
    lemma_sorted_same(a, b);
}

proof fn lemma_entry_total(a: GroupEntry, b: GroupEntry)
    requires
        a.label@ != b.label@,
    ensures
        entry_before(a, b) || entry_before(b, a),
{
    lemma_lex_total(a.label@, b.label@);
}

proof fn lemma_entry_transitive(a: GroupEntry, b: GroupEntry, c: GroupEntry)
    requires
        entry_before(a, b),
        entry_before(b, c),
    ensures
        entry_before(a, c),
{
    if a.count == b.count && b.count == c.count {
        lemma_lex_transitive(a.label@, b.label@, c.label@);
    }
}

/// Whether `a` comes before `b` in code-point order.
pub fn label_less(a: &str, b: &str) -> (r: bool)
    ensures
        r == lex_less(a@, b@),
{
    let av = chars_of(a);
    let bv = chars_of(b);
    let mut k: usize = 0;
    proof {
        assert(av@.skip(0) =~= av@);
        assert(bv@.skip(0) =~= bv@);
    }
    loop
        invariant
            k <= av.len(),
            k <= bv.len(),
            av@ == a@,
            bv@ == b@,
            lex_less(av@, bv@) == lex_less(av@.skip(k as int), bv@.skip(k as int)),
        decreases av.len() - k,
    {
        let ghost sa = av@.skip(k as int);
        let ghost sb = bv@.skip(k as int);
        if k == bv.len() {
            proof {
                assert(sb.len() == 0);
            }
            return false;
        }
        if k == av.len() {
            proof {
                assert(sa.len() == 0 && sb.len() > 0);
            }
            return true;
        }
        let x = av[k];
        let y = bv[k];
        proof {
            assert(sa[0] == x && sb[0] == y);
        }
        if x != y {
            return x < y;
        }
        proof {
            assert(av@.skip(k as int).drop_first() =~= av@.skip(k + 1));
            assert(bv@.skip(k as int).drop_first() =~= bv@.skip(k + 1));
        }
        k = k + 1;
    }
}

fn entry_before_exec(a: &GroupEntry, b: &GroupEntry) -> (r: bool)
    ensures
        r == entry_before(*a, *b),
{
    if a.count > b.count {
        true
    } else if a.count == b.count {
        label_less(a.label.as_str(), b.label.as_str())
    } else {
        false
    }
}

/// The labels one row contributes to a dimension's groups.
fn push_row_labels(d: GroupDimension, row: &RowView, out: &mut Vec<String>)
    ensures
        views(final(out)@) == views(old(out)@) + row_labels(d, *row),
{
    let ghost start = views(out@);
    match d {
        GroupDimension::HumanStatus => {
            out.push(row.human_status.clone());
            proof {
                assert(views(out@) =~= start + row_labels(d, *row));
            }
        },
        GroupDimension::MachineStatus => {
            out.push(row.machine_status.clone());
            proof {
                assert(views(out@) =~= start + row_labels(d, *row));
            }
        },
        GroupDimension::SourcePrefix => {
            out.push(source_prefix(row));
            proof {
                assert(views(out@) =~= start + row_labels(d, *row));
            }
        },
        GroupDimension::RiskFlag => {
            push_each_or(&row.risk_flags, "none", out);
        },
        GroupDimension::Category => {
            push_each_or(&row.categories, "uncategorized", out);
        },
    }
}

/// Appends each string of `items`, or `fallback` when there are none.
fn push_each_or(items: &Vec<String>, fallback: &str, out: &mut Vec<String>)
    ensures
        items@.len() == 0 ==> views(final(out)@) == views(old(out)@).push(fallback@),
        items@.len() > 0 ==> views(final(out)@) == views(old(out)@) + views(items@),
{
    let ghost start = views(out@);
    if items.len() == 0 {
        out.push(String::from_str(fallback));
        proof {
            assert(views(out@) =~= start.push(fallback@));
        }
        return;
    }
    let mut i: usize = 0;
    while i < items.len()
        invariant
            i <= items.len(),
            views(out@) == start + views(items@.take(i as int)),
        decreases items.len() - i,
    {
        let ghost before = out@;
        out.push(items[i].clone());
        proof {
            assert(items@.take(i + 1) =~= items@.take(i as int).push(items@[i as int]));
            assert(views(out@) =~= views(before).push(items@[i as int]@));
            assert(views(items@.take(i + 1)) =~= views(items@.take(i as int)).push(items@[i as int]@));
            assert(views(out@) =~= start + views(items@.take(i + 1)));
        }
        i = i + 1;
    }
    proof {
        assert(items@.take(items@.len() as int) =~= items@);
    }
}

/// The labels all rows contribute to a dimension's groups.
fn collect_labels(d: GroupDimension, rows: &Vec<RowView>) -> (out: Vec<String>)
    ensures
        views(out@) == all_labels(d, rows@),
{
    let mut out: Vec<String> = Vec::new();
    let mut i: usize = 0;
    proof {
        assert(views(out@) =~= all_labels(d, rows@.take(0)));
    }
    while i < rows.len()
        invariant
            i <= rows.len(),
            views(out@) == all_labels(d, rows@.take(i as int)),
        decreases rows.len() - i,
    {
        push_row_labels(d, &rows[i], &mut out);
        proof {
            assert(rows@.take(i + 1).drop_last() =~= rows@.take(i as int));
        }
        i = i + 1;
    }
    proof {
        assert(rows@.take(rows@.len() as int) =~= rows@);
    }
    out
}

/// Entries for the labels seen so far, unordered.
spec fn tallies(labels: Seq<Seq<char>>, entries: Seq<GroupEntry>) -> bool {
    &&& forall|i: int| 0 <= i < entries.len() ==> labels.contains(#[trigger] entries[i].label@)
    &&& forall|i: int| 0 <= i < entries.len() ==> #[trigger] entries[i].count == bounded_count(occurrences(labels, entries[i].label@))
    &&& forall|l: Seq<char>| labels.contains(l) ==> exists|i: int| 0 <= i < entries.len() && #[trigger] entries[i].label@ == l
    &&& forall|i: int, j: int| 0 <= i < j < entries.len() ==> #[trigger] entries[i].label@ != #[trigger] entries[j].label@
}

proof fn lemma_occurrences_push(s: Seq<Seq<char>>, x: Seq<char>, l: Seq<char>)
    ensures
        occurrences(s.push(x), l) == occurrences(s, l) + if x == l { 1nat } else { 0nat },
{
    assert(s.push(x).drop_last() =~= s);
}

/// Counts each distinct label.
fn tally(labels: &Vec<String>) -> (out: Vec<GroupEntry>)
    ensures
        tallies(views(labels@), out@),
{
    let mut out: Vec<GroupEntry> = Vec::new();
    let mut i: usize = 0;
    proof {
        assert(views(labels@).take(0) =~= Seq::<Seq<char>>::empty());
    }
    while i < labels.len()
        invariant
            i <= labels.len(),
            tallies(views(labels@).take(i as int), out@),
        decreases labels.len() - i,
    {
        let ghost prev = views(labels@).take(i as int);
        let ghost next = views(labels@).take(i + 1);
        let ghost x = labels@[i as int]@;
        proof {
            assert(next =~= prev.push(x));
            assert forall|l: Seq<char>| #[trigger] next.contains(l) <==> (prev.contains(l) || l == x) by {
                if next.contains(l) {
                    let k = choose|k: int| 0 <= k < next.len() && next[k] == l;
                    if k < prev.len() {
                        assert(prev[k] == l);
                    }
                }
                if prev.contains(l) {
                    let k = choose|k: int| 0 <= k < prev.len() && prev[k] == l;
                    assert(next[k] == l);
                }
                if l == x {
                    assert(next[next.len() - 1] == l);
                }
            }
            assert forall|l: Seq<char>| #[trigger] occurrences(next, l) == occurrences(prev, l) + if x == l { 1nat } else { 0nat } by {
                lemma_occurrences_push(prev, x, l);
            }
        }
        let mut j: usize = 0;
        while j < out.len() && !str_eq(out[j].label.as_str(), labels[i].as_str())
            invariant
                i < labels.len(),
                j <= out.len(),
                forall|m: int| 0 <= m < j ==> out@[m].label@ != x,
                x == labels@[i as int]@,
            decreases out.len() - j,
        {
            j = j + 1;
        }
        if j < out.len() {
            let ghost before = out@;
            let count = out[j].count.saturating_add(1);
            let label = out[j].label.clone();
            out.set(j, GroupEntry { label, count });
            proof {
                assert forall|m: int| 0 <= m < out@.len() implies #[trigger] out@[m].count == bounded_count(occurrences(next, out@[m].label@)) by {
                    if m != j {
                        assert(out@[m] == before[m]);
                        assert(before[m].label@ != x);
                    }
                }
                assert forall|l: Seq<char>| next.contains(l) implies exists|m: int| 0 <= m < out@.len() && #[trigger] out@[m].label@ == l by {
                    if prev.contains(l) {
                        let m = choose|m: int| 0 <= m < before.len() && #[trigger] before[m].label@ == l;
                        assert(out@[m].label@ == l);
                    } else {
                        assert(out@[j as int].label@ == l);
                    }
                }
                assert forall|a: int, b: int| 0 <= a < b < out@.len() implies #[trigger] out@[a].label@ != #[trigger] out@[b].label@ by {
                    assert(out@[a].label@ == before[a].label@);
                    assert(out@[b].label@ == before[b].label@);
                }
                assert forall|m: int| 0 <= m < out@.len() implies next.contains(#[trigger] out@[m].label@) by {
                    assert(out@[m].label@ == before[m].label@);
                    assert(prev.contains(before[m].label@));
                }
            }
        } else {
            let ghost before = out@;
            out.push(GroupEntry { label: labels[i].clone(), count: 1 });
            proof {
                assert(!prev.contains(x)) by {
                    if prev.contains(x) {
                        let m = choose|m: int| 0 <= m < before.len() && #[trigger] before[m].label@ == x;
                    }
                }
                assert(occurrences(prev, x) == 0) by {
                    lemma_occurrences_absent(prev, x);
                }
                assert forall|m: int| 0 <= m < out@.len() implies #[trigger] out@[m].count == bounded_count(occurrences(next, out@[m].label@)) by {
                    if m < before.len() {
                        assert(out@[m] == before[m]);
                    }
                }
                assert forall|l: Seq<char>| next.contains(l) implies exists|m: int| 0 <= m < out@.len() && #[trigger] out@[m].label@ == l by {
                    if prev.contains(l) {
                        let m = choose|m: int| 0 <= m < before.len() && #[trigger] before[m].label@ == l;
                        assert(out@[m].label@ == l);
                    } else {
                        assert(out@[before.len() as int].label@ == l);
                    }
                }
                assert forall|a: int, b: int| 0 <= a < b < out@.len() implies #[trigger] out@[a].label@ != #[trigger] out@[b].label@ by {
                    assert(out@[a] == before[a]);
                    if b < before.len() {
                        assert(out@[b] == before[b]);
                    }
                }
                assert forall|m: int| 0 <= m < out@.len() implies next.contains(#[trigger] out@[m].label@) by {
                    if m < before.len() {
                        assert(out@[m] == before[m]);
                        assert(prev.contains(before[m].label@));
                    } else {
                        assert(next[next.len() - 1] == x);
                    }
                }
            }
        }
        i = i + 1;
    }
    proof {
        assert(views(labels@).take(labels@.len() as int) =~= views(labels@));
    }
    out
}

proof fn lemma_occurrences_absent(s: Seq<Seq<char>>, l: Seq<char>)
    requires
        !s.contains(l),
    ensures
        occurrences(s, l) == 0,
    decreases s.len(),
{
    if s.len() > 0 {
        assert(s.drop_last().contains(l) ==> s.contains(l)) by {
            if s.drop_last().contains(l) {
                let k = choose|k: int| 0 <= k < s.drop_last().len() && s.drop_last()[k] == l;
                assert(s[k] == l);
            }
        }
        assert(s.last() != l) by {
            if s.last() == l {
                assert(s[s.len() - 1] == l);
            }
        }
        lemma_occurrences_absent(s.drop_last(), l);
    }
}

/// Entries with distinct labels, ordered by [`entry_before`].
fn sort_entries(entries: Vec<GroupEntry>) -> (out: Vec<GroupEntry>)
    requires
        forall|i: int, j: int| 0 <= i < j < entries@.len() ==> #[trigger] entries@[i].label@ != #[trigger] entries@[j].label@,
    ensures
        forall|x: GroupEntry| out@.contains(x) <==> entries@.contains(x),
        forall|i: int, j: int| 0 <= i < j < out@.len() ==> entry_before(#[trigger] out@[i], #[trigger] out@[j]),
{
    let ghost orig = entries@;
    let mut rest = entries;
    let mut out: Vec<GroupEntry> = Vec::new();
    while rest.len() > 0
        invariant
            rest@ == orig.take(rest@.len() as int),
            rest@.len() <= orig.len(),
            forall|i: int, j: int| 0 <= i < j < orig.len() ==> #[trigger] orig[i].label@ != #[trigger] orig[j].label@,
            forall|x: GroupEntry| out@.contains(x) <==> orig.skip(rest@.len() as int).contains(x),
            forall|i: int, j: int| 0 <= i < j < out@.len() ==> entry_before(#[trigger] out@[i], #[trigger] out@[j]),
        decreases rest@.len(),
    {
        let ghost n = rest@.len() as int;
        let e = rest.pop().unwrap();
        proof {
            assert(e == orig[n - 1]);
            assert(rest@ =~= orig.take(n - 1));
            assert forall|x: GroupEntry| #[trigger] orig.skip(n - 1).contains(x) <==> (orig.skip(n).contains(x) || x == e) by {
                let s1 = orig.skip(n - 1);
                let s0 = orig.skip(n);
                if s1.contains(x) {
                    let k = choose|k: int| 0 <= k < s1.len() && s1[k] == x;
                    if k > 0 {
                        assert(s0[k - 1] == x);
                    }
                }
                if s0.contains(x) {
                    let k = choose|k: int| 0 <= k < s0.len() && s0[k] == x;
                    assert(s1[k + 1] == x);
                }
                if x == e {
                    assert(orig.skip(n - 1)[0] == x);
                }
            }
            // the new entry differs in label from every entry already placed
            assert forall|k: int| 0 <= k < out@.len() implies #[trigger] out@[k].label@ != e.label@ by {
                assert(out@.contains(out@[k]));
                let s0 = orig.skip(n);
                assert(s0.contains(out@[k]));
                let m = choose|m: int| 0 <= m < s0.len() && s0[m] == out@[k];
                assert(orig[n + m] == out@[k]);
            }
        }
        let mut p: usize = 0;
        while p < out.len() && entry_before_exec(&out[p], &e)
            invariant
                p <= out.len(),
                forall|k: int| 0 <= k < p ==> entry_before(#[trigger] out@[k], e),
            decreases out.len() - p,
        {
            p = p + 1;
        }
        let ghost before = out@;
        proof {
            if p < before.len() {
                lemma_entry_total(before[p as int], e);
                assert(entry_before(e, before[p as int]));
                assert forall|k: int| p <= k < before.len() implies entry_before(e, #[trigger] before[k]) by {
                    if k > p {
                        lemma_entry_transitive(e, before[p as int], before[k]);
                    }
                }
            }
        }
        out.insert(p, e);
        proof {
            assert forall|i: int, j: int| 0 <= i < j < out@.len() implies entry_before(#[trigger] out@[i], #[trigger] out@[j]) by {
                if j < p {
                    assert(out@[i] == before[i] && out@[j] == before[j]);
                } else if j == p {
                    assert(out@[i] == before[i]);
                } else if i == p {
                    assert(out@[j] == before[j - 1]);
                } else if i < p {
                    assert(out@[i] == before[i] && out@[j] == before[j - 1]);
                    lemma_entry_transitive(before[i], e, before[j - 1]);
                } else {
                    assert(out@[i] == before[i - 1] && out@[j] == before[j - 1]);
                }
            }
            assert forall|x: GroupEntry| #[trigger] out@.contains(x) <==> (before.contains(x) || x == e) by {
                if out@.contains(x) {
                    let k = choose|k: int| 0 <= k < out@.len() && out@[k] == x;
                    if k < p {
                        assert(before[k] == x);
                    } else if k > p {
                        assert(before[k - 1] == x);
                    }
                }
                if before.contains(x) {
                    let k = choose|k: int| 0 <= k < before.len() && before[k] == x;
                    if k < p {
                        assert(out@[k] == x);
                    } else {
                        assert(out@[k + 1] == x);
                    }
                }
                if x == e {
                    assert(out@[p as int] == x);
                }
            }
        }
    }
    proof {
        assert(orig.skip(0) =~= orig);
    }
    out
}

/// The groups of `rows` along dimension `d`: one entry per distinct label,
/// with its count, largest count first and then in label order.
pub fn group_entries_for(d: GroupDimension, rows: &Vec<RowView>) -> (out: Vec<GroupEntry>)
    ensures
        is_listing_of(all_labels(d, rows@), out@),
{
    let labels = collect_labels(d, rows);
    let entries = tally(&labels);
    let ghost ls = views(labels@);
    let ghost es = entries@;
    let out = sort_entries(entries);
    proof {
        assert forall|i: int| 0 <= i < out@.len() implies ls.contains(#[trigger] out@[i].label@) && out@[i].count == bounded_count(occurrences(ls, out@[i].label@)) by {
            assert(out@.contains(out@[i]));
            let k = choose|k: int| 0 <= k < es.len() && es[k] == out@[i];
            assert(ls.contains(es[k].label@));
        }
        assert forall|l: Seq<char>| ls.contains(l) implies exists|i: int| 0 <= i < out@.len() && #[trigger] out@[i].label@ == l by {
            let k = choose|k: int| 0 <= k < es.len() && #[trigger] es[k].label@ == l;
            assert(es.contains(es[k]));
            assert(out@.contains(es[k]));
            let i = choose|i: int| 0 <= i < out@.len() && out@[i] == es[k];
            assert(out@[i].label@ == l);
        }
    }
    out
}

/// Drilling into a group selects exactly the rows that contributed its label,
/// except that a row whose own flags or categories hold the literal words
/// `none` or `uncategorized` is counted in that group without being selected.
pub proof fn law_drill_selects_group_rows(f: GroupFilter, row: RowView)
    requires
        f.dimension == GroupDimension::RiskFlag ==> !views(row.risk_flags@).contains("none"@),
        f.dimension == GroupDimension::Category ==> !views(row.categories@).contains("uncategorized"@),
    ensures
        filter_matches(f, row) <==> row_labels(f.dimension, row).contains(f.value@),
{
    let labels = row_labels(f.dimension, row);
    match f.dimension {
        GroupDimension::RiskFlag => {
            if row.risk_flags@.len() == 0 {
                if f.value@ == "none"@ {
                    assert(labels[0] == f.value@);
                }
            }
        },
        GroupDimension::Category => {
            if row.categories@.len() == 0 {
                if f.value@ == "uncategorized"@ {
                    assert(labels[0] == f.value@);
                }
            }
        },
        _ => {
            if labels.contains(f.value@) {
                assert(labels[0] == f.value@);
            } else {
                assert(labels[0] != f.value@);
            }
        },
    }
}

proof fn lemma_occurrences_concat(s: Seq<Seq<char>>, t: Seq<Seq<char>>, l: Seq<char>)
    ensures
        occurrences(s + t, l) == occurrences(s, l) + occurrences(t, l),
    decreases t.len(),
{
    if t.len() > 0 {
        lemma_occurrences_concat(s, t.drop_last(), l);
        assert((s + t).drop_last() =~= s + t.drop_last());
        assert((s + t).last() == t.last());
    }
}

proof fn lemma_occurrences_distinct(t: Seq<Seq<char>>, l: Seq<char>)
    requires
        t.no_duplicates(),
    ensures
        occurrences(t, l) == if t.contains(l) { 1nat } else { 0nat },
    decreases t.len(),
{
    if t.len() > 0 {
        let u = t.drop_last();
        assert(u.no_duplicates()) by {
            assert forall|i: int, j: int| 0 <= i < u.len() && 0 <= j < u.len() && i != j implies u[i] != u[j] by {
                assert(u[i] == t[i] && u[j] == t[j]);
            }
        }
        lemma_occurrences_distinct(u, l);
        if t.last() == l {
            if u.contains(l) {
                let k = choose|k: int| 0 <= k < u.len() && u[k] == l;
                assert(t[k] == t[t.len() - 1]);
            }
            assert(t.contains(l)) by {
                assert(t[t.len() - 1] == l);
            }
        } else {
            if t.contains(l) {
                let k = choose|k: int| 0 <= k < t.len() && t[k] == l;
                assert(u[k] == l);
            }
            if u.contains(l) {
                let k = choose|k: int| 0 <= k < u.len() && u[k] == l;
                assert(t[k] == l);
            }
        }
    }
}

/// Drilling into a group selects as many rows as the group counts, when no
/// row repeats a label along the dimension and no row holds the literal
/// words `none` (as a flag) or `uncategorized` (as a category). (The listed
/// count is this number, capped at the largest `usize`.)
pub proof fn law_drill_selects_group_count(rows: Seq<RowView>, f: GroupFilter)
    requires
        forall|k: int| 0 <= k < rows.len() ==> row_labels(f.dimension, #[trigger] rows[k]).no_duplicates(),
        forall|k: int|
            0 <= k < rows.len() ==> (f.dimension == GroupDimension::RiskFlag ==> !views(
                #[trigger] rows[k].risk_flags@,
            ).contains("none"@)),
        forall|k: int|
            0 <= k < rows.len() ==> (f.dimension == GroupDimension::Category ==> !views(
                #[trigger] rows[k].categories@,
            ).contains("uncategorized"@)),
    ensures
        rows_in_group(rows, f).len() == occurrences(all_labels(f.dimension, rows), f.value@),
    decreases rows.len(),
{
    if rows.len() > 0 {
        let t = rows.drop_last();
        let r = rows.last();
        assert forall|k: int| 0 <= k < t.len() implies row_labels(f.dimension, #[trigger] t[k]).no_duplicates() by {
            assert(t[k] == rows[k]);
        }
        assert forall|k: int| 0 <= k < t.len() && f.dimension == GroupDimension::RiskFlag implies !views(
            #[trigger] t[k].risk_flags@,
        ).contains("none"@) by {
            assert(t[k] == rows[k]);
        }
        assert forall|k: int| 0 <= k < t.len() && f.dimension == GroupDimension::Category implies !views(
            #[trigger] t[k].categories@,
        ).contains("uncategorized"@) by {
            assert(t[k] == rows[k]);
        }
        law_drill_selects_group_count(t, f);
        assert(rows[rows.len() - 1] == r);
        law_drill_selects_group_rows(f, r);
        lemma_occurrences_concat(all_labels(f.dimension, t), row_labels(f.dimension, r), f.value@);
        lemma_occurrences_distinct(row_labels(f.dimension, r), f.value@);
    }
}

proof fn lemma_occurrences_bound(s: Seq<Seq<char>>, l: Seq<char>)
    ensures
        occurrences(s, l) <= s.len(),
    decreases s.len(),
{
    if s.len() > 0 {
        lemma_occurrences_bound(s.drop_last(), l);
    }
}

/// A listed count is the exact number of occurrences of its label whenever
/// there are no more labels in all than a `usize` holds.
pub proof fn law_listed_counts_exact(labels: Seq<Seq<char>>, out: Seq<GroupEntry>)
    requires
        is_listing_of(labels, out),
        labels.len() <= usize::MAX,
    ensures
        forall|i: int| 0 <= i < out.len() ==> #[trigger] out[i].count == occurrences(labels, out[i].label@),
{
    assert forall|i: int| 0 <= i < out.len() implies #[trigger] out[i].count == occurrences(labels, out[i].label@) by {
        lemma_occurrences_bound(labels, out[i].label@);
    }
}

} // verus!
