//! Persistent settings: backend command, default ledger and task, recent ledgers.

use vstd::prelude::*;
use vstd::string::*;

use crate::text::{
    clone_opt, clone_strings, is_blank, list_contains, trim, trim_str,
    views,
};

verus! {

/// Location of a local checkout of the service SDK; when it exists, the
/// default backend command runs the service from it.
pub const DEFAULT_SDK_PATH: &'static str = "/home/emmy/git/respkit";

/// How many recent ledgers are remembered.
pub const RECENT_LEDGER_LIMIT: usize = 8;

/// Settings kept between sessions.
#[derive(Debug)]
pub struct AppConfig {
    pub backend_command: Option<String>,
    pub default_ledger_path: Option<String>,
    pub default_task_name: Option<String>,
    pub recent_ledgers: Vec<String>,
}

impl Clone for AppConfig {
    fn clone(&self) -> (out: Self)
        ensures
            out.backend_command == self.backend_command,
            out.default_ledger_path == self.default_ledger_path,
            out.default_task_name == self.default_task_name,
            out.recent_ledgers@ == self.recent_ledgers@,
    {
        AppConfig {
            backend_command: clone_opt(&self.backend_command),
            default_ledger_path: clone_opt(&self.default_ledger_path),
            default_task_name: clone_opt(&self.default_task_name),
            recent_ledgers: clone_strings(&self.recent_ledgers),
        }
    }
}

impl Default for AppConfig {
    fn default() -> (out: Self)
        ensures
            out.backend_command is None,
            out.default_ledger_path is None,
            out.default_task_name is None,
            out.recent_ledgers@.len() == 0,
    {
        AppConfig {
            backend_command: None,
            default_ledger_path: None,
            default_task_name: None,
            recent_ledgers: Vec::new(),
        }
    }
}

/// The recent-ledger list after scanning `s` from the left and keeping each
/// entry that is not blank and not already kept.
pub open spec fn normalized_ledgers(s: Seq<Seq<char>>) -> Seq<Seq<char>>
    decreases s.len(),
{
    if s.len() == 0 {
        Seq::empty()
    } else {
        let kept = normalized_ledgers(s.drop_last());
        let x = s.last();
        if trim(x).len() == 0 || kept.contains(x) {
            kept
        } else {
            kept.push(x)
        }
    }
}

/// `s` without any entry equal to `x`, in the original order.
pub open spec fn without_entry(s: Seq<Seq<char>>, x: Seq<char>) -> Seq<Seq<char>>
    decreases s.len(),
{
    if s.len() == 0 {
        Seq::empty()
    } else {
        let rest = without_entry(s.drop_last(), x);
        if s.last() == x {
            rest
        } else {
            rest.push(s.last())
        }
    }
}

/// The first `n` entries of `s`, or all of them when there are fewer.
pub open spec fn at_most<T>(s: Seq<T>, n: nat) -> Seq<T> {
    if s.len() <= n {
        s
    } else {
        s.take(n as int)
    }
}

/// The recent-ledger list after recording the (trimmed, non-empty) ledger `x`:
/// `x` first, then the earlier entries other than `x`, bounded in length.
pub open spec fn recorded_ledgers(s: Seq<Seq<char>>, x: Seq<char>) -> Seq<Seq<char>> {
    at_most(seq![x] + without_entry(s, x), RECENT_LEDGER_LIMIT as nat)
}

/// The default backend command text for the environment.
pub open spec fn default_backend_command(sdk_present: bool) -> Seq<char> {
    if sdk_present {
        "PYTHONPATH="@ + DEFAULT_SDK_PATH@ + " python -m respkit.service.backend --ledger {ledger} --stdio"@
    } else {
        "respkit-ledger-service --ledger {ledger} --stdio"@
    }
}

/// The characters of an optional string.
pub open spec fn opt_view(o: Option<String>) -> Option<Seq<char>> {
    match o {
        Some(s) => Some(s@),
        None => None,
    }
}

impl AppConfig {
    /// The settings used when no config file exists: the default backend command
    /// for the environment (`sdk_present` tells whether [`DEFAULT_SDK_PATH`]
    /// exists), and nothing else.
    pub fn default_for_environment(sdk_present: bool) -> (out: Self)
        ensures
            opt_view(out.backend_command) == Some(default_backend_command(sdk_present)),
            out.default_ledger_path is None,
            out.default_task_name is None,
            out.recent_ledgers@.len() == 0,
    {
        let command = if sdk_present {
            let mut c = String::from_str("PYTHONPATH=");
            c.append(DEFAULT_SDK_PATH);
            c.append(" python -m respkit.service.backend --ledger {ledger} --stdio");
            c
        } else {
            String::from_str("respkit-ledger-service --ledger {ledger} --stdio")
        };
        AppConfig {
            backend_command: Some(command),
            default_ledger_path: None,
            default_task_name: None,
            recent_ledgers: Vec::new(),
        }
    }

    /// Settings read from a config file, made ready for use: the recent
    /// ledgers normalized, and the default backend command filled in when
    /// the file named none.
    pub fn prepare_loaded(self, sdk_present: bool) -> (out: Self)
        ensures
            out.recent_view() == normalized_ledgers(self.recent_view()),
            self.backend_command is Some ==> out.backend_command == self.backend_command,
            self.backend_command is None ==> opt_view(out.backend_command) == Some(
                default_backend_command(sdk_present),
            ),
            out.default_ledger_path == self.default_ledger_path,
            out.default_task_name == self.default_task_name,
    {
        let mut config = self;
        config.normalize();
        if config.backend_command.is_none() {
            config.backend_command = Self::default_for_environment(sdk_present).backend_command;
        }
        config
    }

    /// The recent ledgers, as character sequences.
    pub open spec fn recent_view(&self) -> Seq<Seq<char>> {
        views(self.recent_ledgers@)
    }

    /// Drops blank and repeated recent ledgers, keeping the first occurrence of each.
    pub fn normalize(&mut self)
        ensures
            final(self).recent_view() == normalized_ledgers(old(self).recent_view()),
            final(self).backend_command == old(self).backend_command,
            final(self).default_ledger_path == old(self).default_ledger_path,
            final(self).default_task_name == old(self).default_task_name,
    {
        let mut unique: Vec<String> = Vec::new();
        let n = self.recent_ledgers.len();
        let mut i: usize = 0;
        while i < n
            invariant
                n == self.recent_ledgers.len(),
                i <= n,
                views(unique@) == normalized_ledgers(self.recent_view().take(i as int)),
            decreases n - i,
        {
            let ghost s = self.recent_view();
            proof {
                assert(s.take(i + 1).drop_last() =~= s.take(i as int));
                assert(s.take(i + 1).last() == self.recent_ledgers@[i as int]@);
            }
            let entry = self.recent_ledgers[i].clone();
            if !is_blank(entry.as_str()) && !list_contains(&unique, entry.as_str()) {
                unique.push(entry);
                proof {
                    assert(views(unique@) =~= views(unique@).drop_last().push(entry@));
                }
            }
            proof {
                assert(views(unique@) =~= normalized_ledgers(s.take(i + 1)));
            }
            i = i + 1;
        }
        proof {
            assert(self.recent_view().take(n as int) =~= self.recent_view());
        }
        self.recent_ledgers = unique;
    }

    /// Records `ledger` (trimmed) as the most recent ledger and as the default
    /// ledger; a blank argument changes nothing.
    pub fn record_recent_ledger(&mut self, ledger: &str)
        ensures
            trim(ledger@).len() == 0 ==> *final(self) == *old(self),
            trim(ledger@).len() > 0 ==> {
                &&& final(self).recent_view() == recorded_ledgers(old(self).recent_view(), trim(ledger@))
                &&& opt_view(final(self).default_ledger_path) == Some(trim(ledger@))
                &&& final(self).backend_command == old(self).backend_command
                &&& final(self).default_task_name == old(self).default_task_name
            },
    {
        let trimmed = trim_str(ledger);
        if trimmed.as_str().is_empty() {
            return;
        }
        let mut kept: Vec<String> = Vec::new();
        kept.push(trimmed.clone());
        let n = self.recent_ledgers.len();
        let mut i: usize = 0;
        while i < n
            invariant
                n == self.recent_ledgers.len(),
                i <= n,
                views(kept@) == seq![trimmed@] + without_entry(self.recent_view().take(i as int), trimmed@),
            decreases n - i,
        {
            let ghost s = self.recent_view();
            proof {
                assert(s.take(i + 1).drop_last() =~= s.take(i as int));
                assert(s.take(i + 1).last() == self.recent_ledgers@[i as int]@);
            }
            let entry = self.recent_ledgers[i].clone();
            let ghost before = kept@;
            if !crate::text::str_eq(entry.as_str(), trimmed.as_str()) {
                kept.push(entry);
                proof {
                    assert(views(kept@) =~= views(before).push(entry@));
                }
            }
            proof {
                assert(views(kept@) =~= seq![trimmed@] + without_entry(s.take(i + 1), trimmed@));
            }
            i = i + 1;
        }
        proof {
            assert(self.recent_view().take(n as int) =~= self.recent_view());
        }
        kept.truncate(RECENT_LEDGER_LIMIT);
        proof {
            assert(views(kept@) =~= recorded_ledgers(self.recent_view(), trimmed@));
        }
        self.recent_ledgers = kept;
        self.default_ledger_path = Some(trimmed);
    }
}

/// What normalizing keeps: no entry twice, no blank entry, and exactly the
/// non-blank entries of the input.
pub proof fn lemma_normalized_ledgers(s: Seq<Seq<char>>)
    ensures
        normalized_ledgers(s).no_duplicates(),
        forall|k: int|
            0 <= k < normalized_ledgers(s).len() ==> trim(#[trigger] normalized_ledgers(s)[k]).len()
                > 0,
        forall|x: Seq<char>|
            normalized_ledgers(s).contains(x) <==> (s.contains(x) && trim(x).len() > 0),
    decreases s.len(),
{
    if s.len() > 0 {
        let t = s.drop_last();
        lemma_normalized_ledgers(t);
        let kept = normalized_ledgers(t);
        assert forall|x: Seq<char>| s.contains(x) <==> (t.contains(x) || x == s.last()) by {
            if s.contains(x) {
                let k = choose|k: int| 0 <= k < s.len() && s[k] == x;
                if k < s.len() - 1 {
                    assert(t[k] == x);
                }
            }
            if t.contains(x) {
                let k = choose|k: int| 0 <= k < t.len() && t[k] == x;
                assert(s[k] == x);
            }
            if x == s.last() {
                assert(s[s.len() - 1] == x);
            }
        }
        let x = s.last();
        if !(trim(x).len() == 0 || kept.contains(x)) {
            let n = kept.push(x);
            assert forall|y: Seq<char>| n.contains(y) <==> (kept.contains(y) || y == x) by {
                if n.contains(y) {
                    let k = choose|k: int| 0 <= k < n.len() && n[k] == y;
                    if k < kept.len() {
                        assert(kept[k] == y);
                    }
                }
                if kept.contains(y) {
                    let k = choose|k: int| 0 <= k < kept.len() && kept[k] == y;
                    assert(n[k] == y);
                }
                if y == x {
                    assert(n[n.len() - 1] == y);
                }
            }
            assert forall|i: int, j: int| 0 <= i < n.len() && 0 <= j < n.len() && i != j implies n[i]
                != n[j] by {
                if i == n.len() - 1 {
                    assert(!kept.contains(n[i]));
                    assert(kept[j] == n[j]);
                } else if j == n.len() - 1 {
                    assert(!kept.contains(n[j]));
                    assert(kept[i] == n[i]);
                }
            }
        }
    }
}

proof fn lemma_normalized_fixed_point(t: Seq<Seq<char>>)
    requires
        t.no_duplicates(),
        forall|k: int| 0 <= k < t.len() ==> trim(#[trigger] t[k]).len() > 0,
    ensures
        normalized_ledgers(t) == t,
    decreases t.len(),
{
    if t.len() > 0 {
        let u = t.drop_last();
        assert forall|k: int| 0 <= k < u.len() implies trim(#[trigger] u[k]).len() > 0 by {
            assert(u[k] == t[k]);
        }
        lemma_normalized_fixed_point(u);
        if u.contains(t.last()) {
            let k = choose|k: int| 0 <= k < u.len() && u[k] == t.last();
            assert(t[k] == t[t.len() - 1]);
        }
        assert(trim(t[t.len() - 1]).len() > 0);
        assert(u.push(t.last()) =~= t);
    }
}

/// Normalizing twice gives what normalizing once gives.
pub proof fn law_normalize_idempotent(s: Seq<Seq<char>>)
    ensures
        normalized_ledgers(normalized_ledgers(s)) == normalized_ledgers(s),
{
    lemma_normalized_ledgers(s);
    lemma_normalized_fixed_point(normalized_ledgers(s));
}

proof fn lemma_without_entry(s: Seq<Seq<char>>, x: Seq<char>)
    ensures
        forall|y: Seq<char>| without_entry(s, x).contains(y) ==> s.contains(y) && y != x,
        s.no_duplicates() ==> without_entry(s, x).no_duplicates(),
        without_entry(s, x).len() <= s.len(),
    decreases s.len(),
{
    if s.len() > 0 {
        let t = s.drop_last();
        lemma_without_entry(t, x);
        let w = without_entry(t, x);
        assert forall|y: Seq<char>| without_entry(s, x).contains(y) implies s.contains(y) && y != x by {
            let r = without_entry(s, x);
            let k = choose|k: int| 0 <= k < r.len() && r[k] == y;
            if s.last() == x {
                assert(r == w);
            } else {
                assert(r == w.push(s.last()));
            }
            if k < w.len() {
                assert(w[k] == y);
                assert(w.contains(y));
                assert(t.contains(y));
                let m = choose|m: int| 0 <= m < t.len() && t[m] == y;
                assert(s[m] == y);
            } else {
                assert(s[s.len() - 1] == y);
            }
        }
        if s.no_duplicates() {
            assert forall|i: int, j: int| 0 <= i < t.len() && 0 <= j < t.len() && i != j implies t[i]
                != t[j] by {
                assert(t[i] == s[i] && t[j] == s[j]);
            }
            if s.last() != x {
                let n = w.push(s.last());
                if w.contains(s.last()) {
                    assert(t.contains(s.last()));
                    let m = choose|m: int| 0 <= m < t.len() && t[m] == s.last();
                    assert(s[m] == s[s.len() - 1]);
                }
                assert(!w.contains(s.last()));
                assert forall|i: int, j: int| 0 <= i < n.len() && 0 <= j < n.len() && i != j implies n[i]
                    != n[j] by {
                    if i == n.len() - 1 {
                        assert(w[j] == n[j]);
                    } else if j == n.len() - 1 {
                        assert(w[i] == n[i]);
                    } else {
                        assert(w[i] == n[i] && w[j] == n[j]);
                    }
                }
                assert(without_entry(s, x) == n);
            } else {
                assert(without_entry(s, x) == w);
            }
        }
    }
}

/// Dropping an entry keeps the others in order: it is the list filtered by
/// "differs from the entry".
pub proof fn law_without_entry_is_filter(s: Seq<Seq<char>>, x: Seq<char>)
    ensures
        without_entry(s, x) == s.filter(|y: Seq<char>| y != x),
    decreases s.len(),
{
    reveal(Seq::filter);
    if s.len() > 0 {
        law_without_entry_is_filter(s.drop_last(), x);
    }
}

/// Recording a ledger puts it first, keeps it only once, keeps the list
/// within its bound, and keeps a list free of repeats free of repeats.
pub proof fn law_record_recent_ledger(s: Seq<Seq<char>>, x: Seq<char>)
    ensures
        recorded_ledgers(s, x).len() >= 1,
        recorded_ledgers(s, x)[0] == x,
        forall|k: int| 1 <= k < recorded_ledgers(s, x).len() ==> #[trigger] recorded_ledgers(s, x)[k] != x,
        recorded_ledgers(s, x).len() <= RECENT_LEDGER_LIMIT,
        s.no_duplicates() ==> recorded_ledgers(s, x).no_duplicates(),
{
    lemma_without_entry(s, x);
    let w = without_entry(s, x);
    let full = seq![x] + w;
    let r = recorded_ledgers(s, x);
    assert forall|k: int| 1 <= k < full.len() implies #[trigger] full[k] != x by {
        let y = w[k - 1];
        assert(full[k] == y);
        assert(w.contains(y));
        assert(s.contains(y) && y != x);
    }
    assert forall|k: int| 0 <= k < r.len() implies #[trigger] r[k] == full[k] by {}
    if s.no_duplicates() {
        assert forall|i: int, j: int| 0 <= i < r.len() && 0 <= j < r.len() && i != j implies r[i]
            != r[j] by {
            assert(r[i] == full[i] && r[j] == full[j]);
            if i > 0 && j > 0 {
                assert(full[i] == w[i - 1] && full[j] == w[j - 1]);
            }
        }
    }
}

} // verus!
