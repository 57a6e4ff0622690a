//! Retention of the execution history: entries older than the retention
//! period go, and of the finished ones only the newest `max-records` stay.
//! Running executions are always kept.

use vstd::prelude::*;
use crate::config::HistoryConfig;
use crate::execution_service::ExecutionState;

verus! {

/// Milliseconds in a day.
pub const MILLIS_PER_DAY: u64 = 86_400_000;

/// One execution in the history.
#[derive(Debug, Clone)]
pub struct ExecutionHistoryEntry {
    pub execution_id: String,
    pub command_line: String,
    pub server: String,
    pub state: ExecutionState,
    pub started_at: u64,
    pub finished_at: Option<u64>,
    pub exit_code: Option<i32>,
    pub success: Option<bool>,
    pub timed_out: Option<bool>,
}

/// An entry by view.
pub struct EntryView {
    pub id: Seq<char>,
    pub command_line: Seq<char>,
    pub server: Seq<char>,
    pub state: ExecutionState,
    pub started_at: u64,
    pub finished_at: Option<u64>,
    pub exit_code: Option<i32>,
    pub success: Option<bool>,
    pub timed_out: Option<bool>,
}

/// The view of one entry.
pub open spec fn entry_view(e: ExecutionHistoryEntry) -> EntryView {
    EntryView {
        id: e.execution_id@,
        command_line: e.command_line@,
        server: e.server@,
        state: e.state,
        started_at: e.started_at,
        finished_at: e.finished_at,
        exit_code: e.exit_code,
        success: e.success,
        timed_out: e.timed_out,
    }
}

/// The entries by view.
pub open spec fn entries_view(s: Seq<ExecutionHistoryEntry>) -> Seq<EntryView> {
    s.map_values(|e: ExecutionHistoryEntry| entry_view(e))
}

/// Whether an entry survives the retention period ending at `cutoff`.
pub open spec fn within_retention(e: EntryView, cutoff: u64) -> bool {
    e.state == ExecutionState::Running || e.started_at >= cutoff
}

/// The entries within the retention period, and the ids of the others.
pub open spec fn retain_recent(s: Seq<EntryView>, cutoff: u64) -> (Seq<EntryView>, Seq<Seq<char>>)
    decreases s.len(),
{
    if s.len() == 0 {
        (Seq::empty(), Seq::empty())
    } else {
        let (kept, removed) = retain_recent(s.drop_last(), cutoff);
        if within_retention(s.last(), cutoff) {
            (kept.push(s.last()), removed)
        } else {
            (kept, removed.push(s.last().id))
        }
    }
}

/// How many entries have finished.
pub open spec fn finished_count(s: Seq<EntryView>) -> nat
    decreases s.len(),
{
    if s.len() == 0 {
        0
    } else {
        finished_count(s.drop_last()) + if s.last().state != ExecutionState::Running {
            1nat
        } else {
            0nat
        }
    }
}

/// The entries without their first `k` finished ones, and the ids of those.
pub open spec fn drop_oldest_finished(s: Seq<EntryView>, k: nat) -> (Seq<EntryView>, Seq<Seq<char>>)
    decreases s.len(),
{
    if s.len() == 0 {
        (Seq::empty(), Seq::empty())
    } else if s[0].state != ExecutionState::Running && k > 0 {
        let (rest, removed) = drop_oldest_finished(s.drop_first(), (k - 1) as nat);
        (rest, seq![s[0].id] + removed)
    } else {
        let (rest, removed) = drop_oldest_finished(s.drop_first(), k);
        (seq![s[0]] + rest, removed)
    }
}

/// How far `count` goes beyond `limit`.
pub open spec fn excess(count: nat, limit: usize) -> nat {
    if count > limit {
        (count - limit) as nat
    } else {
        0
    }
}

/// The oldest start time kept at `now`.
pub open spec fn cutoff_spec(now: u64, retention_days: u64) -> u64 {
    let span: int = if retention_days * MILLIS_PER_DAY > u64::MAX {
        u64::MAX as int
    } else {
        retention_days * MILLIS_PER_DAY
    };
    if now >= span {
        (now - span) as u64
    } else {
        0
    }
}

/// The oldest start time kept at `now` when the retention period is
/// `retention_days` days.
pub fn retention_cutoff(now: u64, retention_days: u64) -> (c: u64)
    ensures
        c == cutoff_spec(now, retention_days),
{
    let span: u64 = if retention_days > u64::MAX / MILLIS_PER_DAY {
        assert(retention_days * MILLIS_PER_DAY > u64::MAX) by (nonlinear_arith)
            requires
                retention_days > u64::MAX / MILLIS_PER_DAY,
        ;
        u64::MAX
    } else {
        assert(retention_days * MILLIS_PER_DAY <= u64::MAX) by (nonlinear_arith)
            requires
                retention_days <= u64::MAX / MILLIS_PER_DAY,
        ;
        retention_days * MILLIS_PER_DAY
    };
    now.saturating_sub(span)
}

/// What pruning keeps and removes, in order.
pub open spec fn prune_spec(s: Seq<EntryView>, config: HistoryConfig, now: u64) -> (Seq<EntryView>, Seq<
    Seq<char>,
>) {
    let (recent, old_ids) = retain_recent(s, cutoff_spec(now, config.retention_days));
    let (kept, dropped) = drop_oldest_finished(recent, excess(finished_count(recent), config.max_records));
    (kept, old_ids + dropped)
}

/// Prunes the history at time `now`: entries that started before the
/// retention period go, then the oldest finished ones beyond `max-records`.
/// Returns the ids removed.
pub fn prune_entries(entries: &mut Vec<ExecutionHistoryEntry>, config: &HistoryConfig, now: u64) -> (removed: Vec<
    String,
>)
    ensures
        (entries_view(final(entries)@), crate::text::views_of(removed@)) == prune_spec(
            entries_view(old(entries)@),
            *config,
            now,
        ),
{
    let cutoff = retention_cutoff(now, config.retention_days);
    let ghost s = entries_view(entries@);
    let mut recent: Vec<ExecutionHistoryEntry> = Vec::new();
    let mut removed: Vec<String> = Vec::new();
    let mut finished: usize = 0;
    let mut i: usize = 0;
    while i < entries.len()
        invariant
            i <= entries@.len(),
            s == entries_view(entries@),
            (entries_view(recent@), crate::text::views_of(removed@)) == retain_recent(
                s.take(i as int),
                cutoff,
            ),
            finished == finished_count(entries_view(recent@)),
            finished <= recent@.len(),
            recent@.len() <= i,
        decreases entries@.len() - i,
    {
        let e = entries[i].clone_entry();
        let ghost before_recent = entries_view(recent@);
        let ghost before_removed = crate::text::views_of(removed@);
        let keep = match e.state {
            ExecutionState::Running => true,
            _ => e.started_at >= cutoff,
        };
        if keep {
            let finished_now = match e.state {
                ExecutionState::Running => false,
                _ => true,
            };
            recent.push(e);
            if finished_now {
                finished += 1;
            }
            proof {
                assert(entries_view(recent@) =~= before_recent.push(s[i as int]));
                assert(entries_view(recent@).drop_last() =~= before_recent);
            }
        } else {
            removed.push(e.execution_id);
            proof {
                assert(crate::text::views_of(removed@) =~= before_removed.push(s[i as int].id));
            }
        }
        proof {
            let t = s.take(i + 1);
            assert(t.drop_last() =~= s.take(i as int));
            assert(t.last() == s[i as int]);
        }
        i += 1;
    }
    proof {
        assert(s.take(i as int) =~= s);
    }
    let ghost rv = entries_view(recent@);
    let mut to_remove: usize = finished.saturating_sub(config.max_records);
    let mut kept: Vec<ExecutionHistoryEntry> = Vec::new();
    let ghost removed_old = crate::text::views_of(removed@);
    let mut j: usize = 0;
    proof {
        assert(rv.skip(0) =~= rv);
        assert(Seq::<EntryView>::empty() + drop_oldest_finished(rv, to_remove as nat).0 =~= drop_oldest_finished(
            rv,
            to_remove as nat,
        ).0);
        assert(removed_old + drop_oldest_finished(rv, to_remove as nat).1 =~= removed_old
            + drop_oldest_finished(rv, to_remove as nat).1);
    }
    let ghost extra = to_remove as nat;
    assert(extra == excess(finished_count(rv), config.max_records));
    while j < recent.len()
        invariant
            j <= recent@.len(),
            rv == entries_view(recent@),
            entries_view(kept@) + drop_oldest_finished(rv.skip(j as int), to_remove as nat).0
                == drop_oldest_finished(rv, extra).0,
            crate::text::views_of(removed@) + drop_oldest_finished(rv.skip(j as int), to_remove as nat).1
                == removed_old + drop_oldest_finished(rv, extra).1,
        decreases recent@.len() - j,
    {
        let e = recent[j].clone_entry();
        let finished_entry = match e.state {
            ExecutionState::Running => false,
            _ => true,
        };
        let ghost tail = rv.skip(j as int);
        proof {
            assert(tail[0] == rv[j as int]);
            assert(tail.drop_first() =~= rv.skip(j + 1));
        }
        let ghost k_before = kept@;
        let ghost r_before = removed@;
        if finished_entry && to_remove > 0 {
            removed.push(e.execution_id);
            to_remove -= 1;
            proof {
                assert(crate::text::views_of(removed@) =~= crate::text::views_of(r_before).push(tail[0].id));
                assert(crate::text::views_of(removed@) + drop_oldest_finished(rv.skip(j + 1), to_remove as nat).1
                    =~= crate::text::views_of(r_before) + drop_oldest_finished(tail, (to_remove + 1) as nat).1);
            }
        } else {
            kept.push(e);
            proof {
                assert(entries_view(kept@) =~= entries_view(k_before).push(tail[0]));
                assert(entries_view(kept@) + drop_oldest_finished(rv.skip(j + 1), to_remove as nat).0
                    =~= entries_view(k_before) + drop_oldest_finished(tail, to_remove as nat).0);
            }
        }
        j += 1;
    }
    proof {
        assert(rv.skip(j as int) =~= Seq::<EntryView>::empty());
        assert(entries_view(kept@) + Seq::<EntryView>::empty() =~= entries_view(kept@));
        assert(crate::text::views_of(removed@) + Seq::<Seq<char>>::empty() =~= crate::text::views_of(
            removed@,
        ));
    }
    *entries = kept;
    removed
}

impl ExecutionHistoryEntry {
    /// Copies the entry.
    pub fn clone_entry(&self) -> (c: Self)
        ensures
            entry_view(c) == entry_view(*self),
    {
        ExecutionHistoryEntry {
            execution_id: self.execution_id.clone(),
            command_line: self.command_line.clone(),
            server: self.server.clone(),
            state: self.state,
            started_at: self.started_at,
            finished_at: self.finished_at,
            exit_code: self.exit_code,
            success: self.success,
            timed_out: self.timed_out,
        }
    }
}

/// Pruning keeps every running execution.
pub proof fn lemma_running_entries_survive(s: Seq<EntryView>, config: HistoryConfig, now: u64, e: EntryView)
    requires
        s.contains(e),
        e.state == ExecutionState::Running,
    ensures
        prune_spec(s, config, now).0.contains(e),
{
    let cutoff = cutoff_spec(now, config.retention_days);
    lemma_recent_keeps_running(s, cutoff, e);
    let (recent, _) = retain_recent(s, cutoff);
    lemma_drop_keeps_running(recent, excess(finished_count(recent), config.max_records), e);
}

proof fn lemma_recent_keeps_running(s: Seq<EntryView>, cutoff: u64, e: EntryView)
    requires
        s.contains(e),
        e.state == ExecutionState::Running,
    ensures
        retain_recent(s, cutoff).0.contains(e),
    decreases s.len(),
{
    if s.last() == e {
        assert(retain_recent(s, cutoff).0.last() == e);
        assert(retain_recent(s, cutoff).0[retain_recent(s, cutoff).0.len() - 1] == e);
    } else {
        let k = choose|k: int| 0 <= k < s.len() && s[k] == e;
        assert(s.drop_last()[k] == e);
        lemma_recent_keeps_running(s.drop_last(), cutoff, e);
        let (kept, _) = retain_recent(s.drop_last(), cutoff);
        let m = choose|m: int| 0 <= m < kept.len() && kept[m] == e;
        if within_retention(s.last(), cutoff) {
            assert(kept.push(s.last())[m] == e);
        }
    }
}

proof fn lemma_drop_keeps_running(s: Seq<EntryView>, k: nat, e: EntryView)
    requires
        s.contains(e),
        e.state == ExecutionState::Running,
    ensures
        drop_oldest_finished(s, k).0.contains(e),
    decreases s.len(),
{
    if s[0] == e {
        let (rest, _) = drop_oldest_finished(s.drop_first(), k);
        assert((seq![s[0]] + rest)[0] == e);
    } else {
        let i = choose|i: int| 0 <= i < s.len() && s[i] == e;
        assert(s.drop_first()[i - 1] == e);
        if s[0].state != ExecutionState::Running && k > 0 {
            lemma_drop_keeps_running(s.drop_first(), (k - 1) as nat, e);
        } else {
            lemma_drop_keeps_running(s.drop_first(), k, e);
            let (rest, _) = drop_oldest_finished(s.drop_first(), k);
            let m = choose|m: int| 0 <= m < rest.len() && rest[m] == e;
            assert((seq![s[0]] + rest)[m + 1] == e);
        }
    }
}


/// The first position of the entry with id `id`.
pub open spec fn first_position(s: Seq<EntryView>, id: Seq<char>) -> Option<int>
    decreases s.len(),
{
    if s.len() == 0 {
        None
    } else if s[0].id == id {
        Some(0)
    } else {
        match first_position(s.drop_first(), id) {
            Some(i) => Some(i + 1),
            None => None,
        }
    }
}

proof fn lemma_first_position(s: Seq<EntryView>, id: Seq<char>, i: int)
    requires
        0 <= i <= s.len(),
        forall|j: int| 0 <= j < i ==> s[j].id != id,
    ensures
        i == s.len() ==> first_position(s, id) is None,
        i < s.len() && s[i].id == id ==> first_position(s, id) == Some(i),
    decreases i,
{
    if i > 0 {
        assert forall|j: int| 0 <= j < i - 1 implies s.drop_first()[j].id != id by {
            assert(s.drop_first()[j] == s[j + 1]);
        }
        lemma_first_position(s.drop_first(), id, i - 1);
        if i < s.len() {
            assert(s.drop_first()[i - 1] == s[i]);
        }
    }
}

proof fn lemma_first_position_in_range(s: Seq<EntryView>, id: Seq<char>)
    ensures
        first_position(s, id) matches Some(i) ==> 0 <= i < s.len() && s[i].id == id,
    decreases s.len(),
{
    if s.len() > 0 && s[0].id != id {
        lemma_first_position_in_range(s.drop_first(), id);
    }
}

/// The position of the first entry whose id is `id`.
fn position_of(entries: &Vec<ExecutionHistoryEntry>, id: &str) -> (r: Option<usize>)
    ensures
        first_position(entries_view(entries@), id@) matches Some(i) ==> 0 <= i < entries@.len()
            && entries_view(entries@)[i].id == id@,
        match r {
            Some(i) => first_position(entries_view(entries@), id@) == Some(i as int),
            None => first_position(entries_view(entries@), id@) is None,
        },
{
    let ghost s = entries_view(entries@);
    proof {
        lemma_first_position_in_range(s, id@);
    }
    let mut i: usize = 0;
    while i < entries.len()
        invariant
            i <= entries@.len(),
            s == entries_view(entries@),
            forall|j: int| 0 <= j < i ==> s[j].id != id@,
        decreases entries@.len() - i,
    {
        if crate::text::str_equal(entries[i].execution_id.as_str(), id) {
            proof {
                lemma_first_position(s, id@, i as int);
            }
            return Some(i);
        }
        i += 1;
    }
    proof {
        lemma_first_position(s, id@, i as int);
    }
    None
}

/// The entries without those whose id is `id`.
pub open spec fn without_id(s: Seq<EntryView>, id: Seq<char>) -> Seq<EntryView>
    decreases s.len(),
{
    if s.len() == 0 {
        Seq::empty()
    } else if s.last().id == id {
        without_id(s.drop_last(), id)
    } else {
        without_id(s.drop_last(), id).push(s.last())
    }
}

/// The entry of an execution that started at `now`.
pub open spec fn started_entry(id: Seq<char>, command_line: Seq<char>, server: Seq<char>, now: u64) -> EntryView {
    EntryView {
        id,
        command_line,
        server,
        state: ExecutionState::Running,
        started_at: now,
        finished_at: None,
        exit_code: None,
        success: None,
        timed_out: None,
    }
}

/// The entry `e` once its execution finished at `now`.
pub open spec fn finished_entry(
    e: EntryView,
    state: ExecutionState,
    exit_code: Option<i32>,
    success: Option<bool>,
    timed_out: Option<bool>,
    now: u64,
) -> EntryView {
    EntryView {
        id: e.id,
        command_line: e.command_line,
        server: e.server,
        state,
        started_at: e.started_at,
        finished_at: Some(now),
        exit_code,
        success,
        timed_out,
    }
}

/// The records of the page that starts `offset` entries from the newest
/// and holds at most `limit` of them, newest first.
pub open spec fn page_spec(s: Seq<EntryView>, offset: usize, limit: usize) -> Seq<EntryView> {
    let start: int = if offset < s.len() {
        offset as int
    } else {
        s.len() as int
    };
    let end: int = if start + limit < s.len() {
        start + limit
    } else {
        s.len() as int
    };
    s.reverse().subrange(start, end)
}

/// One page of the history, newest first.
#[derive(Debug, Clone)]
pub struct ExecutionHistoryPage {
    pub records: Vec<ExecutionHistoryEntry>,
    pub total: usize,
    pub offset: usize,
    pub limit: usize,
}

/// Why a history operation failed.
#[derive(Debug, Clone, PartialEq, Eq)]
pub enum ExecutionHistoryError {
    Io(String),
    Json(String),
    NotFound(String),
    Running(String),
}

impl ExecutionHistoryError {
    /// The text of the message.
    pub open spec fn message_spec(&self) -> Seq<char> {
        match self {
            ExecutionHistoryError::Io(e) => "failed to access execution history: "@ + e@,
            ExecutionHistoryError::Json(e) => "failed to parse execution history: "@ + e@,
            ExecutionHistoryError::NotFound(id) => "execution '"@ + id@ + "' is not in history"@,
            ExecutionHistoryError::Running(id) => "execution '"@ + id@ + "' is still running"@,
        }
    }

    /// The message shown for the error.
    pub fn message(&self) -> (m: String)
        ensures
            m@ == self.message_spec(),
    {
        match self {
            ExecutionHistoryError::Io(e) => {
                let mut m = crate::text::string_from_str("failed to access execution history: ");
                crate::text::push_str(&mut m, e.as_str());
                m
            },
            ExecutionHistoryError::Json(e) => {
                let mut m = crate::text::string_from_str("failed to parse execution history: ");
                crate::text::push_str(&mut m, e.as_str());
                m
            },
            ExecutionHistoryError::NotFound(id) => {
                let mut m = crate::text::string_from_str("execution '");
                crate::text::push_str(&mut m, id.as_str());
                crate::text::push_str(&mut m, "' is not in history");
                m
            },
            ExecutionHistoryError::Running(id) => {
                let mut m = crate::text::string_from_str("execution '");
                crate::text::push_str(&mut m, id.as_str());
                crate::text::push_str(&mut m, "' is still running");
                m
            },
        }
    }
}

/// The execution history held in memory, oldest entry first, with the
/// retention settings it is pruned by. Writing it to disk is left to the
/// caller, which is told what changed.
pub struct ExecutionHistoryStore {
    entries: Vec<ExecutionHistoryEntry>,
    config: HistoryConfig,
}

impl View for ExecutionHistoryStore {
    type V = Seq<EntryView>;

    closed spec fn view(&self) -> Seq<EntryView> {
        entries_view(self.entries@)
    }
}

impl ExecutionHistoryStore {
    /// The retention settings.
    pub closed spec fn config_spec(&self) -> HistoryConfig {
        self.config
    }

    /// A history of `entries`, pruned at `now`; also returns the ids removed.
    pub fn new(config: HistoryConfig, entries: Vec<ExecutionHistoryEntry>, now: u64) -> (r: (Self, Vec<String>))
        ensures
            r.0.config_spec() == config,
            (r.0@, crate::text::views_of(r.1@)) == prune_spec(entries_view(entries@), config, now),
    {
        let mut store = ExecutionHistoryStore { entries, config };
        let removed = store.prune(now);
        (store, removed)
    }

    /// The entries, oldest first.
    pub fn entries(&self) -> (r: &Vec<ExecutionHistoryEntry>)
        ensures
            entries_view(r@) == self@,
    {
        &self.entries
    }

    /// The retention settings.
    pub fn config(&self) -> (r: &HistoryConfig)
        ensures
            *r == self.config_spec(),
    {
        &self.config
    }

    /// Replaces the retention settings and prunes at `now`; returns the ids removed.
    pub fn set_config(&mut self, config: HistoryConfig, now: u64) -> (removed: Vec<String>)
        ensures
            final(self).config_spec() == config,
            (final(self)@, crate::text::views_of(removed@)) == prune_spec(old(self)@, config, now),
    {
        self.config = config;
        self.prune(now)
    }

    /// Prunes at `now`; returns the ids removed.
    pub fn prune(&mut self, now: u64) -> (removed: Vec<String>)
        ensures
            final(self).config_spec() == old(self).config_spec(),
            (final(self)@, crate::text::views_of(removed@)) == prune_spec(old(self)@, old(self).config_spec(), now),
    {
        prune_entries(&mut self.entries, &self.config, now)
    }

    /// Records that the execution `execution_id` started at `now`, in place
    /// of any entry with that id.
    pub fn record_started(&mut self, execution_id: String, command_line: String, server: String, now: u64)
        ensures
            final(self).config_spec() == old(self).config_spec(),
            final(self)@ == without_id(old(self)@, execution_id@).push(
                started_entry(execution_id@, command_line@, server@, now),
            ),
    {
        let ghost s = self@;
        let mut kept: Vec<ExecutionHistoryEntry> = Vec::new();
        let mut i: usize = 0;
        while i < self.entries.len()
            invariant
                i <= self.entries@.len(),
                s == entries_view(self.entries@),
                entries_view(kept@) == without_id(s.take(i as int), execution_id@),
            decreases self.entries@.len() - i,
        {
            let e = self.entries[i].clone_entry();
            let ghost before = entries_view(kept@);
            proof {
                let t = s.take(i + 1);
                assert(t.drop_last() =~= s.take(i as int));
                assert(t.last() == s[i as int]);
            }
            if !crate::text::str_equal(e.execution_id.as_str(), execution_id.as_str()) {
                kept.push(e);
                proof {
                    assert(entries_view(kept@) =~= before.push(s[i as int]));
                }
            }
            i += 1;
        }
        proof {
            assert(s.take(i as int) =~= s);
        }
        let ghost before = entries_view(kept@);
        kept.push(
            ExecutionHistoryEntry {
                execution_id,
                command_line,
                server,
                state: ExecutionState::Running,
                started_at: now,
                finished_at: None,
                exit_code: None,
                success: None,
                timed_out: None,
            },
        );
        proof {
            assert(entries_view(kept@) =~= before.push(started_entry(execution_id@, command_line@, server@, now)));
        }
        self.entries = kept;
    }

    /// Records that the execution `execution_id` finished at `now`, then
    /// prunes; returns the ids removed. Fails when no entry has that id.
    pub fn record_finished(
        &mut self,
        execution_id: &str,
        state: ExecutionState,
        exit_code: Option<i32>,
        success: Option<bool>,
        timed_out: Option<bool>,
        now: u64,
    ) -> (r: Result<Vec<String>, ExecutionHistoryError>)
        ensures
            final(self).config_spec() == old(self).config_spec(),
            match first_position(old(self)@, execution_id@) {
                None => r matches Err(ExecutionHistoryError::NotFound(m)) && m@ == execution_id@
                    && final(self)@ == old(self)@,
                Some(i) => r is Ok && (final(self)@, crate::text::views_of(r->Ok_0@)) == prune_spec(
                    old(self)@.update(
                        i,
                        finished_entry(old(self)@[i], state, exit_code, success, timed_out, now),
                    ),
                    old(self).config_spec(),
                    now,
                ),
            },
    {
        match position_of(&self.entries, execution_id) {
            None => Err(ExecutionHistoryError::NotFound(crate::text::string_from_str(execution_id))),
            Some(i) => {
                let ghost s = self@;
                assert(s[i as int] == entry_view(self.entries@[i as int]));
                let old_entry = self.entries[i].clone_entry();
                let updated = ExecutionHistoryEntry {
                    execution_id: old_entry.execution_id,
                    command_line: old_entry.command_line,
                    server: old_entry.server,
                    state,
                    started_at: old_entry.started_at,
                    finished_at: Some(now),
                    exit_code,
                    success,
                    timed_out,
                };
                self.entries.set(i, updated);
                proof {
                    assert(self@ =~= s.update(
                        i as int,
                        finished_entry(s[i as int], state, exit_code, success, timed_out, now),
                    ));
                }
                Ok(self.prune(now))
            },
        }
    }

    /// A page of at most `limit` entries, skipping the `offset` newest,
    /// newest first.
    pub fn list(&self, offset: usize, limit: usize) -> (page: ExecutionHistoryPage)
        ensures
            entries_view(page.records@) == page_spec(self@, offset, limit),
            page.total == self@.len(),
            page.offset == offset,
            page.limit == limit,
    {
        let ghost s = self@;
        let total = self.entries.len();
        let start: usize = if offset < total {
            offset
        } else {
            total
        };
        let end: usize = if limit < total - start {
            start + limit
        } else {
            total
        };
        let mut records: Vec<ExecutionHistoryEntry> = Vec::new();
        let mut k: usize = start;
        while k < end
            invariant
                start <= k <= end <= total,
                total == self.entries@.len(),
                s == entries_view(self.entries@),
                entries_view(records@) == s.reverse().subrange(start as int, k as int),
            decreases end - k,
        {
            let e = self.entries[total - 1 - k].clone_entry();
            let ghost before = entries_view(records@);
            records.push(e);
            proof {
                assert(s.reverse().len() == s.len());
                assert(s.reverse()[k as int] == s[total - 1 - k]);
                assert(entries_view(records@) =~= before.push(s[total - 1 - k]));
                assert(entries_view(records@) =~= s.reverse().subrange(start as int, k + 1));
            }
            k += 1;
        }
        ExecutionHistoryPage { records, total, offset, limit }
    }

    /// The entry of the execution `execution_id`, if any.
    pub fn get(&self, execution_id: &str) -> (r: Option<ExecutionHistoryEntry>)
        ensures
            match first_position(self@, execution_id@) {
                Some(i) => r is Some && entry_view(r->0) == self@[i],
                None => r is None,
            },
    {
        match position_of(&self.entries, execution_id) {
            Some(i) => {
                assert(self@[i as int] == entry_view(self.entries@[i as int]));
                Some(self.entries[i].clone_entry())
            },
            None => None,
        }
    }

    /// Deletes the entry of a finished execution; `Ok(false)` when there is
    /// none, an error when it is still running.
    pub fn delete(&mut self, execution_id: &str) -> (r: Result<bool, ExecutionHistoryError>)
        ensures
            final(self).config_spec() == old(self).config_spec(),
            match first_position(old(self)@, execution_id@) {
                None => r == Ok::<bool, ExecutionHistoryError>(false) && final(self)@ == old(self)@,
                Some(i) => if old(self)@[i].state == ExecutionState::Running {
                    r matches Err(ExecutionHistoryError::Running(m)) && m@ == execution_id@
                        && final(self)@ == old(self)@
                } else {
                    r == Ok::<bool, ExecutionHistoryError>(true) && final(self)@ == old(self)@.remove(i)
                },
            },
    {
        match position_of(&self.entries, execution_id) {
            None => Ok(false),
            Some(i) => {
                assert(self@[i as int] == entry_view(self.entries@[i as int]));
                let running = match self.entries[i].state {
                    ExecutionState::Running => true,
                    _ => false,
                };
                if running {
                    return Err(ExecutionHistoryError::Running(crate::text::string_from_str(execution_id)));
                }
                let ghost s = self.entries@;
                self.entries.remove(i);
                proof {
                    assert(entries_view(self.entries@) =~= entries_view(s).remove(i as int));
                }
                Ok(true)
            },
        }
    }
}


proof fn lemma_finished_prepend(x: EntryView, r: Seq<EntryView>)
    ensures
        finished_count(seq![x] + r) == finished_count(r) + if x.state != ExecutionState::Running {
            1nat
        } else {
            0nat
        },
    decreases r.len(),
{
    if r.len() == 0 {
        assert(seq![x] + r =~= seq![x]);
        assert(seq![x].drop_last() =~= Seq::<EntryView>::empty());
        assert(seq![x].last() == x);
        assert(finished_count(Seq::<EntryView>::empty()) == 0);
    } else {
        assert((seq![x] + r).drop_last() =~= seq![x] + r.drop_last());
        assert((seq![x] + r).last() == r.last());
        lemma_finished_prepend(x, r.drop_last());
    }
}

proof fn lemma_drop_count(s: Seq<EntryView>, k: nat)
    ensures
        finished_count(drop_oldest_finished(s, k).0) == if finished_count(s) > k {
            (finished_count(s) - k) as nat
        } else {
            0nat
        },
    decreases s.len(),
{
    if s.len() > 0 {
        assert(s =~= seq![s[0]] + s.drop_first());
        lemma_finished_prepend(s[0], s.drop_first());
        if s[0].state != ExecutionState::Running && k > 0 {
            lemma_drop_count(s.drop_first(), (k - 1) as nat);
        } else {
            lemma_drop_count(s.drop_first(), k);
            lemma_finished_prepend(s[0], drop_oldest_finished(s.drop_first(), k).0);
        }
    }
}

proof fn lemma_drop_subset(s: Seq<EntryView>, k: nat, j: int)
    requires
        0 <= j < drop_oldest_finished(s, k).0.len(),
    ensures
        s.contains(drop_oldest_finished(s, k).0[j]),
    decreases s.len(),
{
    if s.len() > 0 {
        if s[0].state != ExecutionState::Running && k > 0 {
            lemma_drop_subset(s.drop_first(), (k - 1) as nat, j);
            let x = drop_oldest_finished(s, k).0[j];
            let m = choose|m: int| 0 <= m < s.drop_first().len() && s.drop_first()[m] == x;
            assert(s[m + 1] == x);
        } else if j == 0 {
            assert(s[0] == drop_oldest_finished(s, k).0[0]);
        } else {
            let rest = drop_oldest_finished(s.drop_first(), k).0;
            assert(drop_oldest_finished(s, k).0[j] == rest[j - 1]);
            lemma_drop_subset(s.drop_first(), k, j - 1);
            let x = rest[j - 1];
            let m = choose|m: int| 0 <= m < s.drop_first().len() && s.drop_first()[m] == x;
            assert(s[m + 1] == x);
        }
    }
}

proof fn lemma_recent_within(s: Seq<EntryView>, cutoff: u64)
    ensures
        forall|j: int|
            0 <= j < retain_recent(s, cutoff).0.len() ==> within_retention(
                #[trigger] retain_recent(s, cutoff).0[j],
                cutoff,
            ),
    decreases s.len(),
{
    if s.len() > 0 {
        lemma_recent_within(s.drop_last(), cutoff);
        let kept = retain_recent(s.drop_last(), cutoff).0;
        if within_retention(s.last(), cutoff) {
            assert forall|j: int| 0 <= j < kept.len() + 1 implies within_retention(
                #[trigger] kept.push(s.last())[j],
                cutoff,
            ) by {
                if j < kept.len() {
                    assert(kept.push(s.last())[j] == kept[j]);
                }
            }
        }
    }
}

/// After pruning at `now`, every entry left is running or started within
/// the retention period, and at most `max-records` of them have finished.
pub proof fn lemma_prune_respects_limits(s: Seq<EntryView>, config: HistoryConfig, now: u64)
    ensures
        finished_count(prune_spec(s, config, now).0) <= config.max_records,
        forall|j: int|
            0 <= j < prune_spec(s, config, now).0.len() ==> within_retention(
                #[trigger] prune_spec(s, config, now).0[j],
                cutoff_spec(now, config.retention_days),
            ),
{
    let cutoff = cutoff_spec(now, config.retention_days);
    let recent = retain_recent(s, cutoff).0;
    let k = excess(finished_count(recent), config.max_records);
    lemma_drop_count(recent, k);
    lemma_recent_within(s, cutoff);
    assert forall|j: int| 0 <= j < prune_spec(s, config, now).0.len() implies within_retention(
        #[trigger] prune_spec(s, config, now).0[j],
        cutoff,
    ) by {
        lemma_drop_subset(recent, k, j);
        let x = drop_oldest_finished(recent, k).0[j];
        let m = choose|m: int| 0 <= m < recent.len() && recent[m] == x;
        assert(within_retention(recent[m], cutoff));
    }
}

proof fn lemma_without_id_lacks(s: Seq<EntryView>, id: Seq<char>)
    ensures
        forall|j: int| 0 <= j < without_id(s, id).len() ==> (#[trigger] without_id(s, id)[j]).id != id,
    decreases s.len(),
{
    if s.len() > 0 {
        lemma_without_id_lacks(s.drop_last(), id);
    }
}

/// After an execution is recorded as started, looking its id up finds
/// exactly the entry just recorded, the newest one.
pub proof fn lemma_started_entry_found(
    s: Seq<EntryView>,
    id: Seq<char>,
    command_line: Seq<char>,
    server: Seq<char>,
    now: u64,
)
    ensures
        ({
            let t = without_id(s, id).push(started_entry(id, command_line, server, now));
            &&& first_position(t, id) == Some(t.len() - 1)
            &&& t[t.len() - 1] == started_entry(id, command_line, server, now)
        }),
{
    let w = without_id(s, id);
    let t = w.push(started_entry(id, command_line, server, now));
    lemma_without_id_lacks(s, id);
    assert forall|j: int| 0 <= j < t.len() - 1 implies t[j].id != id by {
        assert(t[j] == w[j]);
    }
    lemma_first_position(t, id, t.len() - 1);
}
} // verus!
