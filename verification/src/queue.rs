//! The download queue: states of a download and the rows of the queue table.

use vstd::prelude::*;

use crate::text::{chars_of, chars_eq, str_eq, str_le, lex_le, lemma_lex_total, lemma_lex_trans};

verus! {

/// Where a download stands.
#[derive(Debug, Clone, Copy, PartialEq, Eq, Structural)]
pub enum DownloadStatus {
    Queued,
    Scheduled,
    Active,
    Paused,
    Completed,
    Failed,
    Cancelled,
}

/// The text under which a status is stored.
pub open spec fn status_text(s: DownloadStatus) -> Seq<char> {
    match s {
        DownloadStatus::Queued => "queued"@,
        DownloadStatus::Scheduled => "scheduled"@,
        DownloadStatus::Active => "active"@,
        DownloadStatus::Paused => "paused"@,
        DownloadStatus::Completed => "completed"@,
        DownloadStatus::Failed => "failed"@,
        DownloadStatus::Cancelled => "cancelled"@,
    }
}

impl DownloadStatus {
    /// The stored text of this status.
    pub fn as_str(&self) -> (r: &'static str)
        ensures
            r@ == status_text(*self),
    {
        match self {
            DownloadStatus::Queued => "queued",
            DownloadStatus::Scheduled => "scheduled",
            DownloadStatus::Active => "active",
            DownloadStatus::Paused => "paused",
            DownloadStatus::Completed => "completed",
            DownloadStatus::Failed => "failed",
            DownloadStatus::Cancelled => "cancelled",
        }
    }
}

/// The status that a stored text stands for; any text that is not one of the
/// other six names reads as `Queued`.
pub open spec fn status_from_text(t: Seq<char>) -> DownloadStatus {
    if t == "scheduled"@ {
        DownloadStatus::Scheduled
    } else if t == "active"@ {
        DownloadStatus::Active
    } else if t == "paused"@ {
        DownloadStatus::Paused
    } else if t == "completed"@ {
        DownloadStatus::Completed
    } else if t == "failed"@ {
        DownloadStatus::Failed
    } else if t == "cancelled"@ {
        DownloadStatus::Cancelled
    } else {
        DownloadStatus::Queued
    }
}

impl DownloadStatus {
    /// Reads a stored status text back.
    pub fn from_str(s: &str) -> (r: Self)
        ensures
            r == status_from_text(s@),
    {
        let v = chars_of(s);
        if chars_eq(v.as_slice(), chars_of("scheduled").as_slice()) {
            DownloadStatus::Scheduled
        } else if chars_eq(v.as_slice(), chars_of("active").as_slice()) {
            DownloadStatus::Active
        } else if chars_eq(v.as_slice(), chars_of("paused").as_slice()) {
            DownloadStatus::Paused
        } else if chars_eq(v.as_slice(), chars_of("completed").as_slice()) {
            DownloadStatus::Completed
        } else if chars_eq(v.as_slice(), chars_of("failed").as_slice()) {
            DownloadStatus::Failed
        } else if chars_eq(v.as_slice(), chars_of("cancelled").as_slice()) {
            DownloadStatus::Cancelled
        } else {
            DownloadStatus::Queued
        }
    }
}

/// Reading back the stored text of a status gives that status again.
pub proof fn lemma_status_text_round_trip(s: DownloadStatus)
    ensures
        status_from_text(status_text(s)) == s,
{
    reveal_strlit("queued");
    reveal_strlit("scheduled");
    reveal_strlit("active");
    reveal_strlit("paused");
    reveal_strlit("completed");
    reveal_strlit("failed");
    reveal_strlit("cancelled");
    assert("queued"@[0] == 'q');
    assert("scheduled"@[0] == 's');
    assert("active"@[0] == 'a');
    assert("paused"@[0] == 'p');
    assert("completed"@[1] == 'o');
    assert("failed"@[0] == 'f');
    assert("cancelled"@[1] == 'a');
    assert("completed"@[0] == 'c');
    assert("cancelled"@[0] == 'c');
}

/// Options given when a download is added.
#[derive(Debug)]
pub struct DownloadOpts {
    pub threads: Option<u8>,
    pub scheduled_at: Option<String>,
    pub priority: u8,
}

/// One row of the download queue.
#[derive(Debug)]
pub struct QueuedDownload {
    pub id: String,
    pub url: String,
    pub filename: String,
    pub dest_path: String,
    pub status: DownloadStatus,
    pub priority: u8,
    pub threads: u8,
    pub scheduled_at: Option<String>,
    pub total_bytes: Option<u64>,
    pub bytes_done: u64,
    pub error_msg: Option<String>,
    pub created_at: String,
    pub updated_at: String,
}

/// A queue row as the contracts see it, its texts as character sequences.
pub struct DownloadRecord {
    pub id: Seq<char>,
    pub url: Seq<char>,
    pub filename: Seq<char>,
    pub dest_path: Seq<char>,
    pub status: DownloadStatus,
    pub priority: u8,
    pub threads: u8,
    pub scheduled_at: Option<Seq<char>>,
    pub total_bytes: Option<u64>,
    pub bytes_done: u64,
    pub error_msg: Option<Seq<char>>,
    pub created_at: Seq<char>,
    pub updated_at: Seq<char>,
}

/// The characters of an optional text.
pub open spec fn opt_text(o: Option<String>) -> Option<Seq<char>> {
    match o {
        Some(s) => Some(s@),
        None => None,
    }
}

impl View for QueuedDownload {
    type V = DownloadRecord;

    open spec fn view(&self) -> DownloadRecord {
        DownloadRecord {
            id: self.id@,
            url: self.url@,
            filename: self.filename@,
            dest_path: self.dest_path@,
            status: self.status,
            priority: self.priority,
            threads: self.threads,
            scheduled_at: opt_text(self.scheduled_at),
            total_bytes: self.total_bytes,
            bytes_done: self.bytes_done,
            error_msg: opt_text(self.error_msg),
            created_at: self.created_at@,
            updated_at: self.updated_at@,
        }
    }
}

/// The records of a sequence of rows.
pub open spec fn records(rows: Seq<QueuedDownload>) -> Seq<DownloadRecord> {
    rows.map_values(|r: QueuedDownload| r@)
}

/// No two records share an id (the table's primary key).
pub open spec fn ids_unique(t: Seq<DownloadRecord>) -> bool {
    forall|i: int, j: int| 0 <= i < j < t.len() ==> t[i].id != t[j].id
}

/// Whether some record has the given id.
pub open spec fn has_id(t: Seq<DownloadRecord>, id: Seq<char>) -> bool {
    exists|i: int| 0 <= i < t.len() && t[i].id == id
}

fn copy_text(s: &String) -> (r: String)
    ensures
        r@ == s@,
{
    s.clone()
}

fn copy_opt_text(o: &Option<String>) -> (r: Option<String>)
    ensures
        opt_text(r) == opt_text(*o),
{
    match o {
        Some(s) => Some(s.clone()),
        None => None,
    }
}

impl QueuedDownload {
    /// A copy of this row.
    pub fn duplicate(&self) -> (r: Self)
        ensures
            r@ == self@,
    {
        QueuedDownload {
            id: copy_text(&self.id),
            url: copy_text(&self.url),
            filename: copy_text(&self.filename),
            dest_path: copy_text(&self.dest_path),
            status: self.status,
            priority: self.priority,
            threads: self.threads,
            scheduled_at: copy_opt_text(&self.scheduled_at),
            total_bytes: self.total_bytes,
            bytes_done: self.bytes_done,
            error_msg: copy_opt_text(&self.error_msg),
            created_at: copy_text(&self.created_at),
            updated_at: copy_text(&self.updated_at),
        }
    }
}

/// Whether `a` is listed before `b` or together with it: higher priority
/// first, then the earlier creation time.
pub open spec fn sorts_before(a: DownloadRecord, b: DownloadRecord) -> bool {
    a.priority > b.priority || (a.priority == b.priority && lex_le(a.created_at, b.created_at))
}

/// A listing in queue order.
pub open spec fn queue_ordered(s: Seq<DownloadRecord>) -> bool {
    forall|i: int, j: int| 0 <= i < j < s.len() ==> sorts_before(s[i], s[j])
}

/// The order is total.
pub proof fn lemma_sorts_total(a: DownloadRecord, b: DownloadRecord)
    ensures
        sorts_before(a, b) || sorts_before(b, a),
{
    lemma_lex_total(a.created_at, b.created_at);
}

/// The order is transitive.
pub proof fn lemma_sorts_trans(a: DownloadRecord, b: DownloadRecord, c: DownloadRecord)
    requires
        sorts_before(a, b),
        sorts_before(b, c),
    ensures
        sorts_before(a, c),
{
    if a.priority == b.priority && b.priority == c.priority {
        lemma_lex_trans(a.created_at, b.created_at, c.created_at);
    }
}

/// Rows that the queue lists: every row that is not cancelled.
pub open spec fn listed(r: DownloadRecord) -> bool {
    r.status != DownloadStatus::Cancelled
}

/// Rows that are due: scheduled, with a start time at or before `now`.
pub open spec fn due(r: DownloadRecord, now: Seq<char>) -> bool {
    &&& r.status == DownloadStatus::Scheduled
    &&& r.scheduled_at matches Some(t)
    &&& lex_le(t, now)
}

/// The rows that are due by `now`, in table order.
pub open spec fn due_rows(t: Seq<DownloadRecord>, now: Seq<char>) -> Seq<DownloadRecord> {
    t.filter(|r: DownloadRecord| due(r, now))
}

enum Selection {
    Listed,
    DueBy(String),
}

spec fn selected(r: DownloadRecord, sel: Selection) -> bool {
    match sel {
        Selection::Listed => listed(r),
        Selection::DueBy(now) => due(r, now@),
    }
}

fn is_selected(r: &QueuedDownload, sel: &Selection) -> (b: bool)
    ensures
        b == selected(r@, *sel),
{
    match sel {
        Selection::Listed => r.status != DownloadStatus::Cancelled,
        Selection::DueBy(now) => {
            if r.status != DownloadStatus::Scheduled {
                return false;
            }
            match &r.scheduled_at {
                Some(t) => str_le(t.as_str(), now.as_str()),
                None => false,
            }
        },
    }
}

fn sorts_before_exec(a: &QueuedDownload, b: &QueuedDownload) -> (r: bool)
    ensures
        r == sorts_before(a@, b@),
{
    if a.priority != b.priority {
        a.priority > b.priority
    } else {
        str_le(a.created_at.as_str(), b.created_at.as_str())
    }
}

/// Puts `x` into an ordered listing after every row that sorts with it.
fn insert_ordered(out: &mut Vec<QueuedDownload>, x: QueuedDownload)
    requires
        queue_ordered(records(old(out)@)),
    ensures
        queue_ordered(records(final(out)@)),
        records(final(out)@).to_multiset() == records(old(out)@).to_multiset().insert(x@),
{
    let ghost s = records(out@);
    let mut p: usize = 0;
    while p < out.len()
        invariant
            p <= out.len(),
            s == records(out@),
            forall|k: int| 0 <= k < p ==> sorts_before(s[k], x@),
        ensures
            p <= out.len(),
            s == records(out@),
            forall|k: int| 0 <= k < p ==> sorts_before(s[k], x@),
            p < out.len() ==> sorts_before(x@, s[p as int]),
        decreases out.len() - p,
    {
        let before = sorts_before_exec(&x, &out[p]);
        let after = sorts_before_exec(&out[p], &x);
        if before && !after {
            break;
        }
        proof {
            lemma_sorts_total(s[p as int], x@);
        }
        p = p + 1;
    }
    let ghost xv = x@;
    proof {
        if p < out.len() {
            assert(sorts_before(xv, s[p as int]));
            assert forall|j: int| p <= j < s.len() implies sorts_before(xv, #[trigger] s[j]) by {
                if j > p {
                    lemma_sorts_trans(xv, s[p as int], s[j]);
                }
            }
        }
    }
    out.insert(p, x);
    let ghost t = records(out@);
    assert(t =~= s.insert(p as int, xv));
    assert forall|i: int, j: int| 0 <= i < j < t.len() implies sorts_before(t[i], t[j]) by {
        if j < p {
        } else if i < p && j == p {
        } else if i < p && j > p {
            lemma_sorts_trans(t[i], xv, t[j]);
        } else if i == p {
        } else {
        }
    }
    proof {
        broadcast use vstd::seq_lib::group_to_multiset_ensures;
        assert(s =~= s.take(p as int) + s.skip(p as int));
        assert(t =~= s.take(p as int) + (seq![xv] + s.skip(p as int)));
        vstd::seq_lib::lemma_multiset_commutative(s.take(p as int), s.skip(p as int));
        vstd::seq_lib::lemma_multiset_commutative(s.take(p as int), seq![xv] + s.skip(p as int));
        vstd::seq_lib::lemma_multiset_commutative(seq![xv], s.skip(p as int));
        assert(seq![xv] =~= Seq::<DownloadRecord>::empty().push(xv));
    }
}

/// The row that adding a download creates: the threads given or the default,
/// scheduled when a start time is given and queued otherwise, nothing done
/// yet, created and updated at `now`.
pub open spec fn new_record(
    id: Seq<char>,
    url: Seq<char>,
    filename: Seq<char>,
    dest_path: Seq<char>,
    threads: Option<u8>,
    scheduled_at: Option<Seq<char>>,
    priority: u8,
    default_threads: u8,
    now: Seq<char>,
) -> DownloadRecord {
    DownloadRecord {
        id,
        url,
        filename,
        dest_path,
        status: if scheduled_at is Some { DownloadStatus::Scheduled } else { DownloadStatus::Queued },
        priority,
        threads: match threads {
            Some(t) => t,
            None => default_threads,
        },
        scheduled_at,
        total_bytes: None,
        bytes_done: 0,
        error_msg: None,
        created_at: now,
        updated_at: now,
    }
}

/// chrono's `Utc::now()`, written in RFC 3339 form by `to_rfc3339`. The time
/// comes from the system clock, so nothing is stated of the text.
#[verifier::external_body]
pub(crate) fn utc_now_rfc3339() -> (now: String) {
    chrono::Utc::now().to_rfc3339()
}

/// uuid's `Uuid::new_v4()`, written by `to_string` in its hyphenated form,
/// which uuid always writes with 36 characters. Which id comes out is
/// random and not stated.
#[verifier::external_body]
fn new_download_id() -> (id: String)
    ensures
        id@.len() == 36,
{
    uuid::Uuid::new_v4().to_string()
}

/// A status set is read back: every row with the id has the new status and
/// the new time, and every other row is unchanged.
pub proof fn lemma_status_read_back(t: Seq<DownloadRecord>, id: Seq<char>, st: DownloadStatus, now: Seq<char>)
    ensures
        status_set(t, id, st, now).len() == t.len(),
        forall|i: int| 0 <= i < t.len() && t[i].id == id ==> (#[trigger] status_set(t, id, st, now)[i]).status == st
            && status_set(t, id, st, now)[i].updated_at == now,
        forall|i: int| 0 <= i < t.len() && t[i].id != id ==> #[trigger] status_set(t, id, st, now)[i] == t[i],
{
}

/// After a removal no row has the id, and every other row stays.
pub proof fn lemma_removed_is_gone(t: Seq<DownloadRecord>, id: Seq<char>)
    ensures
        forall|i: int| 0 <= i < without_id(t, id).len() ==> (#[trigger] without_id(t, id)[i]).id != id,
        forall|i: int| 0 <= i < t.len() && t[i].id != id ==> without_id(t, id).contains(#[trigger] t[i]),
{
    broadcast use vstd::seq_lib::group_filter_ensures;
}

/// Clearing the queue keeps exactly the active rows.
pub proof fn lemma_clear_keeps_active(t: Seq<DownloadRecord>)
    ensures
        forall|i: int| 0 <= i < kept_by_clear(t).len() ==> (#[trigger] kept_by_clear(t)[i]).status == DownloadStatus::Active,
        forall|i: int| 0 <= i < t.len() && t[i].status == DownloadStatus::Active ==> kept_by_clear(t).contains(#[trigger] t[i]),
{
    broadcast use vstd::seq_lib::group_filter_ensures;
}

/// After a reset no download is active; the ones that were are queued again.
pub proof fn lemma_reset_leaves_none_active(t: Seq<DownloadRecord>)
    ensures
        active_reset(t).len() == t.len(),
        forall|i: int| 0 <= i < t.len() ==> (#[trigger] active_reset(t)[i]).status != DownloadStatus::Active,
        forall|i: int| 0 <= i < t.len() && t[i].status == DownloadStatus::Active ==> (#[trigger] active_reset(t)[i]).status == DownloadStatus::Queued,
{
}

/// After scheduling every queued download none is left queued, and each of
/// them starts at the given time.
pub proof fn lemma_schedule_all_leaves_none_queued(t: Seq<DownloadRecord>, at: Seq<char>, now: Seq<char>)
    ensures
        queued_scheduled(t, at, now).len() == t.len(),
        forall|i: int| 0 <= i < t.len() ==> (#[trigger] queued_scheduled(t, at, now)[i]).status != DownloadStatus::Queued,
        forall|i: int| 0 <= i < t.len() && t[i].status == DownloadStatus::Queued
            ==> (#[trigger] queued_scheduled(t, at, now)[i]).scheduled_at == Some(at),
{
}

/// A listing that holds the same rows as the rows picked from a table holds
/// only rows of the table, and only picked ones.
pub proof fn lemma_listing_members(out: Seq<DownloadRecord>, t: Seq<DownloadRecord>, pick: spec_fn(DownloadRecord) -> bool)
    requires
        out.to_multiset() == t.filter(pick).to_multiset(),
    ensures
        forall|i: int| 0 <= i < out.len() ==> pick(#[trigger] out[i]) && t.contains(out[i]),
{
    broadcast use vstd::seq_lib::group_to_multiset_ensures;
    broadcast use vstd::seq_lib::group_filter_ensures;
    assert forall|i: int| 0 <= i < out.len() implies pick(#[trigger] out[i]) && t.contains(out[i]) by {
        assert(out.contains(out[i]));
        assert(t.filter(pick).to_multiset().count(out[i]) > 0);
        assert(t.filter(pick).contains(out[i]));
        let k = choose|k: int| 0 <= k < t.filter(pick).len() && t.filter(pick)[k] == out[i];
        t.lemma_filter_contains_rev(pick, out[i]);
    }
}

/// The queue lists every row that is not cancelled, as often as the table
/// holds it, and no cancelled row: counted as a multiset, the listing holds
/// a row as often as the table does unless that row is cancelled.
pub proof fn lemma_listing_is_all_but_cancelled(t: Seq<DownloadRecord>, r: DownloadRecord)
    ensures
        t.filter(|x: DownloadRecord| listed(x)).to_multiset().count(r)
            == if r.status == DownloadStatus::Cancelled { 0 } else { t.to_multiset().count(r) },
    decreases t.len(),
{
    broadcast use vstd::seq_lib::group_to_multiset_ensures;
    reveal(Seq::filter);
    let keep = |x: DownloadRecord| listed(x);
    if t.len() == 0 {
        assert(t.filter(keep) =~= Seq::<DownloadRecord>::empty());
    } else {
        let d = t.drop_last();
        lemma_listing_is_all_but_cancelled(d, r);
        assert(t =~= d.push(t.last()));
        if keep(t.last()) {
            assert(t.filter(keep) == d.filter(keep).push(t.last()));
        } else {
            assert(t.filter(keep) == d.filter(keep));
        }
    }
}

/// The downloads ready to start at `now` are exactly the scheduled rows
/// whose start time sorts at or before `now`, each as often as the table
/// holds it.
pub proof fn lemma_ready_are_scheduled_and_due(t: Seq<DownloadRecord>, now: Seq<char>, r: DownloadRecord)
    ensures
        due_rows(t, now).to_multiset().count(r) == if r.status == DownloadStatus::Scheduled && r.scheduled_at is Some
            && lex_le(r.scheduled_at->0, now) {
            t.to_multiset().count(r)
        } else {
            0
        },
    decreases t.len(),
{
    broadcast use vstd::seq_lib::group_to_multiset_ensures;
    reveal(Seq::filter);
    let keep = |x: DownloadRecord| due(x, now);
    if t.len() == 0 {
        assert(t.filter(keep) =~= Seq::<DownloadRecord>::empty());
    } else {
        let d = t.drop_last();
        lemma_ready_are_scheduled_and_due(d, now, r);
        assert(t =~= d.push(t.last()));
        if keep(t.last()) {
            assert(t.filter(keep) == d.filter(keep).push(t.last()));
        } else {
            assert(t.filter(keep) == d.filter(keep));
        }
    }
}

/// Why adding a download was refused.
#[derive(Debug, Clone, Copy, PartialEq, Eq, Structural)]
pub enum QueueError {
    /// A row with the same id is already in the table.
    DuplicateId,
}

/// The queue table: its rows, keyed by a unique id, in storage order.
pub struct DownloadTable {
    rows: Vec<QueuedDownload>,
}

impl View for DownloadTable {
    type V = Seq<DownloadRecord>;

    closed spec fn view(&self) -> Seq<DownloadRecord> {
        records(self.rows@)
    }
}

/// A row after `status_set` or the other edits below: fields replaced as given.
pub open spec fn with_status(r: DownloadRecord, st: DownloadStatus, now: Seq<char>) -> DownloadRecord {
    DownloadRecord { status: st, updated_at: now, ..r }
}

/// Every row with the id takes the status, stamped with `now`.
pub open spec fn status_set(t: Seq<DownloadRecord>, id: Seq<char>, st: DownloadStatus, now: Seq<char>) -> Seq<DownloadRecord> {
    t.map_values(|r: DownloadRecord| if r.id == id { with_status(r, st, now) } else { r })
}

/// Every row with the id records the bytes done and the total, stamped with `now`.
pub open spec fn progress_set(t: Seq<DownloadRecord>, id: Seq<char>, done: u64, total: Option<u64>, now: Seq<char>) -> Seq<DownloadRecord> {
    t.map_values(|r: DownloadRecord| if r.id == id {
        DownloadRecord { bytes_done: done, total_bytes: total, updated_at: now, ..r }
    } else {
        r
    })
}

/// Every row with the id fails with the message, stamped with `now`.
pub open spec fn failure_set(t: Seq<DownloadRecord>, id: Seq<char>, msg: Seq<char>, now: Seq<char>) -> Seq<DownloadRecord> {
    t.map_values(|r: DownloadRecord| if r.id == id {
        DownloadRecord { status: DownloadStatus::Failed, error_msg: Some(msg), updated_at: now, ..r }
    } else {
        r
    })
}

/// A row scheduled to start at `at`.
pub open spec fn scheduled_row(r: DownloadRecord, at: Seq<char>, now: Seq<char>) -> DownloadRecord {
    DownloadRecord { status: DownloadStatus::Scheduled, scheduled_at: Some(at), updated_at: now, ..r }
}

/// Every row with the id is scheduled to start at `at`.
pub open spec fn schedule_set(t: Seq<DownloadRecord>, id: Seq<char>, at: Seq<char>, now: Seq<char>) -> Seq<DownloadRecord> {
    t.map_values(|r: DownloadRecord| if r.id == id { scheduled_row(r, at, now) } else { r })
}

/// Every queued row is scheduled to start at `at`.
pub open spec fn queued_scheduled(t: Seq<DownloadRecord>, at: Seq<char>, now: Seq<char>) -> Seq<DownloadRecord> {
    t.map_values(|r: DownloadRecord| if r.status == DownloadStatus::Queued { scheduled_row(r, at, now) } else { r })
}

/// Every active row goes back to queued; nothing else changes.
pub open spec fn active_reset(t: Seq<DownloadRecord>) -> Seq<DownloadRecord> {
    t.map_values(|r: DownloadRecord| if r.status == DownloadStatus::Active {
        DownloadRecord { status: DownloadStatus::Queued, ..r }
    } else {
        r
    })
}

/// The rows with the given status, in table order.
pub open spec fn with_status_rows(t: Seq<DownloadRecord>, st: DownloadStatus) -> Seq<DownloadRecord> {
    t.filter(|r: DownloadRecord| r.status == st)
}

/// The rows without the id.
pub open spec fn without_id(t: Seq<DownloadRecord>, id: Seq<char>) -> Seq<DownloadRecord> {
    t.filter(|r: DownloadRecord| r.id != id)
}

/// The rows that clearing the queue keeps: the active ones.
pub open spec fn kept_by_clear(t: Seq<DownloadRecord>) -> Seq<DownloadRecord> {
    t.filter(|r: DownloadRecord| r.status == DownloadStatus::Active)
}

/// The destination paths of the rows that clearing the queue removes, in table order.
pub open spec fn cleared_paths(t: Seq<DownloadRecord>) -> Seq<Seq<char>> {
    t.filter(|r: DownloadRecord| r.status != DownloadStatus::Active).map_values(|r: DownloadRecord| r.dest_path)
}

/// Keeping some rows keeps the ids unique.
pub proof fn lemma_filter_keeps_unique(t: Seq<DownloadRecord>, keep: spec_fn(DownloadRecord) -> bool)
    requires
        ids_unique(t),
    ensures
        ids_unique(t.filter(keep)),
    decreases t.len(),
{
    reveal(Seq::filter);
    if t.len() > 0 {
        let u = t.drop_last();
        assert(ids_unique(u));
        lemma_filter_keeps_unique(u, keep);
        let f = u.filter(keep);
        if keep(t.last()) {
            let g = f.push(t.last());
            assert(t.filter(keep) == g);
            assert forall|a: int, b: int| 0 <= a < b < g.len() implies g[a].id != g[b].id by {
                if b == f.len() {
                    assert(f.contains(f[a]));
                    u.lemma_filter_contains_rev(keep, f[a]);
                    let k = choose|k: int| 0 <= k < u.len() && u[k] == f[a];
                    assert(t[k] == u[k]);
                    assert(t[t.len() - 1] == t.last());
                }
            }
        }
    }
}

enum RowEdit {
    Status(String, DownloadStatus, String),
    Progress(String, u64, Option<u64>, String),
    Fail(String, String, String),
    Schedule(String, String, String),
    ScheduleQueued(String, String),
    ResetActive,
}

spec fn edit_applies(r: DownloadRecord, e: RowEdit) -> bool {
    match e {
        RowEdit::Status(id, _, _) => r.id == id@,
        RowEdit::Progress(id, _, _, _) => r.id == id@,
        RowEdit::Fail(id, _, _) => r.id == id@,
        RowEdit::Schedule(id, _, _) => r.id == id@,
        RowEdit::ScheduleQueued(_, _) => r.status == DownloadStatus::Queued,
        RowEdit::ResetActive => r.status == DownloadStatus::Active,
    }
}

spec fn edit_result(r: DownloadRecord, e: RowEdit) -> DownloadRecord {
    match e {
        RowEdit::Status(_, st, now) => with_status(r, st, now@),
        RowEdit::Progress(_, done, total, now) => DownloadRecord {
            bytes_done: done,
            total_bytes: total,
            updated_at: now@,
            ..r
        },
        RowEdit::Fail(_, msg, now) => DownloadRecord {
            status: DownloadStatus::Failed,
            error_msg: Some(msg@),
            updated_at: now@,
            ..r
        },
        RowEdit::Schedule(_, at, now) => scheduled_row(r, at@, now@),
        RowEdit::ScheduleQueued(at, now) => scheduled_row(r, at@, now@),
        RowEdit::ResetActive => DownloadRecord { status: DownloadStatus::Queued, ..r },
    }
}

spec fn edited(t: Seq<DownloadRecord>, e: RowEdit) -> Seq<DownloadRecord> {
    t.map_values(|r: DownloadRecord| if edit_applies(r, e) { edit_result(r, e) } else { r })
}

fn edit_applies_exec(r: &QueuedDownload, e: &RowEdit) -> (b: bool)
    ensures
        b == edit_applies(r@, *e),
{
    match e {
        RowEdit::Status(id, _, _) => str_eq(r.id.as_str(), id.as_str()),
        RowEdit::Progress(id, _, _, _) => str_eq(r.id.as_str(), id.as_str()),
        RowEdit::Fail(id, _, _) => str_eq(r.id.as_str(), id.as_str()),
        RowEdit::Schedule(id, _, _) => str_eq(r.id.as_str(), id.as_str()),
        RowEdit::ScheduleQueued(_, _) => r.status == DownloadStatus::Queued,
        RowEdit::ResetActive => r.status == DownloadStatus::Active,
    }
}

fn edited_row(r: &QueuedDownload, e: &RowEdit) -> (out: QueuedDownload)
    ensures
        out@ == (if edit_applies(r@, *e) { edit_result(r@, *e) } else { r@ }),
{
    let mut out = r.duplicate();
    if edit_applies_exec(r, e) {
        match e {
            RowEdit::Status(_, st, now) => {
                out.status = *st;
                out.updated_at = copy_text(now);
            },
            RowEdit::Progress(_, done, total, now) => {
                out.bytes_done = *done;
                out.total_bytes = *total;
                out.updated_at = copy_text(now);
            },
            RowEdit::Fail(_, msg, now) => {
                out.status = DownloadStatus::Failed;
                out.error_msg = Some(copy_text(msg));
                out.updated_at = copy_text(now);
            },
            RowEdit::Schedule(_, at, now) => {
                out.status = DownloadStatus::Scheduled;
                out.scheduled_at = Some(copy_text(at));
                out.updated_at = copy_text(now);
            },
            RowEdit::ScheduleQueued(at, now) => {
                out.status = DownloadStatus::Scheduled;
                out.scheduled_at = Some(copy_text(at));
                out.updated_at = copy_text(now);
            },
            RowEdit::ResetActive => {
                out.status = DownloadStatus::Queued;
            },
        }
    }
    out
}

impl DownloadTable {
    #[verifier::type_invariant]
    spec fn keys_unique(self) -> bool {
        ids_unique(records(self.rows@))
    }

    /// An empty table.
    pub fn new() -> (t: Self)
        ensures
            t@ == Seq::<DownloadRecord>::empty(),
    {
        let t = DownloadTable { rows: Vec::new() };
        assert(t@ =~= Seq::<DownloadRecord>::empty());
        t
    }

    /// A table holding the given rows, in their order; `None` when two of
    /// them share an id.
    pub fn from_rows(rows: Vec<QueuedDownload>) -> (t: Option<Self>)
        ensures
            t is Some <==> ids_unique(records(rows@)),
            t matches Some(t) ==> t@ == records(rows@),
    {
        let n = rows.len();
        let mut i: usize = 0;
        while i < n
            invariant
                n == rows.len(),
                i <= n,
                forall|a: int, b: int| 0 <= a < b < i ==> records(rows@)[a].id != records(rows@)[b].id,
            decreases n - i,
        {
            let mut j: usize = 0;
            while j < i
                invariant
                    n == rows.len(),
                    i < n,
                    j <= i,
                    forall|a: int| 0 <= a < j ==> records(rows@)[a].id != records(rows@)[i as int].id,
                decreases i - j,
            {
                if str_eq(rows[j].id.as_str(), rows[i].id.as_str()) {
                    assert(!ids_unique(records(rows@))) by {
                        assert(records(rows@)[j as int].id == records(rows@)[i as int].id);
                    }
                    return None;
                }
                j = j + 1;
            }
            i = i + 1;
        }
        Some(DownloadTable { rows })
    }

    /// Copies of all rows, in storage order.
    pub fn rows(&self) -> (out: Vec<QueuedDownload>)
        ensures
            records(out@) == self@,
            ids_unique(self@),
    {
        proof {
            use_type_invariant(self);
        }
        let mut out: Vec<QueuedDownload> = Vec::new();
        let n = self.rows.len();
        let mut i: usize = 0;
        while i < n
            invariant
                n == self.rows.len(),
                i <= n,
                records(out@) == records(self.rows@).take(i as int),
            decreases n - i,
        {
            let d = self.rows[i].duplicate();
            let ghost prev = out@;
            out.push(d);
            assert(records(out@) =~= records(prev).push(d@));
            i = i + 1;
            assert(records(out@) =~= records(self.rows@).take(i as int));
        }
        assert(records(self.rows@).take(n as int) =~= records(self.rows@));
        out
    }

    /// Number of rows with the given status.
    pub fn count_status(&self, status: DownloadStatus) -> (n: usize)
        ensures
            n == with_status_rows(self@, status).len(),
    {
        let ghost t = self@;
        let ghost pick = |r: DownloadRecord| r.status == status;
        let n = self.rows.len();
        let mut c: usize = 0;
        let mut i: usize = 0;
        proof {
            reveal(Seq::filter);
            assert(t.take(0) =~= Seq::<DownloadRecord>::empty());
        }
        while i < n
            invariant
                n == self.rows.len(),
                t == records(self.rows@),
                i <= n,
                pick == (|r: DownloadRecord| r.status == status),
                c == t.take(i as int).filter(pick).len(),
                c <= i,
            decreases n - i,
        {
            proof {
                reveal(Seq::filter);
            }
            assert(t.take(i + 1).drop_last() =~= t.take(i as int));
            assert(t.take(i + 1).last() == t[i as int]);
            assert(t[i as int] == self.rows@[i as int]@);
            if self.rows[i].status == status {
                c = c + 1;
            }
            i = i + 1;
        }
        assert(t.take(n as int) =~= t);
        c
    }

    /// Number of rows.
    pub fn len(&self) -> (n: usize)
        ensures
            n == self@.len(),
    {
        self.rows.len()
    }

    fn apply_edit(&mut self, e: RowEdit)
        ensures
            final(self)@ == edited(old(self)@, e),
    {
        proof {
            use_type_invariant(&*self);
        }
        let ghost t = self@;
        let n = self.rows.len();
        let mut out: Vec<QueuedDownload> = Vec::new();
        let mut i: usize = 0;
        while i < n
            invariant
                n == self.rows.len(),
                t == records(self.rows@),
                i <= n,
                records(out@) == edited(t, e).take(i as int),
            decreases n - i,
        {
            let r = edited_row(&self.rows[i], &e);
            assert(r@ == edited(t, e)[i as int]);
            let ghost prev = out@;
            out.push(r);
            assert(records(out@) =~= records(prev).push(r@));
            i = i + 1;
            assert(records(out@) =~= edited(t, e).take(i as int));
        }
        assert(edited(t, e).take(n as int) =~= edited(t, e));
        assert(ids_unique(records(out@))) by {
            assert forall|a: int, b: int| 0 <= a < b < records(out@).len() implies records(out@)[a].id != records(out@)[b].id by {
                assert(records(out@)[a].id == t[a].id);
                assert(records(out@)[b].id == t[b].id);
            }
        }
        self.rows = out;
    }

    /// Sets the status of the download with the id, stamping it with `now`.
    pub fn update_status_at(&mut self, id: &str, status: DownloadStatus, now: &str)
        ensures
            final(self)@ == status_set(old(self)@, id@, status, now@),
    {
        let e = RowEdit::Status(id.to_owned(), status, now.to_owned());
        self.apply_edit(e);
        assert(final(self)@ =~= status_set(old(self)@, id@, status, now@));
    }

    /// Records how far the download with the id has come, stamping it with `now`.
    pub fn update_progress_at(&mut self, id: &str, bytes_done: u64, total_bytes: Option<u64>, now: &str)
        ensures
            final(self)@ == progress_set(old(self)@, id@, bytes_done, total_bytes, now@),
    {
        let e = RowEdit::Progress(id.to_owned(), bytes_done, total_bytes, now.to_owned());
        self.apply_edit(e);
        assert(final(self)@ =~= progress_set(old(self)@, id@, bytes_done, total_bytes, now@));
    }

    /// Marks the download with the id failed with the message, stamping it with `now`.
    pub fn set_error_at(&mut self, id: &str, msg: &str, now: &str)
        ensures
            final(self)@ == failure_set(old(self)@, id@, msg@, now@),
    {
        let e = RowEdit::Fail(id.to_owned(), msg.to_owned(), now.to_owned());
        self.apply_edit(e);
        assert(final(self)@ =~= failure_set(old(self)@, id@, msg@, now@));
    }

    /// Schedules the download with the id to start at `at`, stamping it with `now`.
    pub fn schedule_at(&mut self, id: &str, at: &str, now: &str)
        ensures
            final(self)@ == schedule_set(old(self)@, id@, at@, now@),
    {
        let e = RowEdit::Schedule(id.to_owned(), at.to_owned(), now.to_owned());
        self.apply_edit(e);
        assert(final(self)@ =~= schedule_set(old(self)@, id@, at@, now@));
    }

    /// Schedules every queued download to start at `at`, stamping them with `now`.
    pub fn schedule_all_queued_at(&mut self, at: &str, now: &str)
        ensures
            final(self)@ == queued_scheduled(old(self)@, at@, now@),
    {
        let e = RowEdit::ScheduleQueued(at.to_owned(), now.to_owned());
        self.apply_edit(e);
        assert(final(self)@ =~= queued_scheduled(old(self)@, at@, now@));
    }

    fn select_ordered(&self, sel: Selection) -> (out: Vec<QueuedDownload>)
        ensures
            queue_ordered(records(out@)),
            records(out@).to_multiset() == self@.filter(|r: DownloadRecord| selected(r, sel)).to_multiset(),
    {
        let ghost t = self@;
        let ghost pick = |r: DownloadRecord| selected(r, sel);
        let n = self.rows.len();
        let mut out: Vec<QueuedDownload> = Vec::new();
        let mut i: usize = 0;
        proof {
            reveal(Seq::filter);
            assert(records(out@) =~= Seq::<DownloadRecord>::empty());
            assert(t.take(0) =~= Seq::<DownloadRecord>::empty());
            assert(records(out@) == t.take(0).filter(pick));
        }
        while i < n
            invariant
                n == self.rows.len(),
                t == records(self.rows@),
                i <= n,
                pick == (|r: DownloadRecord| selected(r, sel)),
                queue_ordered(records(out@)),
                records(out@).to_multiset() == t.take(i as int).filter(pick).to_multiset(),
            decreases n - i,
        {
            proof {
                reveal(Seq::filter);
                broadcast use vstd::seq_lib::group_to_multiset_ensures;
            }
            assert(t.take(i + 1).drop_last() =~= t.take(i as int));
            assert(t.take(i + 1).last() == t[i as int]);
            assert(t[i as int] == self.rows@[i as int]@);
            if is_selected(&self.rows[i], &sel) {
                let d = self.rows[i].duplicate();
                insert_ordered(&mut out, d);
                assert(t.take(i + 1).filter(pick) == t.take(i as int).filter(pick).push(t[i as int]));
            }
            i = i + 1;
        }
        assert(t.take(n as int) =~= t);
        out
    }

    /// The downloads that the queue lists (all but the cancelled ones), by
    /// priority, highest first, then by creation time, earliest first.
    pub fn get_all(&self) -> (out: Vec<QueuedDownload>)
        ensures
            queue_ordered(records(out@)),
            records(out@).to_multiset() == self@.filter(|r: DownloadRecord| listed(r)).to_multiset(),
    {
        let out = self.select_ordered(Selection::Listed);
        assert(self@.filter(|r: DownloadRecord| selected(r, Selection::Listed)) =~= self@.filter(|r: DownloadRecord| listed(r))) by {
            assert((|r: DownloadRecord| selected(r, Selection::Listed)) =~= (|r: DownloadRecord| listed(r)));
        }
        out
    }

    /// The scheduled downloads whose start time is at or before `now`, in
    /// queue order.
    pub fn get_queued_ready_at(&self, now: &str) -> (out: Vec<QueuedDownload>)
        ensures
            queue_ordered(records(out@)),
            records(out@).to_multiset() == due_rows(self@, now@).to_multiset(),
    {
        let sel = Selection::DueBy(now.to_owned());
        let ghost g = sel;
        let out = self.select_ordered(sel);
        assert(self@.filter(|r: DownloadRecord| selected(r, g)) =~= self@.filter(|r: DownloadRecord| due(r, now@))) by {
            assert((|r: DownloadRecord| selected(r, g)) =~= (|r: DownloadRecord| due(r, now@)));
        }
        out
    }

    /// Adds a download under the given id, created and updated at `now`;
    /// refused when the id is already in the table.
    pub fn enqueue_with(
        &mut self,
        id: &str,
        now: &str,
        url: String,
        filename: String,
        dest_path: String,
        opts: DownloadOpts,
        default_threads: u8,
    ) -> (res: Result<QueuedDownload, QueueError>)
        ensures
            match res {
                Ok(d) => {
                    &&& !has_id(old(self)@, id@)
                    &&& d@ == new_record(id@, url@, filename@, dest_path@, opts.threads,
                        opt_text(opts.scheduled_at), opts.priority, default_threads, now@)
                    &&& final(self)@ == old(self)@.push(d@)
                },
                Err(e) => e == QueueError::DuplicateId && has_id(old(self)@, id@) && final(self)@ == old(self)@,
            },
    {
        proof {
            use_type_invariant(&*self);
        }
        let n = self.rows.len();
        let mut i: usize = 0;
        while i < n
            invariant
                n == self.rows.len(),
                i <= n,
                forall|k: int| 0 <= k < i ==> self@[k].id != id@,
            decreases n - i,
        {
            if str_eq(self.rows[i].id.as_str(), id) {
                assert(self@[i as int].id == id@);
                return Err(QueueError::DuplicateId);
            }
            i = i + 1;
        }
        let threads = match opts.threads {
            Some(t) => t,
            None => default_threads,
        };
        let status = if opts.scheduled_at.is_some() {
            DownloadStatus::Scheduled
        } else {
            DownloadStatus::Queued
        };
        let d = QueuedDownload {
            id: id.to_owned(),
            url,
            filename,
            dest_path,
            status,
            priority: opts.priority,
            threads,
            scheduled_at: opts.scheduled_at,
            total_bytes: None,
            bytes_done: 0,
            error_msg: None,
            created_at: now.to_owned(),
            updated_at: now.to_owned(),
        };
        let copy = d.duplicate();
        let ghost prev = self.rows@;
        assert(ids_unique(records(prev.push(d)))) by {
            let q = records(prev.push(d));
            assert(q =~= records(prev).push(d@));
            assert forall|a: int, b: int| 0 <= a < b < q.len() implies q[a].id != q[b].id by {
                if b == prev.len() {
                    assert(q[a] == self@[a]);
                }
            }
        }
        let mut rows: Vec<QueuedDownload> = Vec::new();
        std::mem::swap(&mut rows, &mut self.rows);
        rows.push(d);
        self.rows = rows;
        assert(self@ =~= old(self)@.push(copy@));
        Ok(copy)
    }

    /// Adds a download under a fresh random id, created now.
    pub fn enqueue(
        &mut self,
        url: String,
        filename: String,
        dest_path: String,
        opts: DownloadOpts,
        default_threads: u8,
    ) -> (res: Result<QueuedDownload, QueueError>)
        ensures
            match res {
                Ok(d) => {
                    &&& d@.id.len() == 36
                    &&& !has_id(old(self)@, d@.id)
                    &&& d@ == new_record(d@.id, url@, filename@, dest_path@, opts.threads,
                        opt_text(opts.scheduled_at), opts.priority, default_threads, d@.created_at)
                    &&& final(self)@ == old(self)@.push(d@)
                },
                Err(e) => {
                    &&& e == QueueError::DuplicateId
                    &&& final(self)@ == old(self)@
                    &&& exists|id: Seq<char>| id.len() == 36 && #[trigger] has_id(old(self)@, id)
                },
            },
    {
        let id = new_download_id();
        let now = utc_now_rfc3339();
        let res = self.enqueue_with(id.as_str(), now.as_str(), url, filename, dest_path, opts, default_threads);
        proof {
            if res is Err {
                assert(id@.len() == 36 && has_id(old(self)@, id@));
            }
        }
        res
    }

    /// Sets the status of the download with the id, stamped with the current time.
    pub fn update_status(&mut self, id: &str, status: DownloadStatus)
        ensures
            exists|now: Seq<char>| final(self)@ == status_set(old(self)@, id@, status, now),
    {
        let now = utc_now_rfc3339();
        self.update_status_at(id, status, now.as_str());
    }

    /// Records progress of the download with the id, stamped with the current time.
    pub fn update_progress(&mut self, id: &str, bytes_done: u64, total_bytes: Option<u64>)
        ensures
            exists|now: Seq<char>| final(self)@ == progress_set(old(self)@, id@, bytes_done, total_bytes, now),
    {
        let now = utc_now_rfc3339();
        self.update_progress_at(id, bytes_done, total_bytes, now.as_str());
    }

    /// Marks the download with the id failed, stamped with the current time.
    pub fn set_error(&mut self, id: &str, msg: &str)
        ensures
            exists|now: Seq<char>| final(self)@ == failure_set(old(self)@, id@, msg@, now),
    {
        let now = utc_now_rfc3339();
        self.set_error_at(id, msg, now.as_str());
    }

    /// Schedules the download with the id to start at `at`, stamped with the current time.
    pub fn schedule(&mut self, id: &str, at: &str)
        ensures
            exists|now: Seq<char>| final(self)@ == schedule_set(old(self)@, id@, at@, now),
    {
        let now = utc_now_rfc3339();
        self.schedule_at(id, at, now.as_str());
    }

    /// Schedules every queued download to start at `at`, stamped with the current time.
    pub fn schedule_all_queued(&mut self, at: &str)
        ensures
            exists|now: Seq<char>| final(self)@ == queued_scheduled(old(self)@, at@, now),
    {
        let now = utc_now_rfc3339();
        self.schedule_all_queued_at(at, now.as_str());
    }

    /// The scheduled downloads that are due by the current time, in queue order.
    pub fn get_queued_ready(&self) -> (out: Vec<QueuedDownload>)
        ensures
            queue_ordered(records(out@)),
            exists|now: Seq<char>| records(out@).to_multiset() == #[trigger] due_rows(self@, now).to_multiset(),
    {
        let now = utc_now_rfc3339();
        self.get_queued_ready_at(now.as_str())
    }

    /// Removes the download with the id.
    pub fn remove(&mut self, id: &str)
        ensures
            final(self)@ == without_id(old(self)@, id@),
    {
        proof {
            use_type_invariant(&*self);
        }
        let ghost t = self@;
        let ghost keep = |r: DownloadRecord| r.id != id@;
        let n = self.rows.len();
        let mut out: Vec<QueuedDownload> = Vec::new();
        let mut i: usize = 0;
        while i < n
            invariant
                n == self.rows.len(),
                t == records(self.rows@),
                i <= n,
                keep == (|r: DownloadRecord| r.id != id@),
                records(out@) == t.take(i as int).filter(keep),
            decreases n - i,
        {
            proof {
                reveal(Seq::filter);
            }
            assert(t.take(i + 1).drop_last() =~= t.take(i as int));
            assert(t.take(i + 1).last() == t[i as int]);
            assert(t[i as int] == self.rows@[i as int]@);
            if !str_eq(self.rows[i].id.as_str(), id) {
                let d = self.rows[i].duplicate();
                let ghost prev = out@;
                out.push(d);
                assert(records(out@) =~= records(prev).push(d@));
            }
            i = i + 1;
        }
        assert(t.take(n as int) =~= t);
        proof {
            lemma_filter_keeps_unique(t, keep);
        }
        self.rows = out;
    }

    /// Removes every download that is not active and returns their
    /// destination paths, in table order.
    pub fn clear_queue(&mut self) -> (paths: Vec<String>)
        ensures
            final(self)@ == kept_by_clear(old(self)@),
            paths@.map_values(|p: String| p@) == cleared_paths(old(self)@),
    {
        proof {
            use_type_invariant(&*self);
        }
        let ghost t = self@;
        let ghost keep = |r: DownloadRecord| r.status == DownloadStatus::Active;
        let ghost gone = |r: DownloadRecord| r.status != DownloadStatus::Active;
        let n = self.rows.len();
        let mut out: Vec<QueuedDownload> = Vec::new();
        let mut paths: Vec<String> = Vec::new();
        let mut i: usize = 0;
        while i < n
            invariant
                n == self.rows.len(),
                t == records(self.rows@),
                i <= n,
                keep == (|r: DownloadRecord| r.status == DownloadStatus::Active),
                gone == (|r: DownloadRecord| r.status != DownloadStatus::Active),
                records(out@) == t.take(i as int).filter(keep),
                paths@.map_values(|p: String| p@) == t.take(i as int).filter(gone).map_values(|r: DownloadRecord| r.dest_path),
            decreases n - i,
        {
            proof {
                reveal(Seq::filter);
            }
            assert(t.take(i + 1).drop_last() =~= t.take(i as int));
            assert(t.take(i + 1).last() == t[i as int]);
            assert(t[i as int] == self.rows@[i as int]@);
            if self.rows[i].status == DownloadStatus::Active {
                let d = self.rows[i].duplicate();
                let ghost prev = out@;
                out.push(d);
                assert(records(out@) =~= records(prev).push(d@));
            } else {
                let p = copy_text(&self.rows[i].dest_path);
                let ghost prev = paths@;
                paths.push(p);
                assert(paths@.map_values(|p: String| p@) =~= prev.map_values(|p: String| p@).push(p@));
                assert(t.take(i + 1).filter(gone) == t.take(i as int).filter(gone).push(t[i as int]));
                assert(t.take(i + 1).filter(gone).map_values(|r: DownloadRecord| r.dest_path)
                    =~= t.take(i as int).filter(gone).map_values(|r: DownloadRecord| r.dest_path).push(t[i as int].dest_path));
            }
            i = i + 1;
        }
        assert(t.take(n as int) =~= t);
        proof {
            lemma_filter_keeps_unique(t, keep);
        }
        self.rows = out;
        paths
    }

    /// Puts every active download back in the queue.
    pub fn reset_active_to_queued(&mut self)
        ensures
            final(self)@ == active_reset(old(self)@),
    {
        self.apply_edit(RowEdit::ResetActive);
        assert(final(self)@ =~= active_reset(old(self)@));
    }
}

} // verus!
