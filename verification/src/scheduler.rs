//! The scheduler's tick: quiet hours, and which due downloads start.

use vstd::prelude::*;

use crate::queue::{
    ids_unique, with_status_rows,
    DownloadRecord, DownloadStatus, DownloadTable, QueuedDownload, due, due_rows, queue_ordered, records,
    utc_now_rfc3339, with_status,
};
use crate::settings::AppSettings;
use crate::text::{lex_le, push_char, str_le};
use crate::ui::digit;

verus! {

/// The clock text `HH:MM` of a time of day, both parts with two digits.
pub open spec fn clock_text(hour: nat, minute: nat) -> Seq<char> {
    seq![digit(hour / 10), digit(hour % 10), ':', digit(minute / 10), digit(minute % 10)]
}

/// Whether the clock text `current` falls in the window from `start` up to
/// (not including) `end`; a window whose start sorts after its end runs over
/// midnight. Texts compare as strings do.
pub open spec fn in_window(start: Seq<char>, end: Seq<char>, current: Seq<char>) -> bool {
    if lex_le(start, end) {
        lex_le(start, current) && !lex_le(end, current)
    } else {
        lex_le(start, current) || !lex_le(end, current)
    }
}

/// Whether the settings' quiet hours cover the time of day; without a start
/// or an end there are none.
pub open spec fn quiet_at(start: Option<String>, end: Option<String>, hour: nat, minute: nat) -> bool {
    match (start, end) {
        (Some(s), Some(e)) => in_window(s@, e@, clock_text(hour, minute)),
        _ => false,
    }
}

fn digit2(d: u32) -> (c: char)
    requires
        d < 10,
    ensures
        c == digit(d as nat),
{
    match d {
        0 => '0',
        1 => '1',
        2 => '2',
        3 => '3',
        4 => '4',
        5 => '5',
        6 => '6',
        7 => '7',
        8 => '8',
        _ => '9',
    }
}

/// The time of day as `HH:MM`.
pub fn clock_string(hour: u32, minute: u32) -> (s: String)
    requires
        hour < 24,
        minute < 60,
    ensures
        s@ == clock_text(hour as nat, minute as nat),
{
    let mut s = String::new();
    push_char(&mut s, digit2(hour / 10));
    push_char(&mut s, digit2(hour % 10));
    push_char(&mut s, ':');
    push_char(&mut s, digit2(minute / 10));
    push_char(&mut s, digit2(minute % 10));
    assert(s@ =~= clock_text(hour as nat, minute as nat));
    s
}

/// Whether the quiet hours of the settings cover the given time of day.
pub fn in_quiet_hours_at(s: &AppSettings, hour: u32, minute: u32) -> (q: bool)
    requires
        hour < 24,
        minute < 60,
    ensures
        q == quiet_at(s.quiet_hours_start, s.quiet_hours_end, hour as nat, minute as nat),
{
    let start = match &s.quiet_hours_start {
        Some(x) => x,
        None => return false,
    };
    let end = match &s.quiet_hours_end {
        Some(x) => x,
        None => return false,
    };
    let current = clock_string(hour, minute);
    if str_le(start.as_str(), end.as_str()) {
        str_le(start.as_str(), current.as_str()) && !str_le(end.as_str(), current.as_str())
    } else {
        str_le(start.as_str(), current.as_str()) || !str_le(end.as_str(), current.as_str())
    }
}

/// chrono's `Local::now()`, read through `Timelike::hour` and
/// `Timelike::minute`, which chrono documents as 0 to 23 and 0 to 59. Which
/// time it is depends on the clock and is not stated.
#[verifier::external_body]
fn local_hour_minute() -> (t: (u32, u32))
    ensures
        t.0 < 24,
        t.1 < 60,
{
    let now = chrono::Local::now();
    (chrono::Timelike::hour(&now), chrono::Timelike::minute(&now))
}

/// Whether the quiet hours of the settings cover the current local time.
pub fn in_quiet_hours(s: &AppSettings) -> (q: bool)
    ensures
        exists|h: nat, m: nat| h < 24 && m < 60 && q == #[trigger] quiet_at(s.quiet_hours_start, s.quiet_hours_end, h, m),
{
    let (h, m) = local_hour_minute();
    in_quiet_hours_at(s, h, m)
}

/// How many more downloads may run: the limit less those running, never below zero.
pub open spec fn free_slots(max: u8, running: nat) -> nat {
    if running >= max {
        0
    } else {
        (max - running) as nat
    }
}

/// The rows with every row whose id is listed set active at `now`.
pub open spec fn activated(t: Seq<DownloadRecord>, ids: Seq<Seq<char>>, now: Seq<char>) -> Seq<DownloadRecord> {
    t.map_values(|r: DownloadRecord| if ids.contains(r.id) { with_status(r, DownloadStatus::Active, now) } else { r })
}

/// The ids of some rows, in order.
pub open spec fn ids_of(rows: Seq<DownloadRecord>) -> Seq<Seq<char>> {
    rows.map_values(|r: DownloadRecord| r.id)
}

/// `l` lists the rows due by `now` in queue order.
pub open spec fn due_listing(t: Seq<DownloadRecord>, now: Seq<char>, l: Seq<DownloadRecord>) -> bool {
    queue_ordered(l) && l.to_multiset() == due_rows(t, now).to_multiset()
}

/// How many downloads a tick starts: as many due downloads as there are free slots.
pub open spec fn start_count(t: Seq<DownloadRecord>, max: u8, now: Seq<char>) -> nat {
    let free = free_slots(max, crate::queue::with_status_rows(t, DownloadStatus::Active).len());
    let due = due_rows(t, now).len();
    if free < due {
        free
    } else {
        due
    }
}

/// What one tick of the scheduler does to the table `t` at local time
/// `hour:minute` and UTC time `now`, given the downloads it started: nothing
/// during quiet hours; otherwise it starts the first due downloads in queue
/// order, as many as there are free slots.
pub open spec fn tick_result(
    t: Seq<DownloadRecord>,
    quiet_enabled: bool,
    start: Option<String>,
    end: Option<String>,
    max: u8,
    hour: nat,
    minute: nat,
    now: Seq<char>,
    started: Seq<DownloadRecord>,
    after: Seq<DownloadRecord>,
) -> bool {
    if quiet_enabled && quiet_at(start, end, hour, minute) {
        started.len() == 0 && after == t
    } else {
        &&& exists|l: Seq<DownloadRecord>| #[trigger] due_listing(t, now, l) && started == l.take(start_count(t, max, now) as int)
        &&& after == activated(t, ids_of(started), now)
    }
}

/// One tick of the scheduler at local time `hour:minute` and UTC time `now`;
/// returns the downloads it started, as they were before.
pub fn tick_at(table: &mut DownloadTable, settings: &AppSettings, hour: u32, minute: u32, now: &str) -> (started: Vec<QueuedDownload>)
    requires
        hour < 24,
        minute < 60,
    ensures
        tick_result(old(table)@, settings.quiet_hours_enabled, settings.quiet_hours_start,
            settings.quiet_hours_end, settings.max_concurrent_downloads, hour as nat, minute as nat,
            now@, records(started@), final(table)@),
{
    let ghost t = table@;
    let mut started: Vec<QueuedDownload> = Vec::new();
    if settings.quiet_hours_enabled && in_quiet_hours_at(settings, hour, minute) {
        assert(records(started@) =~= Seq::<DownloadRecord>::empty());
        return started;
    }
    let ready = table.get_queued_ready_at(now);
    let running = table.count_status(DownloadStatus::Active);
    let slots = (settings.max_concurrent_downloads as usize).saturating_sub(running);
    let ghost l = records(ready@);
    proof {
        broadcast use vstd::seq_lib::group_to_multiset_ensures;
        assert(l.len() == l.to_multiset().len());
        assert(due_rows(t, now@).len() == due_rows(t, now@).to_multiset().len());
        assert(due_listing(t, now@, l));
    }
    let k = if slots < ready.len() { slots } else { ready.len() };
    assert(k == start_count(t, settings.max_concurrent_downloads, now@));
    let mut i: usize = 0;
    assert(records(started@) =~= l.take(0));
    assert(activated(t, ids_of(l.take(0)), now@) =~= t);
    while i < k
        invariant
            k <= ready.len(),
            l == records(ready@),
            i <= k,
            records(started@) == l.take(i as int),
            table@ == activated(t, ids_of(l.take(i as int)), now@),
        decreases k - i,
    {
        let ghost before = table@;
        table.update_status_at(ready[i].id.as_str(), DownloadStatus::Active, now);
        let d = ready[i].duplicate();
        let ghost prev = started@;
        started.push(d);
        assert(records(started@) =~= records(prev).push(d@));
        i = i + 1;
        assert(records(started@) =~= l.take(i as int));
        assert(ids_of(l.take(i as int)) =~= ids_of(l.take(i - 1)).push(l[i - 1].id));
        assert(table@ =~= activated(t, ids_of(l.take(i as int)), now@)) by {
            assert forall|j: int| 0 <= j < t.len() implies #[trigger] table@[j] == activated(t, ids_of(l.take(i as int)), now@)[j] by {
                let ids = ids_of(l.take(i - 1));
                let ids2 = ids_of(l.take(i as int));
                assert(ids2.contains(t[j].id) == (ids.contains(t[j].id) || t[j].id == l[i - 1].id)) by {
                    if ids2.contains(t[j].id) && !ids.contains(t[j].id) {
                        let a = choose|a: int| 0 <= a < ids2.len() && ids2[a] == t[j].id;
                        if a < ids.len() {
                            assert(ids[a] == ids2[a]);
                        }
                    }
                    if ids.contains(t[j].id) {
                        let a = choose|a: int| 0 <= a < ids.len() && ids[a] == t[j].id;
                        assert(ids2[a] == ids[a]);
                    }
                    if t[j].id == l[i - 1].id {
                        assert(ids2[i - 1] == l[i - 1].id);
                    }
                }
                assert(before[j].id == t[j].id);
            }
        }
    }
    started
}

/// How many rows have an id in `s`.
pub open spec fn count_in(t: Seq<DownloadRecord>, s: Set<Seq<char>>) -> nat
    decreases t.len(),
{
    if t.len() == 0 {
        0
    } else {
        count_in(t.drop_last(), s) + if s.contains(t.last().id) { 1nat } else { 0nat }
    }
}

proof fn lemma_count_in_absent(t: Seq<DownloadRecord>, s: Set<Seq<char>>, x: Seq<char>)
    requires
        forall|j: int| 0 <= j < t.len() ==> t[j].id != x,
    ensures
        count_in(t, s) == count_in(t, s.remove(x)),
    decreases t.len(),
{
    if t.len() > 0 {
        lemma_count_in_absent(t.drop_last(), s, x);
    }
}

proof fn lemma_count_in_bound(t: Seq<DownloadRecord>, s: Set<Seq<char>>)
    requires
        ids_unique(t),
        s.finite(),
    ensures
        count_in(t, s) <= s.len(),
    decreases t.len(),
{
    if t.len() > 0 {
        let d = t.drop_last();
        let x = t.last().id;
        assert(ids_unique(d));
        if s.contains(x) {
            assert forall|j: int| 0 <= j < d.len() implies d[j].id != x by {
                assert(t[j] == d[j]);
                assert(t[t.len() - 1] == t.last());
            }
            lemma_count_in_absent(d, s, x);
            lemma_count_in_bound(d, s.remove(x));
        } else {
            lemma_count_in_bound(d, s);
        }
    }
}

proof fn lemma_activation_count(t: Seq<DownloadRecord>, ids: Seq<Seq<char>>, now: Seq<char>)
    ensures
        with_status_rows(activated(t, ids, now), DownloadStatus::Active).len()
            <= with_status_rows(t, DownloadStatus::Active).len() + count_in(t, ids.to_set()),
    decreases t.len(),
{
    reveal(Seq::filter);
    if t.len() > 0 {
        let d = t.drop_last();
        lemma_activation_count(d, ids, now);
        assert(activated(t, ids, now).drop_last() =~= activated(d, ids, now));
        assert(activated(t, ids, now).last() == activated(t, ids, now)[t.len() - 1]);
        assert(t.last() == t[t.len() - 1]);
    }
}

/// A tick never lets more downloads run than the settings allow: when at
/// most `max` run before it, at most `max` run after it.
pub proof fn lemma_tick_respects_limit(
    t: Seq<DownloadRecord>,
    quiet_enabled: bool,
    start: Option<String>,
    end: Option<String>,
    max: u8,
    hour: nat,
    minute: nat,
    now: Seq<char>,
    started: Seq<DownloadRecord>,
    after: Seq<DownloadRecord>,
)
    requires
        ids_unique(t),
        tick_result(t, quiet_enabled, start, end, max, hour, minute, now, started, after),
        with_status_rows(t, DownloadStatus::Active).len() <= max,
    ensures
        with_status_rows(after, DownloadStatus::Active).len() <= max,
{
    if !(quiet_enabled && quiet_at(start, end, hour, minute)) {
        let l = choose|l: Seq<DownloadRecord>| #[trigger] due_listing(t, now, l) && started == l.take(start_count(t, max, now) as int);
        broadcast use vstd::seq_lib::group_to_multiset_ensures;
        assert(l.len() == l.to_multiset().len());
        assert(due_rows(t, now).len() == due_rows(t, now).to_multiset().len());
        let ids = ids_of(started);
        lemma_activation_count(t, ids, now);
        vstd::seq_lib::seq_to_set_is_finite(ids);
        lemma_count_in_bound(t, ids.to_set());
        ids.lemma_cardinality_of_set();
    }
}

/// Outside quiet hours a tick starts as many downloads as the limit leaves
/// beside the running (active) ones, or all due ones when fewer are due:
/// rows in other states, such as paused ones, take no slot. During quiet
/// hours it starts none and leaves the table as it was.
pub proof fn lemma_tick_start_count(
    t: Seq<DownloadRecord>,
    quiet_enabled: bool,
    start: Option<String>,
    end: Option<String>,
    max: u8,
    hour: nat,
    minute: nat,
    now: Seq<char>,
    started: Seq<DownloadRecord>,
    after: Seq<DownloadRecord>,
)
    requires
        tick_result(t, quiet_enabled, start, end, max, hour, minute, now, started, after),
    ensures
        quiet_enabled && quiet_at(start, end, hour, minute) ==> started.len() == 0 && after == t,
        !(quiet_enabled && quiet_at(start, end, hour, minute)) ==> ({
            let active = t.filter(|r: DownloadRecord| r.status == DownloadStatus::Active).len();
            let due = t.filter(|r: DownloadRecord| r.status == DownloadStatus::Scheduled
                && r.scheduled_at is Some && lex_le(r.scheduled_at->0, now)).len();
            &&& active >= max ==> started.len() == 0
            &&& active < max && max - active <= due ==> started.len() == max - active
            &&& active < max && due < max - active ==> started.len() == due
        }),
{
    if !(quiet_enabled && quiet_at(start, end, hour, minute)) {
        let l = choose|l: Seq<DownloadRecord>| #[trigger] due_listing(t, now, l) && started == l.take(start_count(t, max, now) as int);
        broadcast use vstd::seq_lib::group_to_multiset_ensures;
        assert(l.len() == l.to_multiset().len());
        assert(due_rows(t, now).len() == due_rows(t, now).to_multiset().len());
        let a1 = |r: DownloadRecord| r.status == DownloadStatus::Active;
        let d1 = |r: DownloadRecord| due(r, now);
        let d2 = |r: DownloadRecord| r.status == DownloadStatus::Scheduled && r.scheduled_at is Some
            && lex_le(r.scheduled_at->0, now);
        assert(d1 =~= d2);
        assert(with_status_rows(t, DownloadStatus::Active) == t.filter(a1));
        assert(due_rows(t, now) == t.filter(d2));
    }
}

/// One tick of the scheduler at the current local and UTC time; returns the
/// downloads it started.
pub fn tick(table: &mut DownloadTable, settings: &AppSettings) -> (started: Vec<QueuedDownload>)
    ensures
        exists|h: nat, m: nat, now: Seq<char>| h < 24 && m < 60 && #[trigger] tick_result(old(table)@,
            settings.quiet_hours_enabled, settings.quiet_hours_start, settings.quiet_hours_end,
            settings.max_concurrent_downloads, h, m, now, records(started@), final(table)@),
{
    let (h, m) = local_hour_minute();
    let now = utc_now_rfc3339();
    tick_at(table, settings, h, m, now.as_str())
}

} // verus!
