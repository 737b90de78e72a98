//! What the client shows: sizes in human units, the links pasted by the user,
//! release tags, and the state that the client's events move through.

use vstd::prelude::*;

use crate::api::{RdDownload, RdUser, StreamInfo, Torrent, TorrentAddResult, UnrestrictedLink};
use crate::engine::{DownloadEvent, ProgressEvent};
use crate::queue::{DownloadStatus, QueuedDownload};
use crate::text::{
    chars_of, joined, lemma_split_joined, lex_le, push_char, split_chars, split_on, str_eq, str_le, strip_all,
    strip_all_chars, string_from_chars, trim, trim_chars,
};
use crate::webdav::WebDavStatus;

verus! {

/// `a / b` rounded to the nearest integer, ties to the even neighbour: the
/// rounding of std's fixed-precision float formatting.
pub open spec fn round_half_even(a: nat, b: nat) -> nat
    recommends
        b > 0,
{
    let q = a / b;
    let r = a % b;
    if 2 * r > b || (2 * r == b && q % 2 == 1) {
        q + 1
    } else {
        q
    }
}

/// The value of `n` as an `f64` after it has been scaled down by `d`, kept to
/// 53 significant bits: `n` rounded to a multiple of the smallest power of two
/// `d` (starting at the given one) for which `n / d` has at most 53 bits.
pub open spec fn f64_scaled(n: nat, d: nat) -> nat
    decreases n - d,
    when d > 0
{
    if n / d < 0x20_0000_0000_0000 || d >= n {
        round_half_even(n, d) * d
    } else {
        proof {
            lemma_quotient_bound(n, d);
        }
        f64_scaled(n, 2 * d)
    }
}

/// The value that `n as f64` holds: `n` itself below 2^53, else `n` rounded to
/// 53 significant bits, ties to even.
pub open spec fn f64_value(n: nat) -> nat {
    f64_scaled(n, 1)
}

/// The decimal digit for `d < 10`.
pub open spec fn digit(d: nat) -> char {
    ((d + 48) as u32) as char
}

/// The decimal text of `n`, without leading zeros.
pub open spec fn decimal(n: nat) -> Seq<char>
    decreases n,
{
    if n < 10 {
        seq![digit(n)]
    } else {
        decimal(n / 10) + seq![digit(n % 10)]
    }
}

/// A byte count in the largest unit it reaches: gigabytes with two decimals,
/// megabytes with one, kilobytes with none, else bytes (units of 1024).
pub open spec fn bytes_text(b: nat) -> Seq<char> {
    if b >= 1_073_741_824 {
        let q = round_half_even(f64_value(b) * 100, 1_073_741_824);
        decimal(q / 100) + seq!['.', digit((q / 10) % 10), digit(q % 10)] + " GB"@
    } else if b >= 1_048_576 {
        let q = round_half_even(b * 10, 1_048_576);
        decimal(q / 10) + seq!['.', digit(q % 10)] + " MB"@
    } else if b >= 1024 {
        decimal(round_half_even(b, 1024)) + " KB"@
    } else {
        decimal(b) + " B"@
    }
}

/// Appends the decimal text of `n`.
pub fn push_decimal(out: &mut String, n: u128)
    ensures
        final(out)@ == old(out)@ + decimal(n as nat),
    decreases n,
{
    if n >= 10 {
        push_decimal(out, n / 10);
    }
    let d = n % 10;
    let c = digit_char(d);
    push_char(out, c);
    assert(final(out)@ =~= old(out)@ + decimal(n as nat));
}

fn digit_char(d: u128) -> (c: char)
    requires
        d < 10,
    ensures
        c == digit(d as nat),
{
    match d {
        0 => '0',
        1 => '1',
        2 => '2',
        3 => '3',
        4 => '4',
        5 => '5',
        6 => '6',
        7 => '7',
        8 => '8',
        _ => '9',
    }
}

fn round_half_even_exec(a: u128, b: u128) -> (r: u128)
    requires
        b > 0,
        a < 0x1_0000_0000_0000_0000_0000_0000,
    ensures
        r == round_half_even(a as nat, b as nat),
{
    let q = a / b;
    let rem = a % b;
    assert(q <= a) by (nonlinear_arith)
        requires
            b > 0,
            q == a / b,
    ;
    if rem > b - rem || (rem == b - rem && q % 2 == 1) {
        q + 1
    } else {
        q
    }
}

/// A quotient of at least 2^53 bounds the divisor.
pub proof fn lemma_quotient_bound(n: nat, d: nat)
    requires
        d > 0,
        n / d >= 0x20_0000_0000_0000,
    ensures
        d * 0x20_0000_0000_0000 <= n,
{
    assert(d * (n / d) <= n) by (nonlinear_arith)
        requires
            d > 0,
    ;
    assert(d * 0x20_0000_0000_0000 <= d * (n / d)) by (nonlinear_arith)
        requires
            n / d >= 0x20_0000_0000_0000,
            d > 0,
    ;
}

proof fn lemma_round_bound(a: nat, b: nat)
    requires
        b > 0,
    ensures
        round_half_even(a, b) * b <= a + b,
{
    assert((a / b) * b <= a) by (nonlinear_arith)
        requires
            b > 0,
    ;
    assert((a / b + 1) * b == (a / b) * b + b) by (nonlinear_arith);
}

/// `n as f64`, held exactly as an integer.
fn f64_value_exec(n: u64) -> (v: u128)
    ensures
        v == f64_value(n as nat),
        v <= n + 0x1000,
{
    let nn = n as u128;
    let mut d: u128 = 1;
    while nn / d >= 0x20_0000_0000_0000 && d < nn
        invariant
            d > 0,
            d <= 0x1000,
            nn == n as u128,
            f64_scaled(nn as nat, 1) == f64_scaled(nn as nat, d as nat),
        decreases nn - d,
    {
        proof {
            lemma_quotient_bound(nn as nat, d as nat);
        }
        d = d * 2;
    }
    let r = round_half_even_exec(nn, d);
    proof {
        lemma_round_bound(nn as nat, d as nat);
    }
    r * d
}

/// Rounding gives the nearest multiple: off by at most half of `b`.
pub proof fn lemma_round_nearest(a: nat, b: nat)
    requires
        b > 0,
    ensures
        2 * round_half_even(a, b) * b <= 2 * a + b,
        2 * a <= 2 * round_half_even(a, b) * b + b,
{
    let q = a / b;
    let r = a % b;
    assert(a == q * b + r && 0 <= r < b) by (nonlinear_arith)
        requires
            b > 0,
            q == a / b,
            r == a % b,
    ;
    assert((q + 1) * b == q * b + b) by (nonlinear_arith);
    assert(2 * (q + 1) * b == 2 * ((q + 1) * b)) by (nonlinear_arith);
    assert(2 * q * b == 2 * (q * b)) by (nonlinear_arith);
}

/// Sizes are shown in the largest unit of 1024 they reach: plain bytes
/// below 1024; below 1024 * 1024 whole kilobytes, the nearest to the size;
/// below 1024^3 megabytes with one decimal, the nearest tenth; gigabytes
/// with two decimals above.
pub proof fn lemma_bytes_text_units(b: nat)
    ensures
        b < 1024 ==> bytes_text(b) == decimal(b) + " B"@,
        1024 <= b < 1_048_576 ==> exists|k: nat| #[trigger] decimal(k) + " KB"@ == bytes_text(b)
            && 2 * k * 1024 <= 2 * b + 1024 && 2 * b <= 2 * k * 1024 + 1024,
        1_048_576 <= b < 1_073_741_824 ==> exists|w: nat, f: nat|
            #![trigger decimal(w), digit(f)]
            f < 10 && decimal(w) + seq!['.', digit(f)] + " MB"@ == bytes_text(b)
            && 2 * (10 * w + f) * 1_048_576 <= 20 * b + 1_048_576 && 20 * b <= 2 * (10 * w + f) * 1_048_576 + 1_048_576,
        1_073_741_824 <= b ==> exists|w: nat, f: nat, g: nat|
            #![trigger decimal(w), digit(f), digit(g)]
            f < 10 && g < 10 && decimal(w) + seq!['.', digit(f), digit(g)] + " GB"@ == bytes_text(b),
{
    if 1024 <= b < 1_048_576 {
        lemma_round_nearest(b, 1024);
        let k = round_half_even(b, 1024);
        assert(decimal(k) + " KB"@ == bytes_text(b));
    } else if 1_048_576 <= b < 1_073_741_824 {
        lemma_round_nearest(b * 10, 1_048_576);
        let q = round_half_even(b * 10, 1_048_576);
        let w = q / 10;
        let f = q % 10;
        assert(q == 10 * w + f);
        assert(decimal(w) + seq!['.', digit(f)] + " MB"@ == bytes_text(b));
    } else if 1_073_741_824 <= b {
        let q = round_half_even(f64_value(b) * 100, 1_073_741_824);
        let w = q / 100;
        let f = (q / 10) % 10;
        let g = q % 10;
        assert(decimal(w) + seq!['.', digit(f), digit(g)] + " GB"@ == bytes_text(b));
    }
}

/// A byte count in human units, as the client shows sizes.
pub fn format_bytes(bytes: u64) -> (s: String)
    ensures
        s@ == bytes_text(bytes as nat),
{
    let mut out = String::new();
    if bytes >= 1_073_741_824 {
        let v = f64_value_exec(bytes);
        let q = round_half_even_exec(v * 100, 1_073_741_824);
        push_decimal(&mut out, q / 100);
        push_char(&mut out, '.');
        push_char(&mut out, digit_char((q / 10) % 10));
        push_char(&mut out, digit_char(q % 10));
        push_char(&mut out, ' ');
        push_char(&mut out, 'G');
        push_char(&mut out, 'B');
        proof {
            reveal_strlit(" GB");
        }
        assert(out@ =~= bytes_text(bytes as nat));
    } else if bytes >= 1_048_576 {
        let q = round_half_even_exec(bytes as u128 * 10, 1_048_576);
        push_decimal(&mut out, q / 10);
        push_char(&mut out, '.');
        push_char(&mut out, digit_char(q % 10));
        push_char(&mut out, ' ');
        push_char(&mut out, 'M');
        push_char(&mut out, 'B');
        proof {
            reveal_strlit(" MB");
        }
        assert(out@ =~= bytes_text(bytes as nat));
    } else if bytes >= 1024 {
        let q = round_half_even_exec(bytes as u128, 1024);
        push_decimal(&mut out, q);
        push_char(&mut out, ' ');
        push_char(&mut out, 'K');
        push_char(&mut out, 'B');
        proof {
            reveal_strlit(" KB");
        }
        assert(out@ =~= bytes_text(bytes as nat));
    } else {
        push_decimal(&mut out, bytes as u128);
        push_char(&mut out, ' ');
        push_char(&mut out, 'B');
        proof {
            reveal_strlit(" B");
        }
        assert(out@ =~= bytes_text(bytes as nat));
    }
    out
}

/// What finished in the background and is reported to the client.
#[derive(Debug)]
pub enum AppEvent {
    LoginDone(Result<RdUser, String>),
    UserRefreshed(Result<RdUser, String>),
    LinksUnrestricted(Result<Vec<UnrestrictedLink>, String>),
    TorrentAdded(Result<TorrentAddResult, String>),
    TorrentsLoaded(Result<Vec<Torrent>, String>),
    RdDownloadsLoaded(Result<Vec<RdDownload>, String>),
    StreamInfoLoaded(Result<StreamInfo, String>),
    QueueRefreshed(Vec<QueuedDownload>),
    SettingsSaved(Result<(), String>),
    WebDavStatus(WebDavStatus),
    WebDavDone(Result<String, String>),
    UpdateAvailable(Option<String>),
}

/// Work that handling an event asks the client to start.
#[derive(Debug, Clone, Copy, PartialEq, Eq, Structural)]
pub enum UiAction {
    RefreshQueue,
    LoadTorrents,
    LoadWebDavStatus,
}

/// What the client shows and waits for.
#[derive(Debug)]
pub struct UiState {
    pub logged_in: bool,
    pub login_loading: bool,
    pub login_error: Option<String>,
    pub user: Option<RdUser>,
    pub update_available: Option<String>,
    pub dl_results: Vec<UnrestrictedLink>,
    pub dl_loading: bool,
    pub dl_error: Option<String>,
    pub torrent_magnet: String,
    pub torrents: Vec<Torrent>,
    pub torrents_loading: bool,
    pub torrent_error: Option<String>,
    pub rd_downloads: Vec<RdDownload>,
    pub stream_info: Option<StreamInfo>,
    pub stream_loading: bool,
    pub stream_error: Option<String>,
    pub queue: Vec<QueuedDownload>,
    pub dl_progress: Vec<ProgressEvent>,
    pub settings_saving: bool,
    pub settings_saved: bool,
    pub webdav_status: Option<WebDavStatus>,
    pub webdav_busy: bool,
    pub webdav_msg: Option<String>,
    pub webdav_err: Option<String>,
}

/// The state after an event, with the action the event asks for. Only the
/// fields named change; a torrent added empties the magnet field.
pub open spec fn event_step(old: UiState, ev: AppEvent, new: UiState, act: Option<UiAction>) -> bool {
    match ev {
        AppEvent::LoginDone(Ok(u)) => new == UiState {
            user: Some(u),
            logged_in: true,
            login_loading: false,
            login_error: None,
            ..old
        } && act == Some(UiAction::RefreshQueue),
        AppEvent::LoginDone(Err(e)) => new == UiState { login_error: Some(e), login_loading: false, ..old }
            && act is None,
        AppEvent::UserRefreshed(Ok(u)) => new == UiState { user: Some(u), ..old } && act is None,
        AppEvent::UserRefreshed(Err(_)) => new == old && act is None,
        AppEvent::LinksUnrestricted(Ok(links)) => new == UiState {
            dl_results: links,
            dl_loading: false,
            dl_error: None,
            ..old
        } && act is None,
        AppEvent::LinksUnrestricted(Err(e)) => new == UiState { dl_error: Some(e), dl_loading: false, ..old }
            && act is None,
        AppEvent::TorrentAdded(Ok(_)) => new == UiState {
            torrent_error: None,
            torrent_magnet: new.torrent_magnet,
            ..old
        } && new.torrent_magnet@.len() == 0 && act == Some(UiAction::LoadTorrents),
        AppEvent::TorrentAdded(Err(e)) => new == UiState { torrent_error: Some(e), ..old } && act is None,
        AppEvent::TorrentsLoaded(Ok(list)) => new == UiState { torrents: list, torrents_loading: false, ..old }
            && act is None,
        AppEvent::TorrentsLoaded(Err(e)) => new == UiState {
            torrent_error: Some(e),
            torrents_loading: false,
            ..old
        } && act is None,
        AppEvent::RdDownloadsLoaded(Ok(list)) => new == UiState { rd_downloads: list, ..old } && act is None,
        AppEvent::RdDownloadsLoaded(Err(_)) => new == old && act is None,
        AppEvent::StreamInfoLoaded(Ok(info)) => new == UiState {
            stream_info: Some(info),
            stream_loading: false,
            stream_error: None,
            ..old
        } && act is None,
        AppEvent::StreamInfoLoaded(Err(e)) => new == UiState {
            stream_error: Some(e),
            stream_loading: false,
            ..old
        } && act is None,
        AppEvent::QueueRefreshed(items) => new == UiState { queue: items, ..old } && act is None,
        AppEvent::SettingsSaved(Ok(())) => new == UiState {
            settings_saving: false,
            settings_saved: true,
            ..old
        } && act is None,
        AppEvent::SettingsSaved(Err(_)) => new == UiState { settings_saving: false, ..old } && act is None,
        AppEvent::WebDavStatus(st) => new == UiState { webdav_status: Some(st), webdav_busy: false, ..old }
            && act is None,
        AppEvent::WebDavDone(Ok(msg)) => new == UiState {
            webdav_msg: Some(msg),
            webdav_err: None,
            webdav_busy: false,
            ..old
        } && act == Some(UiAction::LoadWebDavStatus),
        AppEvent::WebDavDone(Err(e)) => new == UiState {
            webdav_err: Some(e),
            webdav_msg: None,
            webdav_busy: false,
            ..old
        } && act is None,
        AppEvent::UpdateAvailable(v) => new == UiState { update_available: v, ..old } && act is None,
    }
}

/// The progress reports without those of the download `id`.
pub open spec fn progress_without(p: Seq<ProgressEvent>, id: Seq<char>) -> Seq<ProgressEvent> {
    p.filter(|q: ProgressEvent| q.id@ != id)
}

/// The state after a report of the engine: a progress report replaces the
/// last one of its download; a finished or failed download loses its report
/// and asks for the queue to be read again.
pub open spec fn download_step(old: UiState, ev: DownloadEvent, new: UiState, act: Option<UiAction>) -> bool {
    match ev {
        DownloadEvent::Progress(p) => new == UiState {
            dl_progress: new.dl_progress,
            ..old
        } && new.dl_progress@ == progress_without(old.dl_progress@, p.id@).push(p) && act is None,
        DownloadEvent::Complete(c) => new == UiState {
            dl_progress: new.dl_progress,
            ..old
        } && new.dl_progress@ == progress_without(old.dl_progress@, c.id@) && act == Some(UiAction::RefreshQueue),
        DownloadEvent::Error(e) => new == UiState {
            dl_progress: new.dl_progress,
            ..old
        } && new.dl_progress@ == progress_without(old.dl_progress@, e.id@) && act == Some(UiAction::RefreshQueue),
    }
}

fn drop_progress(v: &mut Vec<ProgressEvent>, id: &str)
    ensures
        final(v)@ == progress_without(old(v)@, id@),
{
    let ghost o = old(v)@;
    let ghost keep = |q: ProgressEvent| q.id@ != id@;
    let mut i: usize = v.len();
    proof {
        reveal(Seq::filter);
        assert(o.skip(o.len() as int) =~= Seq::<ProgressEvent>::empty());
        assert(o.take(o.len() as int) =~= o);
        assert(v@ =~= o.take(i as int) + o.skip(i as int).filter(keep));
    }
    while i > 0
        invariant
            i <= o.len(),
            keep == (|q: ProgressEvent| q.id@ != id@),
            v@ == o.take(i as int) + o.skip(i as int).filter(keep),
        decreases i,
    {
        proof {
            reveal(Seq::filter);
        }
        let j = i - 1;
        assert(v@[j as int] == o[j as int]);
        let ghost tail = o.skip(i as int).filter(keep);
        let ghost s = o.skip(j as int);
        assert(s.drop_first() =~= o.skip(i as int));
        proof {
            lemma_filter_cons(s, keep);
        }
        if str_eq(v[j].id.as_str(), id) {
            v.remove(j);
            assert(v@ =~= o.take(j as int) + o.skip(j as int).filter(keep));
        } else {
            assert(v@ =~= o.take(j as int) + o.skip(j as int).filter(keep));
        }
        i = j;
    }
    assert(o.skip(0) =~= o);
    assert(v@ =~= o.filter(keep));
}

/// Filtering a sequence filters its first element, then the rest.
pub proof fn lemma_filter_cons<A>(s: Seq<A>, keep: spec_fn(A) -> bool)
    requires
        s.len() > 0,
    ensures
        s.filter(keep) == (if keep(s[0]) { seq![s[0]] + s.drop_first().filter(keep) } else { s.drop_first().filter(keep) }),
    decreases s.len(),
{
    reveal(Seq::filter);
    if s.len() == 1 {
        assert(s.drop_first() =~= Seq::<A>::empty());
        assert(s.drop_last() =~= Seq::<A>::empty());
        assert(s.drop_first().filter(keep) =~= Seq::<A>::empty());
        if keep(s[0]) {
            assert(s.filter(keep) =~= seq![s[0]]);
        }
    } else {
        let d = s.drop_last();
        lemma_filter_cons(d, keep);
        assert(d.drop_first() =~= s.drop_first().drop_last());
        assert(s.drop_first().last() == s.last());
        if keep(s[0]) {
            assert(seq![s[0]] + d.drop_first().filter(keep).push(s.last()) =~= (seq![s[0]] + d.drop_first().filter(keep)).push(s.last()));
        }
    }
}

impl UiState {
    /// The state the client starts in: logged in when a token is stored,
    /// nothing loaded and nothing pending.
    pub fn new(logged_in: bool) -> (s: Self)
        ensures
            s.logged_in == logged_in,
            !s.login_loading && s.login_error is None && s.user is None && s.update_available is None,
            s.dl_results@.len() == 0 && !s.dl_loading && s.dl_error is None,
            s.torrent_magnet@.len() == 0 && s.torrents@.len() == 0 && !s.torrents_loading && s.torrent_error is None,
            s.rd_downloads@.len() == 0 && s.stream_info is None && !s.stream_loading && s.stream_error is None,
            s.queue@.len() == 0 && s.dl_progress@.len() == 0,
            !s.settings_saving && !s.settings_saved,
            s.webdav_status is None && !s.webdav_busy && s.webdav_msg is None && s.webdav_err is None,
    {
        UiState {
            logged_in,
            login_loading: false,
            login_error: None,
            user: None,
            update_available: None,
            dl_results: Vec::new(),
            dl_loading: false,
            dl_error: None,
            torrent_magnet: String::new(),
            torrents: Vec::new(),
            torrents_loading: false,
            torrent_error: None,
            rd_downloads: Vec::new(),
            stream_info: None,
            stream_loading: false,
            stream_error: None,
            queue: Vec::new(),
            dl_progress: Vec::new(),
            settings_saving: false,
            settings_saved: false,
            webdav_status: None,
            webdav_busy: false,
            webdav_msg: None,
            webdav_err: None,
        }
    }

    /// Applies a finished background job to the state.
    #[verifier::rlimit(60)]
    #[verifier::spinoff_prover]
    pub fn apply_event(&mut self, ev: AppEvent) -> (act: Option<UiAction>)
        ensures
            event_step(*old(self), ev, *final(self), act),
    {
        match ev {
            AppEvent::LoginDone(Ok(u)) => {
                self.user = Some(u);
                self.logged_in = true;
                self.login_loading = false;
                self.login_error = None;
                Some(UiAction::RefreshQueue)
            },
            AppEvent::LoginDone(Err(e)) => {
                self.login_error = Some(e);
                self.login_loading = false;
                None
            },
            AppEvent::UserRefreshed(Ok(u)) => {
                self.user = Some(u);
                None
            },
            AppEvent::UserRefreshed(Err(_)) => None,
            AppEvent::LinksUnrestricted(Ok(links)) => {
                self.dl_results = links;
                self.dl_loading = false;
                self.dl_error = None;
                None
            },
            AppEvent::LinksUnrestricted(Err(e)) => {
                self.dl_error = Some(e);
                self.dl_loading = false;
                None
            },
            AppEvent::TorrentAdded(Ok(_)) => {
                self.torrent_error = None;
                self.torrent_magnet = String::new();
                Some(UiAction::LoadTorrents)
            },
            AppEvent::TorrentAdded(Err(e)) => {
                self.torrent_error = Some(e);
                None
            },
            AppEvent::TorrentsLoaded(Ok(list)) => {
                self.torrents = list;
                self.torrents_loading = false;
                None
            },
            AppEvent::TorrentsLoaded(Err(e)) => {
                self.torrent_error = Some(e);
                self.torrents_loading = false;
                None
            },
            AppEvent::RdDownloadsLoaded(Ok(list)) => {
                self.rd_downloads = list;
                None
            },
            AppEvent::RdDownloadsLoaded(Err(_)) => None,
            AppEvent::StreamInfoLoaded(Ok(info)) => {
                self.stream_info = Some(info);
                self.stream_loading = false;
                self.stream_error = None;
                None
            },
            AppEvent::StreamInfoLoaded(Err(e)) => {
                self.stream_error = Some(e);
                self.stream_loading = false;
                None
            },
            AppEvent::QueueRefreshed(items) => {
                self.queue = items;
                None
            },
            AppEvent::SettingsSaved(Ok(())) => {
                self.settings_saving = false;
                self.settings_saved = true;
                None
            },
            AppEvent::SettingsSaved(Err(_)) => {
                self.settings_saving = false;
                None
            },
            AppEvent::WebDavStatus(st) => {
                self.webdav_status = Some(st);
                self.webdav_busy = false;
                None
            },
            AppEvent::WebDavDone(Ok(msg)) => {
                self.webdav_msg = Some(msg);
                self.webdav_err = None;
                self.webdav_busy = false;
                Some(UiAction::LoadWebDavStatus)
            },
            AppEvent::WebDavDone(Err(e)) => {
                self.webdav_err = Some(e);
                self.webdav_msg = None;
                self.webdav_busy = false;
                None
            },
            AppEvent::UpdateAvailable(v) => {
                self.update_available = v;
                None
            },
        }
    }

    /// Applies a report of the download engine to the state.
    pub fn apply_download_event(&mut self, ev: DownloadEvent) -> (act: Option<UiAction>)
        ensures
            download_step(*old(self), ev, *final(self), act),
    {
        match ev {
            DownloadEvent::Progress(p) => {
                drop_progress(&mut self.dl_progress, p.id.as_str());
                self.dl_progress.push(p);
                None
            },
            DownloadEvent::Complete(c) => {
                drop_progress(&mut self.dl_progress, c.id.as_str());
                Some(UiAction::RefreshQueue)
            },
            DownloadEvent::Error(e) => {
                drop_progress(&mut self.dl_progress, e.id.as_str());
                Some(UiAction::RefreshQueue)
            },
        }
    }
}

/// The links in pasted text: its lines, trimmed, without the empty ones.
pub open spec fn link_lines(input: Seq<char>) -> Seq<Seq<char>> {
    split_on(input, '\n').map_values(|l: Seq<char>| trim(l)).filter(|l: Seq<char>| l.len() > 0)
}

/// The links in pasted text, one per line.
pub fn parse_link_lines(input: &str) -> (links: Vec<String>)
    ensures
        links@.map_values(|l: String| l@) == link_lines(input@),
{
    let v = chars_of(input);
    let pieces = split_chars(v.as_slice(), '\n');
    let ghost p = split_on(input@, '\n');
    let ghost t = p.map_values(|l: Seq<char>| trim(l));
    let ghost keep = |l: Seq<char>| l.len() > 0;
    let mut links: Vec<String> = Vec::new();
    let mut i: usize = 0;
    proof {
        reveal(Seq::filter);
        assert(t.take(0) =~= Seq::<Seq<char>>::empty());
        assert(links@.map_values(|l: String| l@) =~= Seq::<Seq<char>>::empty());
    }
    while i < pieces.len()
        invariant
            pieces@.map_values(|w: Vec<char>| w@) == p,
            t == p.map_values(|l: Seq<char>| trim(l)),
            keep == (|l: Seq<char>| l.len() > 0),
            i <= pieces.len(),
            links@.map_values(|l: String| l@) == t.take(i as int).filter(keep),
        decreases pieces.len() - i,
    {
        proof {
            reveal(Seq::filter);
        }
        assert(pieces@[i as int]@ == p[i as int]);
        let line = trim_chars(pieces[i].as_slice());
        assert(t.take(i + 1).drop_last() =~= t.take(i as int));
        assert(t.take(i + 1).last() == line@);
        if line.len() > 0 {
            let ghost prev = links@;
            links.push(string_from_chars(line.as_slice()));
            assert(links@.map_values(|l: String| l@) =~= prev.map_values(|l: String| l@).push(line@));
        }
        i = i + 1;
    }
    assert(t.take(pieces.len() as int) =~= t);
    links
}

/// A sequence whose items all pass the filter is its own filtering.
proof fn lemma_filter_keeps_all<A>(s: Seq<A>, keep: spec_fn(A) -> bool)
    requires
        forall|i: int| 0 <= i < s.len() ==> keep(#[trigger] s[i]),
    ensures
        s.filter(keep) == s,
    decreases s.len(),
{
    reveal(Seq::filter);
    if s.len() > 0 {
        lemma_filter_keeps_all(s.drop_last(), keep);
        assert(s.drop_last().push(s.last()) =~= s);
    }
}

/// Links written one per line, as the export writes them, read back from
/// the paste box as the same links, when each is a non-empty line without
/// surrounding white space.
pub proof fn lemma_exported_links_read_back(links: Seq<Seq<char>>)
    requires
        forall|k: int| 0 <= k < links.len() ==> #[trigger] trim(links[k]) == links[k] && links[k].len() > 0,
        forall|k: int, j: int| 0 <= k < links.len() && 0 <= j < links[k].len() ==> #[trigger] links[k][j] != '\n',
    ensures
        link_lines(joined(links, '\n')) == links,
{
    let keep = |l: Seq<char>| l.len() > 0;
    if links.len() == 0 {
        let e = Seq::<char>::empty();
        assert(joined(links, '\n') == e);
        assert(split_on(e, '\n') == seq![e]);
        assert(split_on(e, '\n').map_values(|l: Seq<char>| trim(l)) =~= seq![e]);
        reveal(Seq::filter);
        assert(seq![e].drop_last() =~= Seq::<Seq<char>>::empty());
        assert(Seq::<Seq<char>>::empty().filter(keep) =~= Seq::<Seq<char>>::empty());
        assert(!keep(seq![e].last()));
        assert(seq![e].filter(keep) =~= Seq::<Seq<char>>::empty());
    } else {
        lemma_split_joined(links, '\n');
        let t = links.map_values(|l: Seq<char>| trim(l));
        assert(t =~= links);
        lemma_filter_keeps_all(links, keep);
    }
}

/// A button that a download in the queue offers.
#[derive(Debug, Clone, Copy, PartialEq, Eq, Structural)]
pub enum QueueControl {
    Start,
    Resume,
    Cancel,
    Remove,
}

/// The buttons of a download in each state, in the order they are laid out:
/// waiting downloads can be started or removed, a running one cancelled, a
/// paused one resumed or cancelled, and a finished one removed.
pub open spec fn controls_for(status: DownloadStatus) -> Seq<QueueControl> {
    match status {
        DownloadStatus::Queued | DownloadStatus::Scheduled => seq![QueueControl::Start, QueueControl::Remove],
        DownloadStatus::Active => seq![QueueControl::Cancel],
        DownloadStatus::Paused => seq![QueueControl::Resume, QueueControl::Cancel],
        DownloadStatus::Completed | DownloadStatus::Failed | DownloadStatus::Cancelled => seq![QueueControl::Remove],
    }
}

/// The buttons that a download in the queue offers.
pub fn queue_controls(status: DownloadStatus) -> (c: Vec<QueueControl>)
    ensures
        c@ == controls_for(status),
{
    match status {
        DownloadStatus::Queued | DownloadStatus::Scheduled => vec![QueueControl::Start, QueueControl::Remove],
        DownloadStatus::Active => vec![QueueControl::Cancel],
        DownloadStatus::Paused => vec![QueueControl::Resume, QueueControl::Cancel],
        DownloadStatus::Completed | DownloadStatus::Failed | DownloadStatus::Cancelled => vec![QueueControl::Remove],
    }
}

/// The release tag without its leading `v`s, when it sorts after the running
/// version (as strings compare).
pub open spec fn newer_tag(tag_name: Seq<char>, current: Seq<char>) -> Option<Seq<char>> {
    let tag = strip_all(tag_name, "v"@);
    if lex_le(tag, current) {
        None
    } else {
        Some(tag)
    }
}

/// The newer version that a release tag announces, if it is newer.
pub fn newer_version(tag_name: &str, current: &str) -> (v: Option<String>)
    ensures
        match v {
            Some(t) => newer_tag(tag_name@, current@) == Some(t@),
            None => newer_tag(tag_name@, current@) is None,
        },
{
    let t = chars_of(tag_name);
    let vv = chars_of("v");
    let tag = strip_all_chars(t.as_slice(), vv.as_slice());
    let cur = chars_of(current);
    if crate::text::chars_le(tag.as_slice(), cur.as_slice()) {
        None
    } else {
        Some(string_from_chars(tag.as_slice()))
    }
}

} // verus!
