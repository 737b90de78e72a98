//! Decisions of the download engine: credentials carried in a URL, where a
//! download is fetched from, and how a file is cut into ranges.

use vstd::prelude::*;

use crate::text::{parse_u64, parse_u64_chars, split_chars, split_on, trim, trim_chars, chars_eq,
    chars_start_with, strip_all, strip_all_chars, starts_with, push_char,
    chars_of, append_str, trim_str, find_chars, find_char, first_char, last_char, replace_all, replace_chars, rfind_char, string_from_chars, find_seq};

verus! {

/// A credential with `%40`, `%3A` and `%25` turned back into `@`, `:` and
/// `%`, in that order.
pub open spec fn decode_credential(s: Seq<char>) -> Seq<char> {
    replace_all(replace_all(replace_all(s, "%40"@, "@"@), "%3A"@, ":"@), "%25"@, "%"@)
}

/// The user name and the optional password of a raw `user[:pass]` text.
pub open spec fn split_credentials(creds: Seq<char>) -> (Seq<char>, Option<Seq<char>>) {
    match first_char(creds, ':') {
        Some(c) => (decode_credential(creds.take(c)), Some(decode_credential(creds.skip(c + 1)))),
        None => (decode_credential(creds), None),
    }
}

/// Where the host part of a URL ends: the first `/` after the scheme, or the end.
pub open spec fn host_end(rest: Seq<char>) -> int {
    match first_char(rest, '/') {
        Some(j) => j,
        None => rest.len() as int,
    }
}

/// The URL with the credentials of its host part taken out, and those
/// credentials: everything before the last `@` of the host part, which lies
/// between the first `://` and the next `/`.
pub open spec fn url_credentials(u: Seq<char>) -> (Seq<char>, Option<(Seq<char>, Option<Seq<char>>)>) {
    match find_seq(u, "://"@) {
        None => (u, None),
        Some(i) => {
            let scheme_end = i + 3;
            let rest = u.skip(scheme_end);
            let host = rest.take(host_end(rest));
            match last_char(host, '@') {
                None => (u, None),
                Some(at) => (
                    u.take(scheme_end) + rest.skip(at + 1),
                    Some(split_credentials(host.take(at))),
                ),
            }
        },
    }
}

/// The view of a parsed credential pair.
pub open spec fn credentials_view(c: Option<(String, Option<String>)>) -> Option<(Seq<char>, Option<Seq<char>>)> {
    match c {
        None => None,
        Some((user, pass)) => Some((user@, match pass {
            Some(p) => Some(p@),
            None => None,
        })),
    }
}

fn decode_credential_chars(s: &[char]) -> (out: Vec<char>)
    ensures
        out@ == decode_credential(s@),
{
    proof {
        reveal_strlit("%40");
        reveal_strlit("%3A");
        reveal_strlit("%25");
    }
    let at_enc = chars_of("%40");
    let colon_enc = chars_of("%3A");
    let pct_enc = chars_of("%25");
    let a = replace_chars(s, at_enc.as_slice(), chars_of("@").as_slice());
    let b = replace_chars(a.as_slice(), colon_enc.as_slice(), chars_of(":").as_slice());
    replace_chars(b.as_slice(), pct_enc.as_slice(), chars_of("%").as_slice())
}

/// Extracts `user:pass` credentials carried in a URL and returns the URL without
/// them, with the user name and the optional password; `%40`, `%3A` and `%25`
/// in the credentials are decoded.
pub fn parse_url_credentials(url: &str) -> (res: (String, Option<(String, Option<String>)>))
    ensures
        res.0@ == url_credentials(url@).0,
        credentials_view(res.1) == url_credentials(url@).1,
{
    let u = chars_of(url);
    proof {
        reveal_strlit("://");
    }
    let sep = chars_of("://");
    let i = match find_chars(u.as_slice(), sep.as_slice()) {
        Some(i) => i,
        None => return (string_from_chars(u.as_slice()), None),
    };
    assert(sep@.len() == 3);
    assert(i + 3 <= u.len());
    let scheme_end = i + 3;
    let rest = &u.as_slice()[scheme_end..u.len()];
    assert(rest@ =~= u@.skip(scheme_end as int));
    let path_start = match find_char(rest, '/') {
        Some(j) => j,
        None => rest.len(),
    };
    let host = &rest[0..path_start];
    assert(host@ =~= rest@.take(path_start as int));
    match rfind_char(host, '@') {
        None => (string_from_chars(u.as_slice()), None),
        Some(at) => {
            let creds = &host[0..at];
            assert(creds@ =~= host@.take(at as int));
            let mut clean: Vec<char> = Vec::new();
            let mut k: usize = 0;
            while k < scheme_end
                invariant
                    scheme_end <= u.len(),
                    k <= scheme_end,
                    clean@ == u@.take(k as int),
                decreases scheme_end - k,
            {
                clean.push(u[k]);
                k = k + 1;
                assert(clean@ =~= u@.take(k as int));
            }
            let mut k: usize = at + 1;
            while k < rest.len()
                invariant
                    at + 1 <= k <= rest.len(),
                    clean@ == u@.take(scheme_end as int) + rest@.subrange(at + 1, k as int),
                decreases rest.len() - k,
            {
                clean.push(rest[k]);
                k = k + 1;
                assert(clean@ =~= u@.take(scheme_end as int) + rest@.subrange(at + 1, k as int));
            }
            assert(rest@.subrange(at + 1, rest.len() as int) =~= rest@.skip(at + 1));
            let pair = match find_char(creds, ':') {
                Some(c) => {
                    let user = decode_credential_chars(&creds[0..c]);
                    let pass = decode_credential_chars(&creds[c + 1..creds.len()]);
                    assert(creds@.subrange(0, c as int) =~= creds@.take(c as int));
                    assert(creds@.subrange(c + 1, creds.len() as int) =~= creds@.skip(c + 1));
                    (string_from_chars(user.as_slice()), Some(string_from_chars(pass.as_slice())))
                },
                None => (string_from_chars(decode_credential_chars(creds).as_slice()), None),
            };
            (string_from_chars(clean.as_slice()), Some(pair))
        },
    }
}

/// The escaped form of one credential character: `%`, `@` and `:` as
/// `%25`, `%40` and `%3A`, any other character as itself.
pub open spec fn escape_char(c: char) -> Seq<char> {
    if c == '%' {
        seq!['%', '2', '5']
    } else if c == '@' {
        seq!['%', '4', '0']
    } else if c == ':' {
        seq!['%', '3', 'A']
    } else {
        seq![c]
    }
}

/// A credential with `%`, `@` and `:` escaped, as it is written into a URL.
pub open spec fn encode_credential(x: Seq<char>) -> Seq<char>
    decreases x.len(),
{
    if x.len() == 0 {
        Seq::empty()
    } else {
        escape_char(x[0]) + encode_credential(x.drop_first())
    }
}

proof fn lemma_no_start(s: Seq<char>, p: Seq<char>, k: int)
    requires
        0 <= k < s.len(),
        k < p.len(),
        s[k] != p[k],
    ensures
        !starts_with(s, p),
{
    if starts_with(s, p) {
        assert(s.take(p.len() as int)[k] == s[k]);
    }
}

/// Replacing leaves a prefix alone when no occurrence starts inside it.
proof fn lemma_replace_keeps_prefix(u: Seq<char>, t: Seq<char>, p: Seq<char>, r: Seq<char>)
    requires
        p.len() > 0,
        forall|i: int| 0 <= i < u.len() ==> !starts_with(#[trigger] u.skip(i) + t, p),
    ensures
        replace_all(u + t, p, r) == u + replace_all(t, p, r),
    decreases u.len(),
{
    if u.len() > 0 {
        let s = u + t;
        assert(u.skip(0) =~= u);
        assert(!starts_with(s, p));
        assert(s.drop_first() =~= u.drop_first() + t);
        assert forall|i: int| 0 <= i < u.drop_first().len() implies !starts_with(#[trigger] u.drop_first().skip(i) + t, p) by {
            assert(u.drop_first().skip(i) =~= u.skip(i + 1));
        }
        lemma_replace_keeps_prefix(u.drop_first(), t, p, r);
        assert(s[0] == u[0]);
        assert(u + replace_all(t, p, r) =~= seq![u[0]] + (u.drop_first() + replace_all(t, p, r)));
    } else {
        assert(u + t =~= t);
        assert(u + replace_all(t, p, r) =~= replace_all(t, p, r));
    }
}

/// Replacing a pattern that starts the text.
proof fn lemma_replace_at_start(p: Seq<char>, t: Seq<char>, r: Seq<char>)
    requires
        p.len() > 0,
    ensures
        replace_all(p + t, p, r) == r + replace_all(t, p, r),
{
    let s = p + t;
    assert(s.take(p.len() as int) =~= p);
    assert(s.skip(p.len() as int) =~= t);
}

/// After the first decoding step (`%40` to `@`).
pub open spec fn stage1(x: Seq<char>) -> Seq<char>
    decreases x.len(),
{
    if x.len() == 0 {
        Seq::empty()
    } else {
        (if x[0] == '@' { seq!['@'] } else { escape_char(x[0]) }) + stage1(x.drop_first())
    }
}

/// After the second decoding step (`%3A` to `:`).
pub open spec fn stage2(x: Seq<char>) -> Seq<char>
    decreases x.len(),
{
    if x.len() == 0 {
        Seq::empty()
    } else {
        (if x[0] == '%' { seq!['%', '2', '5'] } else { seq![x[0]] }) + stage2(x.drop_first())
    }
}

proof fn lemma_stage1(x: Seq<char>)
    ensures
        replace_all(encode_credential(x), "%40"@, "@"@) == stage1(x),
    decreases x.len(),
{
    reveal_strlit("%40");
    reveal_strlit("@");
    let p = "%40"@;
    if x.len() == 0 {
        assert(encode_credential(x) =~= Seq::<char>::empty());
    } else {
        let t = encode_credential(x.drop_first());
        lemma_stage1(x.drop_first());
        let c = x[0];
        let u = escape_char(c);
        if c == '@' {
            assert(u =~= p);
            lemma_replace_at_start(p, t, "@"@);
        } else {
            assert forall|i: int| 0 <= i < u.len() implies !starts_with(#[trigger] u.skip(i) + t, p) by {
                let s = u.skip(i) + t;
                assert(s[0] == u[i]);
                if u[i] == '%' {
                    assert(i == 0);
                    assert(s[1] == u[1]);
                    lemma_no_start(s, p, 1);
                } else {
                    lemma_no_start(s, p, 0);
                }
            }
            lemma_replace_keeps_prefix(u, t, p, "@"@);
        }
    }
}

proof fn lemma_stage2(x: Seq<char>)
    ensures
        replace_all(stage1(x), "%3A"@, ":"@) == stage2(x),
    decreases x.len(),
{
    reveal_strlit("%3A");
    reveal_strlit(":");
    let p = "%3A"@;
    if x.len() > 0 {
        let t = stage1(x.drop_first());
        lemma_stage2(x.drop_first());
        let c = x[0];
        let u = if c == '@' { seq!['@'] } else { escape_char(c) };
        if c == ':' {
            assert(u =~= p);
            lemma_replace_at_start(p, t, ":"@);
            assert(":"@ =~= seq![c]);
        } else {
            assert forall|i: int| 0 <= i < u.len() implies !starts_with(#[trigger] u.skip(i) + t, p) by {
                let s = u.skip(i) + t;
                assert(s[0] == u[i]);
                if u[i] == '%' {
                    assert(i == 0);
                    assert(s[1] == u[1]);
                    lemma_no_start(s, p, 1);
                } else {
                    lemma_no_start(s, p, 0);
                }
            }
            lemma_replace_keeps_prefix(u, t, p, ":"@);
            if c == '@' {
                assert(u =~= seq![c]);
            } else if c != '%' {
                assert(u =~= seq![c]);
            }
        }
    }
}

proof fn lemma_stage3(x: Seq<char>)
    ensures
        replace_all(stage2(x), "%25"@, "%"@) == x,
    decreases x.len(),
{
    reveal_strlit("%25");
    reveal_strlit("%");
    let p = "%25"@;
    if x.len() > 0 {
        let t = stage2(x.drop_first());
        lemma_stage3(x.drop_first());
        let c = x[0];
        if c == '%' {
            assert(seq!['%', '2', '5'] =~= p);
            lemma_replace_at_start(p, t, "%"@);
        } else {
            let u = seq![c];
            assert forall|i: int| 0 <= i < u.len() implies !starts_with(#[trigger] u.skip(i) + t, p) by {
                let s = u.skip(i) + t;
                assert(s[0] == c);
                lemma_no_start(s, p, 0);
            }
            lemma_replace_keeps_prefix(u, t, p, "%"@);
        }
        assert(x =~= seq![c] + x.drop_first());
    }
}

/// A credential written with `%`, `@` and `:` escaped decodes back to itself.
pub proof fn lemma_credential_round_trip(x: Seq<char>)
    ensures
        decode_credential(encode_credential(x)) == x,
{
    lemma_stage1(x);
    lemma_stage2(x);
    lemma_stage3(x);
}

/// The URL with its credentials put back in front of the host gives the URL
/// again; a URL without credentials comes back unchanged.
pub proof fn lemma_credentials_put_back(u: Seq<char>)
    ensures
        url_credentials(u).1 is None ==> url_credentials(u).0 == u,
        url_credentials(u).1 is Some ==> exists|k: int, raw: Seq<char>|
            #![trigger url_credentials(u).0.take(k), split_credentials(raw)]
            0 <= k <= url_credentials(u).0.len()
            && u == url_credentials(u).0.take(k) + raw + seq!['@'] + url_credentials(u).0.skip(k)
            && url_credentials(u).1 == Some(split_credentials(raw)),
{
    reveal_strlit("://");
    crate::text::lemma_find_from(u, "://"@, 0);
    if let Some(i) = find_seq(u, "://"@) {
        let k = i + 3;
        let rest = u.skip(k);
        crate::text::lemma_char_from(rest, '/', 0);
        let host = rest.take(host_end(rest));
        crate::text::lemma_char_before(host, '@', host.len() as int);
        if let Some(at) = last_char(host, '@') {
            let clean = u.take(k) + rest.skip(at + 1);
            let raw = host.take(at);
            assert(clean.take(k) =~= u.take(k));
            assert(clean.skip(k) =~= rest.skip(at + 1));
            assert(rest[at] == '@');
            assert(u =~= clean.take(k) + raw + seq!['@'] + clean.skip(k));
            assert(url_credentials(u).0 == clean);
            assert(url_credentials(u).1 == Some(split_credentials(raw)));
            assert(0 <= k <= clean.len());
        }
    }
}

/// The user name of a credentials text ends at its first `:`: the name is
/// the decoding of what comes before that colon, so it holds no raw `:`, and
/// the password is the decoding of everything after it, further colons
/// included.
pub proof fn lemma_user_ends_at_first_colon(raw: Seq<char>, c: int)
    requires
        0 <= c < raw.len(),
        raw[c] == ':',
        forall|j: int| 0 <= j < c ==> raw[j] != ':',
    ensures
        split_credentials(raw) == (decode_credential(raw.take(c)), Some(decode_credential(raw.skip(c + 1)))),
        forall|j: int| 0 <= j < raw.take(c).len() ==> raw.take(c)[j] != ':',
{
    crate::text::lemma_char_from(raw, ':', 0);
    if let Some(f) = first_char(raw, ':') {
        assert(f == c);
    }
}

/// A credentials text without a `:` is a user name alone, without password.
pub proof fn lemma_no_colon_no_password(raw: Seq<char>)
    requires
        forall|j: int| 0 <= j < raw.len() ==> raw[j] != ':',
    ensures
        split_credentials(raw) == (decode_credential(raw), None::<Seq<char>>),
{
    crate::text::lemma_char_from(raw, ':', 0);
    if let Some(f) = first_char(raw, ':') {
        assert(raw[f] == ':');
    }
}

/// What the user name and password of a credentials text are, by its
/// first `:`.
proof fn lemma_split_by_first_colon(raw: Seq<char>)
    ensures
        (forall|j: int| 0 <= j < raw.len() ==> raw[j] != ':') ==> split_credentials(raw) == (decode_credential(raw), None::<Seq<char>>),
        forall|c: int| 0 <= c < raw.len() && raw[c] == ':' && (forall|j: int| 0 <= j < c ==> raw[j] != ':')
            ==> split_credentials(raw) == (decode_credential(#[trigger] raw.take(c)), Some(decode_credential(raw.skip(c + 1)))),
{
    assert forall|c: int| 0 <= c < raw.len() && raw[c] == ':' && (forall|j: int| 0 <= j < c ==> raw[j] != ':')
        implies split_credentials(raw) == (decode_credential(#[trigger] raw.take(c)), Some(decode_credential(raw.skip(c + 1)))) by {
        lemma_user_ends_at_first_colon(raw, c);
    }
    if forall|j: int| 0 <= j < raw.len() ==> raw[j] != ':' {
        lemma_no_colon_no_password(raw);
    }
}

/// Credentials taken from a URL: the URL is the cleaned URL with a raw
/// `user[:pass]` text and `@` put back before the host; the user name is the
/// decoding of that text up to its first `:`, and the password the decoding
/// of the rest after that colon, or there is no password when the text holds
/// no `:`.
#[verifier::rlimit(40)]
pub proof fn lemma_url_user_and_password(u: Seq<char>)
    ensures
        url_credentials(u).1 matches Some((user, pass)) ==> exists|k: int, raw: Seq<char>|
            #![trigger url_credentials(u).0.take(k), raw.len()]
            0 <= k <= url_credentials(u).0.len()
            && u == url_credentials(u).0.take(k) + raw + seq!['@'] + url_credentials(u).0.skip(k)
            && ((forall|j: int| 0 <= j < raw.len() ==> raw[j] != ':') ==> user == decode_credential(raw) && pass is None)
            && (forall|c: int| 0 <= c < raw.len() && raw[c] == ':' && (forall|j: int| 0 <= j < c ==> raw[j] != ':')
                ==> user == decode_credential(#[trigger] raw.take(c)) && pass == Some(decode_credential(raw.skip(c + 1)))),
{
    let r = url_credentials(u);
    lemma_credentials_put_back(u);
    if r.1 is Some {
        let clean = r.0;
        let (k, raw) = choose|k: int, raw: Seq<char>|
            #![trigger url_credentials(u).0.take(k), split_credentials(raw)]
            0 <= k <= url_credentials(u).0.len()
            && u == url_credentials(u).0.take(k) + raw + seq!['@'] + url_credentials(u).0.skip(k)
            && url_credentials(u).1 == Some(split_credentials(raw));
        lemma_split_by_first_colon(raw);
        assert(raw.len() == raw.len());
        assert(clean.take(k) == clean.take(k));
    }
}

/// A download is fetched in parallel ranges exactly when its size is known
/// and not zero and at least two threads are allowed.
pub proof fn lemma_ranges_when(total: Option<u64>, threads: u8)
    ensures
        uses_ranges(total, threads) <==> (total is Some && total->0 > 0 && threads >= 2),
        forall|t: u64, n: u8| t > 0 && n >= 2 ==> #[trigger] uses_ranges(Some(t), n),
        forall|n: u8| !#[trigger] uses_ranges(None, n),
        forall|t: u64| !#[trigger] uses_ranges(Some(t), 1u8) && !uses_ranges(Some(t), 0u8),
        forall|n: u8| !#[trigger] uses_ranges(Some(0u64), n),
{
}

/// A progress report of a running download.
#[derive(Debug)]
pub struct ProgressEvent {
    pub id: String,
    pub bytes_done: u64,
    pub total_bytes: Option<u64>,
    pub speed_bps: u64,
}

/// The report of a finished download.
#[derive(Debug)]
pub struct CompleteEvent {
    pub id: String,
    pub path: String,
    pub bytes_done: u64,
}

/// The report of a failed download.
#[derive(Debug)]
pub struct ErrorEvent {
    pub id: String,
    pub error: String,
}

/// What the engine reports while it downloads.
#[derive(Debug)]
pub enum DownloadEvent {
    Progress(ProgressEvent),
    Complete(CompleteEvent),
    Error(ErrorEvent),
}

/// Where a download is fetched from.
#[derive(Debug)]
pub enum DownloadSource {
    /// A local file, copied.
    Local(String),
    /// A file of the Real-Debrid WebDAV remote, copied by rclone.
    Rclone(String),
    /// An HTTP URL, with the credentials it carried taken out.
    Http(String, Option<(String, Option<String>)>),
}

/// The view of a download source.
pub enum SourceView {
    Local(Seq<char>),
    Rclone(Seq<char>),
    Http(Seq<char>, Option<(Seq<char>, Option<Seq<char>>)>),
}

/// The view of a download source.
pub open spec fn source_view(d: DownloadSource) -> SourceView {
    match d {
        DownloadSource::Local(p) => SourceView::Local(p@),
        DownloadSource::Rclone(p) => SourceView::Rclone(p@),
        DownloadSource::Http(u, c) => SourceView::Http(u@, credentials_view(c)),
    }
}

/// Where a URL is fetched from: `file://` URLs are local paths, `webdav:`
/// URLs name a file of the `realdebrid` rclone remote (their leading `/`s
/// dropped), and anything else is fetched over HTTP.
pub open spec fn source_of(url: Seq<char>) -> SourceView {
    if starts_with(url, "file://"@) {
        SourceView::Local(strip_all(url, "file://"@))
    } else if starts_with(url, "webdav:"@) {
        SourceView::Rclone("realdebrid:"@ + strip_all(strip_all(url, "webdav:"@), "/"@))
    } else {
        SourceView::Http(url_credentials(url).0, url_credentials(url).1)
    }
}

/// Where a download of the URL is fetched from.
pub fn plan_source(url: &str) -> (d: DownloadSource)
    ensures
        source_view(d) == source_of(url@),
{
    let u = chars_of(url);
    let file = chars_of("file://");
    let webdav = chars_of("webdav:");
    if chars_start_with(u.as_slice(), file.as_slice()) {
        let p = strip_all_chars(u.as_slice(), file.as_slice());
        DownloadSource::Local(string_from_chars(p.as_slice()))
    } else if chars_start_with(u.as_slice(), webdav.as_slice()) {
        let a = strip_all_chars(u.as_slice(), webdav.as_slice());
        let slash = chars_of("/");
        let b = strip_all_chars(a.as_slice(), slash.as_slice());
        let mut out = String::from_str("realdebrid:");
        let mut k: usize = 0;
        while k < b.len()
            invariant
                k <= b.len(),
                out@ == "realdebrid:"@ + b@.take(k as int),
            decreases b.len() - k,
        {
            push_char(&mut out, b[k]);
            k = k + 1;
            assert(out@ =~= "realdebrid:"@ + b@.take(k as int));
        }
        assert(b@.take(b.len() as int) =~= b@);
        DownloadSource::Rclone(out)
    } else {
        let (clean, creds) = parse_url_credentials(url);
        DownloadSource::Http(clean, creds)
    }
}

/// Whether the file is fetched in parallel ranges: only when its size is
/// known and not zero, and more than one thread is allowed.
pub open spec fn uses_ranges(total: Option<u64>, threads: u8) -> bool {
    (total matches Some(t) && t > 0) && threads > 1
}

/// Whether the file is fetched in parallel ranges.
pub fn use_multi_thread(total: Option<u64>, threads: u8) -> (b: bool)
    ensures
        b == uses_ranges(total, threads),
{
    let known = match total {
        Some(t) => t > 0,
        None => false,
    };
    known && threads > 1
}

/// The byte range `(start, end)`, both ends included, of part `i` of `n`
/// parts of a file of `total` bytes: parts of `total / n` bytes, the last one
/// running to the end.
pub open spec fn part_range(total: nat, n: nat, i: nat) -> (nat, nat) {
    let size = total / n;
    let start = i * size;
    if i == n - 1 {
        (start, (total - 1) as nat)
    } else {
        (start, (start + size - 1) as nat)
    }
}

proof fn lemma_part_bounds(total: nat, n: nat, i: nat)
    requires
        n >= 1,
        total >= n,
        i < n,
    ensures
        i * (total / n) + total / n <= total,
        total / n >= 1,
{
    assert(total / n >= 1) by (nonlinear_arith)
        requires
            n >= 1,
            total >= n,
    ;
    assert(n * (total / n) <= total) by (nonlinear_arith)
        requires
            n >= 1,
    ;
    assert((i + 1) * (total / n) <= n * (total / n)) by (nonlinear_arith)
        requires
            i < n,
    ;
    lemma_succ_mul(i as int, (total / n) as int);
}

proof fn lemma_succ_mul(a: int, b: int)
    ensures
        (a + 1) * b == a * b + b,
{
    assert((a + 1) * b == a * b + b) by (nonlinear_arith);
}

/// The byte ranges of the parts of a file fetched with `threads` parallel
/// requests.
pub fn chunk_ranges(total: u64, threads: u8) -> (r: Vec<(u64, u64)>)
    requires
        threads >= 1,
        total >= threads,
    ensures
        r@.len() == threads,
        forall|i: int| 0 <= i < threads ==> (#[trigger] r@[i].0 as nat, r@[i].1 as nat) == part_range(total as nat, threads as nat, i as nat),
{
    let n = threads as u64;
    let chunk = total / n;
    let mut r: Vec<(u64, u64)> = Vec::new();
    let mut i: u64 = 0;
    while i < n
        invariant
            n == threads,
            n >= 1,
            total >= n,
            chunk == total / n,
            i <= n,
            r@.len() == i,
            forall|k: int| 0 <= k < i ==> (#[trigger] r@[k].0 as nat, r@[k].1 as nat) == part_range(total as nat, n as nat, k as nat),
        decreases n - i,
    {
        proof {
            lemma_part_bounds(total as nat, n as nat, i as nat);
        }
        let start = i * chunk;
        let end = if i == n - 1 { total - 1 } else { start + chunk - 1 };
        r.push((start, end));
        i = i + 1;
    }
    r
}

/// The ranges of consecutive parts touch: each part starts right after the
/// one before it ends, the first starts at 0 and the last ends at the last
/// byte, so the parts cover the file exactly once.
pub proof fn lemma_parts_cover(total: nat, n: nat)
    requires
        n >= 1,
        total >= n,
    ensures
        part_range(total, n, 0).0 == 0,
        part_range(total, n, (n - 1) as nat).1 == total - 1,
        forall|i: nat| i + 1 < n ==> (#[trigger] part_range(total, n, i)).1 + 1 == part_range(total, n, i + 1).0,
        forall|i: nat| i < n ==> (#[trigger] part_range(total, n, i)).0 <= part_range(total, n, i).1,
{
    assert forall|i: nat| i + 1 < n implies (#[trigger] part_range(total, n, i)).1 + 1 == part_range(total, n, i + 1).0 by {
        lemma_part_bounds(total, n, i);
        lemma_succ_mul(i as int, (total / n) as int);
    }
    assert forall|i: nat| i < n implies (#[trigger] part_range(total, n, i)).0 <= part_range(total, n, i).1 by {
        lemma_part_bounds(total, n, i);
    }
    assert(0 * (total / n) == 0) by (nonlinear_arith);
}

/// The first piece at or after `j` that is followed by another piece and is
/// the key `bytes`.
pub open spec fn bytes_key_from(p: Seq<Seq<char>>, j: int) -> Option<int>
    decreases p.len() - j,
{
    if j < 0 || j + 1 >= p.len() {
        None
    } else if p[j] == "bytes"@ {
        Some(j)
    } else {
        bytes_key_from(p, j + 1)
    }
}

/// The text before the first `,` or `}`.
pub open spec fn before_delimiter(s: Seq<char>) -> Seq<char>
    decreases s.len(),
{
    if s.len() == 0 {
        s
    } else if s[0] == ',' || s[0] == '}' {
        Seq::empty()
    } else {
        seq![s[0]] + before_delimiter(s.drop_first())
    }
}

/// The size that `rclone size --json` reports, read leniently: the text is
/// cut at every `"`; the piece after the first piece `bytes`
/// loses its leading `:`s and surrounding white space, is cut at the first `,`
/// or `}`, trimmed again and parsed as a number; anything else reads as 0.
pub open spec fn rclone_size(out: Seq<char>) -> u64 {
    let p = split_on(out, '"');
    match bytes_key_from(p, 0) {
        None => 0,
        Some(j) => match parse_u64(trim(before_delimiter(trim(strip_all(p[j + 1], ":"@))))) {
            Some(n) => n,
            None => 0,
        },
    }
}

fn before_delimiter_chars(s: &[char]) -> (r: Vec<char>)
    ensures
        r@ == before_delimiter(s@),
{
    let mut r: Vec<char> = Vec::new();
    let mut i: usize = 0;
    assert(s@.skip(0) =~= s@);
    while i < s.len()
        invariant
            i <= s.len(),
            r@ + before_delimiter(s@.skip(i as int)) == before_delimiter(s@),
        decreases s.len() - i,
    {
        assert(s@.skip(i as int).drop_first() =~= s@.skip(i + 1));
        if s[i] == ',' || s[i] == '}' {
            assert(before_delimiter(s@.skip(i as int)) =~= Seq::<char>::empty());
            assert(r@ + Seq::<char>::empty() =~= r@);
            return r;
        }
        let ghost prev = r@;
        r.push(s[i]);
        assert(prev + before_delimiter(s@.skip(i as int)) =~= r@ + before_delimiter(s@.skip(i + 1)));
        i = i + 1;
    }
    assert(s@.skip(s.len() as int) =~= Seq::<char>::empty());
    assert(r@ + Seq::<char>::empty() =~= r@);
    r
}

/// Reads the byte count out of the output of `rclone size --json`.
pub fn parse_rclone_size(out: &str) -> (n: u64)
    ensures
        n == rclone_size(out@),
{
    let v = chars_of(out);
    let pieces = split_chars(v.as_slice(), '"');
    let ghost p = split_on(out@, '"');
    let key = chars_of("bytes");
    let mut j: usize = 0;
    while j < pieces.len() && pieces.len() - j > 1
        invariant
            pieces@.map_values(|w: Vec<char>| w@) == p,
            p == split_on(out@, '"'),
            key@ == "bytes"@,
            j <= pieces.len(),
            bytes_key_from(p, 0) == bytes_key_from(p, j as int),
        decreases pieces.len() - j,
    {
        assert(pieces@[j as int]@ == p[j as int]);
        if chars_eq(pieces[j].as_slice(), key.as_slice()) {
            assert(pieces@[j + 1]@ == p[j + 1]);
            assert(p.len() == pieces.len());
            assert(p[j as int] == "bytes"@);
            assert(bytes_key_from(p, j as int) == Some(j as int));
            let colon = chars_of(":");
            let a = strip_all_chars(pieces[j + 1].as_slice(), colon.as_slice());
            let b = trim_chars(a.as_slice());
            let c = before_delimiter_chars(b.as_slice());
            let d = trim_chars(c.as_slice());
            return match parse_u64_chars(d.as_slice()) {
                Some(n) => n,
                None => 0,
            };
        }
        j = j + 1;
    }
    0
}

/// The error of a failed rclone copy: what rclone wrote to its error
/// stream, trimmed, or its exit status when it wrote nothing.
pub open spec fn rclone_failure_text(stderr: Seq<char>, status: Seq<char>) -> Seq<char> {
    if trim(stderr).len() == 0 {
        "rclone exited with "@ + status
    } else {
        "rclone: "@ + trim(stderr)
    }
}

/// The error of a failed rclone copy, from its error stream and the text of
/// its exit status.
pub fn rclone_failure(stderr: &str, status: &str) -> (m: String)
    ensures
        m@ == rclone_failure_text(stderr@, status@),
{
    let e = trim_str(stderr);
    let mut m = String::new();
    if e.as_str().unicode_len() == 0 {
        append_str(&mut m, "rclone exited with ");
        append_str(&mut m, status);
    } else {
        append_str(&mut m, "rclone: ");
        append_str(&mut m, e.as_str());
    }
    m
}

/// The whole percentage of a download done.
pub fn progress_percent(bytes_done: u64, total: u64) -> (p: u64)
    requires
        total > 0,
        bytes_done <= u64::MAX / 100,
    ensures
        p == (bytes_done as nat) * 100 / (total as nat),
{
    bytes_done * 100 / total
}

} // verus!
