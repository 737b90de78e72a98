//! Records of the Real-Debrid REST API and the parameters sent to it.

use std::collections::HashMap;

use vstd::prelude::*;

use crate::text::{chars_of, push_char, split_chars, split_on, string_from_chars};
use crate::ui::{decimal, push_decimal};

verus! {

/// A hoster link turned into a direct download.
#[allow(non_snake_case)]
#[derive(Debug)]
pub struct UnrestrictedLink {
    pub id: String,
    pub filename: String,
    pub mimeType: Option<String>,
    pub filesize: u64,
    pub link: String,
    pub host: String,
    pub download: String,
    pub streamable: Option<u8>,
}

/// Transcoded streams of a download, by quality, for each format.
#[allow(non_snake_case)]
#[derive(Debug)]
pub struct StreamInfo {
    pub apple: Option<HashMap<String, String>>,
    pub dash: Option<HashMap<String, String>>,
    pub liveMP4: Option<HashMap<String, String>>,
    pub h264WebM: Option<HashMap<String, String>>,
}

/// The answer to adding a torrent.
#[derive(Debug)]
pub struct TorrentAddResult {
    pub id: String,
    pub uri: String,
}

/// A file inside a torrent.
#[derive(Debug)]
pub struct TorrentFile {
    pub id: u32,
    pub path: String,
    pub bytes: u64,
    pub selected: u8,
}

/// A torrent of the account. The service reports its progress as a
/// fractional percentage; it is held here rounded to a whole percent.
#[derive(Debug)]
pub struct Torrent {
    pub id: String,
    pub filename: String,
    pub hash: Option<String>,
    pub bytes: u64,
    pub links: Vec<String>,
    pub status: String,
    pub progress_percent: u8,
    pub seeders: Option<u32>,
    pub speed: Option<u64>,
    pub added: String,
    pub files: Option<Vec<TorrentFile>>,
}

/// A download generated by the service.
#[allow(non_snake_case)]
#[derive(Debug)]
pub struct RdDownload {
    pub id: String,
    pub filename: String,
    pub mimeType: Option<String>,
    pub filesize: u64,
    pub link: String,
    pub host: String,
    pub download: String,
    pub generated: String,
}

/// The account.
#[derive(Debug)]
pub struct RdUser {
    pub id: u64,
    pub username: String,
    pub email: String,
    pub points: u64,
    pub locale: String,
    pub avatar: Option<String>,
    pub account_type: String,
    pub premium: u64,
    pub expiration: Option<String>,
}

/// The base of every API URL.
pub open spec fn rd_base() -> Seq<char> {
    "https://api.real-debrid.com/rest/1.0"@
}

/// The URL of an API path.
pub fn api_url(path: &str) -> (u: String)
    ensures
        u@ == rd_base() + path@,
{
    let mut u = String::from_str("https://api.real-debrid.com/rest/1.0");
    let p = chars_of(path);
    let mut i: usize = 0;
    while i < p.len()
        invariant
            i <= p.len(),
            u@ == rd_base() + p@.take(i as int),
        decreases p.len() - i,
    {
        push_char(&mut u, p[i]);
        i = i + 1;
        assert(u@ =~= rd_base() + p@.take(i as int));
    }
    assert(p@.take(p.len() as int) =~= p@);
    u
}

/// The decimal ids joined by commas.
pub open spec fn joined_ids(ids: Seq<u32>) -> Seq<char>
    decreases ids.len(),
{
    if ids.len() == 0 {
        Seq::empty()
    } else if ids.len() == 1 {
        decimal(ids[0] as nat)
    } else {
        joined_ids(ids.drop_last()) + seq![','] + decimal(ids.last() as nat)
    }
}

/// The `files` parameter that selects torrent files: `all` when no id is
/// given, else the ids joined by commas.
pub open spec fn files_param_text(ids: Seq<u32>) -> Seq<char> {
    if ids.len() == 0 {
        "all"@
    } else {
        joined_ids(ids)
    }
}

/// The `files` parameter that selects torrent files.
pub fn files_param(file_ids: &Vec<u32>) -> (s: String)
    ensures
        s@ == files_param_text(file_ids@),
{
    if file_ids.len() == 0 {
        return String::from_str("all");
    }
    let mut s = String::new();
    let mut i: usize = 0;
    while i < file_ids.len()
        invariant
            i <= file_ids.len(),
            s@ == joined_ids(file_ids@.take(i as int)),
        decreases file_ids.len() - i,
    {
        let ghost prev = s@;
        if i > 0 {
            push_char(&mut s, ',');
        }
        push_decimal(&mut s, file_ids[i] as u128);
        assert(file_ids@.take(i + 1).drop_last() =~= file_ids@.take(i as int));
        assert(file_ids@.take(i + 1).last() == file_ids@[i as int]);
        if i == 0 {
            assert(s@ =~= joined_ids(file_ids@.take(1)));
        } else {
            assert(s@ =~= joined_ids(file_ids@.take(i + 1)));
        }
        i = i + 1;
    }
    assert(file_ids@.take(file_ids.len() as int) =~= file_ids@);
    s
}

/// The file name that a link gives a download: the text after its last `/`.
pub open spec fn link_file_name(link: Seq<char>) -> Seq<char> {
    split_on(link, '/').last()
}

/// The file name that a link gives a download.
pub fn file_name_from_link(link: &str) -> (name: String)
    ensures
        name@ == link_file_name(link@),
{
    let v = chars_of(link);
    let pieces = split_chars(v.as_slice(), '/');
    proof {
        lemma_split_nonempty(v@, '/');
    }
    let last = pieces.len() - 1;
    assert(pieces@[last as int]@ == split_on(v@, '/')[last as int]);
    string_from_chars(pieces[last].as_slice())
}

/// Splitting always yields at least one piece.
pub proof fn lemma_split_nonempty(s: Seq<char>, c: char)
    ensures
        split_on(s, c).len() >= 1,
    decreases s.len(),
{
    crate::text::lemma_char_from(s, c, 0);
    if let Some(i) = crate::text::first_char(s, c) {
        lemma_split_nonempty(s.skip(i + 1), c);
    }
}

/// The values of the successful results, in order.
pub open spec fn oks<T>(s: Seq<Result<T, String>>) -> Seq<T>
    decreases s.len(),
{
    if s.len() == 0 {
        Seq::empty()
    } else {
        match s.last() {
            Ok(v) => oks(s.drop_last()).push(v),
            Err(_) => oks(s.drop_last()),
        }
    }
}

/// Keeps the links that were unrestricted, in order, and drops the failures.
pub fn successes<T>(results: Vec<Result<T, String>>) -> (out: Vec<T>)
    ensures
        out@ == oks(results@),
{
    let ghost all = results@;
    let mut rest = results;
    let mut rev: Vec<T> = Vec::new();
    while rest.len() > 0
        invariant
            oks(all) == oks(rest@) + rev@.reverse(),
        decreases rest.len(),
    {
        let ghost before = rest@;
        let r = rest.pop().unwrap();
        assert(before.drop_last() =~= rest@);
        match r {
            Ok(v) => {
                let ghost prev = rev@;
                rev.push(v);
                assert(rev@.reverse() =~= seq![v] + prev.reverse());
                assert(oks(before) == oks(rest@).push(v));
                assert(oks(rest@).push(v) + prev.reverse() =~= oks(rest@) + rev@.reverse());
            },
            Err(_) => {},
        }
    }
    assert(oks(all) =~= rev@.reverse());
    let mut out: Vec<T> = Vec::new();
    while rev.len() > 0
        invariant
            oks(all) == out@ + rev@.reverse(),
        decreases rev.len(),
    {
        let ghost before = rev@;
        let v = rev.pop().unwrap();
        assert(before =~= rev@.push(v));
        assert(before.reverse() =~= seq![v] + rev@.reverse());
        let ghost prev = out@;
        out.push(v);
        assert(prev + before.reverse() =~= out@ + rev@.reverse());
    }
    assert(out@ + rev@.reverse() =~= out@);
    out
}

} // verus!
