//! Settings of the client and the sorting of files into categories.

use vstd::prelude::*;

use crate::text::{append_str, chars_of, chars_eq, last_char, rfind_char, string_from_chars};

verus! {

/// Folders where files of each category go, when set.
#[derive(Debug)]
pub struct FolderRules {
    pub video: Option<String>,
    pub audio: Option<String>,
    pub archive: Option<String>,
    pub programs: Option<String>,
}

impl Default for FolderRules {
    fn default() -> (r: Self)
        ensures
            r.video is None,
            r.audio is None,
            r.archive is None,
            r.programs is None,
    {
        FolderRules { video: None, audio: None, archive: None, programs: None }
    }
}

/// Settings of the client.
#[derive(Debug)]
pub struct AppSettings {
    pub threads_per_download: u8,
    pub max_concurrent_downloads: u8,
    pub download_dir: String,
    pub quiet_hours_enabled: bool,
    pub quiet_hours_start: Option<String>,
    pub quiet_hours_end: Option<String>,
    pub tray_enabled: bool,
    pub folder_rules: FolderRules,
}

impl AppSettings {
    /// The default settings, saving into `download_dir`: four threads per
    /// download, three downloads at a time, no quiet hours, no tray icon and
    /// no folder rules.
    pub fn with_download_dir(download_dir: String) -> (s: Self)
        ensures
            s.threads_per_download == 4,
            s.max_concurrent_downloads == 3,
            s.download_dir@ == download_dir@,
            !s.quiet_hours_enabled,
            s.quiet_hours_start is None,
            s.quiet_hours_end is None,
            !s.tray_enabled,
            s.folder_rules.video is None,
            s.folder_rules.audio is None,
            s.folder_rules.archive is None,
            s.folder_rules.programs is None,
    {
        AppSettings {
            threads_per_download: 4,
            max_concurrent_downloads: 3,
            download_dir,
            quiet_hours_enabled: false,
            quiet_hours_start: None,
            quiet_hours_end: None,
            tray_enabled: false,
            folder_rules: FolderRules::default(),
        }
    }
}

/// Where a download of `filename` is saved: the file in the download
/// directory.
pub open spec fn download_path_text(dir: Seq<char>, filename: Seq<char>) -> Seq<char> {
    dir + "/"@ + filename
}

/// Where a download of `filename` is saved.
pub fn download_path(download_dir: &str, filename: &str) -> (p: String)
    ensures
        p@ == download_path_text(download_dir@, filename@),
{
    let mut p = String::new();
    append_str(&mut p, download_dir);
    append_str(&mut p, "/");
    append_str(&mut p, filename);
    p
}

/// The kinds of file that folder rules know.
#[derive(Debug, Clone, Copy, PartialEq, Eq, Structural)]
pub enum FileCategory {
    Video,
    Audio,
    Archive,
    Programs,
    Other,
}

/// The text after the last `.` of a file name, or the whole name when it has
/// none (the first piece that `rsplit('.')` yields).
pub open spec fn last_segment(name: Seq<char>) -> Seq<char> {
    match last_char(name, '.') {
        Some(i) => name.skip(i + 1),
        None => name,
    }
}

/// std's `str::to_lowercase`: the Unicode lowercase mapping of a text.
pub uninterp spec fn lowercase(s: Seq<char>) -> Seq<char>;

/// std's `str::to_lowercase`.
#[verifier::external_body]
fn to_lowercase(s: &str) -> (r: String)
    ensures
        r@ == lowercase(s@),
{
    s.to_lowercase()
}

pub open spec fn is_video_ext(e: Seq<char>) -> bool {
    e == "mkv"@ || e == "mp4"@ || e == "avi"@ || e == "mov"@ || e == "wmv"@ || e == "flv"@
        || e == "m2ts"@ || e == "ts"@ || e == "m4v"@ || e == "webm"@ || e == "vob"@
        || e == "mpg"@ || e == "mpeg"@
}

pub open spec fn is_audio_ext(e: Seq<char>) -> bool {
    e == "mp3"@ || e == "flac"@ || e == "aac"@ || e == "ogg"@ || e == "wav"@ || e == "m4a"@
        || e == "opus"@ || e == "wma"@ || e == "alac"@ || e == "ape"@
}

pub open spec fn is_archive_ext(e: Seq<char>) -> bool {
    e == "zip"@ || e == "rar"@ || e == "7z"@ || e == "tar"@ || e == "gz"@ || e == "bz2"@
        || e == "xz"@ || e == "zst"@ || e == "cbz"@ || e == "cbr"@ || e == "iso"@
        || e == "tgz"@ || e == "tbz2"@
}

pub open spec fn is_program_ext(e: Seq<char>) -> bool {
    e == "exe"@ || e == "msi"@ || e == "deb"@ || e == "rpm"@ || e == "appimage"@
        || e == "pkg"@ || e == "dmg"@ || e == "flatpak"@ || e == "snap"@
}

/// The category of an already lowercased extension.
pub open spec fn extension_category(e: Seq<char>) -> FileCategory {
    if is_video_ext(e) {
        FileCategory::Video
    } else if is_audio_ext(e) {
        FileCategory::Audio
    } else if is_archive_ext(e) {
        FileCategory::Archive
    } else if is_program_ext(e) {
        FileCategory::Programs
    } else {
        FileCategory::Other
    }
}

/// The characters of the extension texts the categories name.
proof fn lemma_extension_texts()
    ensures
        "mkv"@.len() == 3,
        "mkv"@[0] == 'm',
        "mkv"@[1] == 'k',
        "mkv"@[2] == 'v',
        "mp4"@.len() == 3,
        "mp4"@[0] == 'm',
        "mp4"@[1] == 'p',
        "mp4"@[2] == '4',
        "avi"@.len() == 3,
        "avi"@[0] == 'a',
        "avi"@[1] == 'v',
        "avi"@[2] == 'i',
        "mov"@.len() == 3,
        "mov"@[0] == 'm',
        "mov"@[1] == 'o',
        "mov"@[2] == 'v',
        "wmv"@.len() == 3,
        "wmv"@[0] == 'w',
        "wmv"@[1] == 'm',
        "wmv"@[2] == 'v',
        "flv"@.len() == 3,
        "flv"@[0] == 'f',
        "flv"@[1] == 'l',
        "flv"@[2] == 'v',
        "m2ts"@.len() == 4,
        "m2ts"@[0] == 'm',
        "m2ts"@[1] == '2',
        "m2ts"@[2] == 't',
        "m2ts"@[3] == 's',
        "ts"@.len() == 2,
        "ts"@[0] == 't',
        "ts"@[1] == 's',
        "m4v"@.len() == 3,
        "m4v"@[0] == 'm',
        "m4v"@[1] == '4',
        "m4v"@[2] == 'v',
        "webm"@.len() == 4,
        "webm"@[0] == 'w',
        "webm"@[1] == 'e',
        "webm"@[2] == 'b',
        "webm"@[3] == 'm',
        "vob"@.len() == 3,
        "vob"@[0] == 'v',
        "vob"@[1] == 'o',
        "vob"@[2] == 'b',
        "mpg"@.len() == 3,
        "mpg"@[0] == 'm',
        "mpg"@[1] == 'p',
        "mpg"@[2] == 'g',
        "mpeg"@.len() == 4,
        "mpeg"@[0] == 'm',
        "mpeg"@[1] == 'p',
        "mpeg"@[2] == 'e',
        "mpeg"@[3] == 'g',
        "mp3"@.len() == 3,
        "mp3"@[0] == 'm',
        "mp3"@[1] == 'p',
        "mp3"@[2] == '3',
        "flac"@.len() == 4,
        "flac"@[0] == 'f',
        "flac"@[1] == 'l',
        "flac"@[2] == 'a',
        "flac"@[3] == 'c',
        "aac"@.len() == 3,
        "aac"@[0] == 'a',
        "aac"@[1] == 'a',
        "aac"@[2] == 'c',
        "ogg"@.len() == 3,
        "ogg"@[0] == 'o',
        "ogg"@[1] == 'g',
        "ogg"@[2] == 'g',
        "wav"@.len() == 3,
        "wav"@[0] == 'w',
        "wav"@[1] == 'a',
        "wav"@[2] == 'v',
        "m4a"@.len() == 3,
        "m4a"@[0] == 'm',
        "m4a"@[1] == '4',
        "m4a"@[2] == 'a',
        "opus"@.len() == 4,
        "opus"@[0] == 'o',
        "opus"@[1] == 'p',
        "opus"@[2] == 'u',
        "opus"@[3] == 's',
        "wma"@.len() == 3,
        "wma"@[0] == 'w',
        "wma"@[1] == 'm',
        "wma"@[2] == 'a',
        "alac"@.len() == 4,
        "alac"@[0] == 'a',
        "alac"@[1] == 'l',
        "alac"@[2] == 'a',
        "alac"@[3] == 'c',
        "ape"@.len() == 3,
        "ape"@[0] == 'a',
        "ape"@[1] == 'p',
        "ape"@[2] == 'e',
        "zip"@.len() == 3,
        "zip"@[0] == 'z',
        "zip"@[1] == 'i',
        "zip"@[2] == 'p',
        "rar"@.len() == 3,
        "rar"@[0] == 'r',
        "rar"@[1] == 'a',
        "rar"@[2] == 'r',
        "7z"@.len() == 2,
        "7z"@[0] == '7',
        "7z"@[1] == 'z',
        "tar"@.len() == 3,
        "tar"@[0] == 't',
        "tar"@[1] == 'a',
        "tar"@[2] == 'r',
        "gz"@.len() == 2,
        "gz"@[0] == 'g',
        "gz"@[1] == 'z',
        "bz2"@.len() == 3,
        "bz2"@[0] == 'b',
        "bz2"@[1] == 'z',
        "bz2"@[2] == '2',
        "xz"@.len() == 2,
        "xz"@[0] == 'x',
        "xz"@[1] == 'z',
        "zst"@.len() == 3,
        "zst"@[0] == 'z',
        "zst"@[1] == 's',
        "zst"@[2] == 't',
        "cbz"@.len() == 3,
        "cbz"@[0] == 'c',
        "cbz"@[1] == 'b',
        "cbz"@[2] == 'z',
        "cbr"@.len() == 3,
        "cbr"@[0] == 'c',
        "cbr"@[1] == 'b',
        "cbr"@[2] == 'r',
        "iso"@.len() == 3,
        "iso"@[0] == 'i',
        "iso"@[1] == 's',
        "iso"@[2] == 'o',
        "tgz"@.len() == 3,
        "tgz"@[0] == 't',
        "tgz"@[1] == 'g',
        "tgz"@[2] == 'z',
        "tbz2"@.len() == 4,
        "tbz2"@[0] == 't',
        "tbz2"@[1] == 'b',
        "tbz2"@[2] == 'z',
        "tbz2"@[3] == '2',
        "exe"@.len() == 3,
        "exe"@[0] == 'e',
        "exe"@[1] == 'x',
        "exe"@[2] == 'e',
        "msi"@.len() == 3,
        "msi"@[0] == 'm',
        "msi"@[1] == 's',
        "msi"@[2] == 'i',
        "deb"@.len() == 3,
        "deb"@[0] == 'd',
        "deb"@[1] == 'e',
        "deb"@[2] == 'b',
        "rpm"@.len() == 3,
        "rpm"@[0] == 'r',
        "rpm"@[1] == 'p',
        "rpm"@[2] == 'm',
        "appimage"@.len() == 8,
        "appimage"@[0] == 'a',
        "appimage"@[1] == 'p',
        "appimage"@[2] == 'p',
        "appimage"@[3] == 'i',
        "appimage"@[4] == 'm',
        "appimage"@[5] == 'a',
        "appimage"@[6] == 'g',
        "appimage"@[7] == 'e',
        "pkg"@.len() == 3,
        "pkg"@[0] == 'p',
        "pkg"@[1] == 'k',
        "pkg"@[2] == 'g',
        "dmg"@.len() == 3,
        "dmg"@[0] == 'd',
        "dmg"@[1] == 'm',
        "dmg"@[2] == 'g',
        "flatpak"@.len() == 7,
        "flatpak"@[0] == 'f',
        "flatpak"@[1] == 'l',
        "flatpak"@[2] == 'a',
        "flatpak"@[3] == 't',
        "flatpak"@[4] == 'p',
        "flatpak"@[5] == 'a',
        "flatpak"@[6] == 'k',
        "snap"@.len() == 4,
        "snap"@[0] == 's',
        "snap"@[1] == 'n',
        "snap"@[2] == 'a',
        "snap"@[3] == 'p',
        "txt"@.len() == 3,
        "txt"@[0] == 't',
        "txt"@[1] == 'x',
        "txt"@[2] == 't',
        ""@.len() == 0,
        "MP3"@.len() == 3,
        "MP3"@[0] == 'M',
        "MP3"@[1] == 'P',
        "MP3"@[2] == '3',
        "mkv.part"@.len() == 8,
        "mkv.part"@[0] == 'm',
        "mkv.part"@[1] == 'k',
        "mkv.part"@[2] == 'v',
        "mkv.part"@[3] == '.',
        "mkv.part"@[4] == 'p',
        "mkv.part"@[5] == 'a',
        "mkv.part"@[6] == 'r',
        "mkv.part"@[7] == 't',
{
    reveal_strlit("mkv");
    reveal_strlit("mp4");
    reveal_strlit("avi");
    reveal_strlit("mov");
    reveal_strlit("wmv");
    reveal_strlit("flv");
    reveal_strlit("m2ts");
    reveal_strlit("ts");
    reveal_strlit("m4v");
    reveal_strlit("webm");
    reveal_strlit("vob");
    reveal_strlit("mpg");
    reveal_strlit("mpeg");
    reveal_strlit("mp3");
    reveal_strlit("flac");
    reveal_strlit("aac");
    reveal_strlit("ogg");
    reveal_strlit("wav");
    reveal_strlit("m4a");
    reveal_strlit("opus");
    reveal_strlit("wma");
    reveal_strlit("alac");
    reveal_strlit("ape");
    reveal_strlit("zip");
    reveal_strlit("rar");
    reveal_strlit("7z");
    reveal_strlit("tar");
    reveal_strlit("gz");
    reveal_strlit("bz2");
    reveal_strlit("xz");
    reveal_strlit("zst");
    reveal_strlit("cbz");
    reveal_strlit("cbr");
    reveal_strlit("iso");
    reveal_strlit("tgz");
    reveal_strlit("tbz2");
    reveal_strlit("exe");
    reveal_strlit("msi");
    reveal_strlit("deb");
    reveal_strlit("rpm");
    reveal_strlit("appimage");
    reveal_strlit("pkg");
    reveal_strlit("dmg");
    reveal_strlit("flatpak");
    reveal_strlit("snap");
    reveal_strlit("txt");
    reveal_strlit("");
    reveal_strlit("MP3");
    reveal_strlit("mkv.part");
}

/// Each video extension the client knows falls in the Video category.
pub proof fn lemma_video_extensions()
    ensures
        extension_category("mkv"@) == FileCategory::Video,
        extension_category("mp4"@) == FileCategory::Video,
        extension_category("avi"@) == FileCategory::Video,
        extension_category("mov"@) == FileCategory::Video,
        extension_category("wmv"@) == FileCategory::Video,
        extension_category("flv"@) == FileCategory::Video,
        extension_category("m2ts"@) == FileCategory::Video,
        extension_category("ts"@) == FileCategory::Video,
        extension_category("m4v"@) == FileCategory::Video,
        extension_category("webm"@) == FileCategory::Video,
        extension_category("vob"@) == FileCategory::Video,
        extension_category("mpg"@) == FileCategory::Video,
        extension_category("mpeg"@) == FileCategory::Video,
{
    lemma_extension_texts();
}

/// Each audio extension the client knows falls in the Audio category.
pub proof fn lemma_audio_extensions()
    ensures
        extension_category("mp3"@) == FileCategory::Audio,
        extension_category("flac"@) == FileCategory::Audio,
        extension_category("aac"@) == FileCategory::Audio,
        extension_category("ogg"@) == FileCategory::Audio,
        extension_category("wav"@) == FileCategory::Audio,
        extension_category("m4a"@) == FileCategory::Audio,
        extension_category("opus"@) == FileCategory::Audio,
        extension_category("wma"@) == FileCategory::Audio,
        extension_category("alac"@) == FileCategory::Audio,
        extension_category("ape"@) == FileCategory::Audio,
{
    lemma_extension_texts();
}

/// Each archive extension the client knows falls in the Archive category.
pub proof fn lemma_archive_extensions()
    ensures
        extension_category("zip"@) == FileCategory::Archive,
        extension_category("rar"@) == FileCategory::Archive,
        extension_category("7z"@) == FileCategory::Archive,
        extension_category("tar"@) == FileCategory::Archive,
        extension_category("gz"@) == FileCategory::Archive,
        extension_category("bz2"@) == FileCategory::Archive,
        extension_category("xz"@) == FileCategory::Archive,
        extension_category("zst"@) == FileCategory::Archive,
        extension_category("cbz"@) == FileCategory::Archive,
        extension_category("cbr"@) == FileCategory::Archive,
        extension_category("iso"@) == FileCategory::Archive,
        extension_category("tgz"@) == FileCategory::Archive,
        extension_category("tbz2"@) == FileCategory::Archive,
{
    lemma_extension_texts();
}

/// Each program extension the client knows falls in the Programs category.
pub proof fn lemma_program_extensions()
    ensures
        extension_category("exe"@) == FileCategory::Programs,
        extension_category("msi"@) == FileCategory::Programs,
        extension_category("deb"@) == FileCategory::Programs,
        extension_category("rpm"@) == FileCategory::Programs,
        extension_category("appimage"@) == FileCategory::Programs,
        extension_category("pkg"@) == FileCategory::Programs,
        extension_category("dmg"@) == FileCategory::Programs,
        extension_category("flatpak"@) == FileCategory::Programs,
        extension_category("snap"@) == FileCategory::Programs,
{
    lemma_extension_texts();
}

/// Extensions the client does not know, and upper-case spellings (which
/// `detect_file_category` lowercases first), fall in no named category.
pub proof fn lemma_unknown_extensions()
    ensures
        extension_category("txt"@) == FileCategory::Other,
        extension_category(""@) == FileCategory::Other,
        extension_category("MP3"@) == FileCategory::Other,
        extension_category("mkv.part"@) == FileCategory::Other,
{
    lemma_extension_texts();
}

fn is(v: &[char], lit: &str) -> (r: bool)
    ensures
        r == (v@ == lit@),
{
    let w = chars_of(lit);
    chars_eq(v, w.as_slice())
}

/// The category of an extension that is already in lower case.
pub fn category_of_extension(ext: &str) -> (c: FileCategory)
    ensures
        c == extension_category(ext@),
{
    let e = chars_of(ext);
    let v = e.as_slice();
    if is(v, "mkv") || is(v, "mp4") || is(v, "avi") || is(v, "mov") || is(v, "wmv") || is(v, "flv")
        || is(v, "m2ts") || is(v, "ts") || is(v, "m4v") || is(v, "webm") || is(v, "vob")
        || is(v, "mpg") || is(v, "mpeg") {
        FileCategory::Video
    } else if is(v, "mp3") || is(v, "flac") || is(v, "aac") || is(v, "ogg") || is(v, "wav")
        || is(v, "m4a") || is(v, "opus") || is(v, "wma") || is(v, "alac") || is(v, "ape") {
        FileCategory::Audio
    } else if is(v, "zip") || is(v, "rar") || is(v, "7z") || is(v, "tar") || is(v, "gz")
        || is(v, "bz2") || is(v, "xz") || is(v, "zst") || is(v, "cbz") || is(v, "cbr")
        || is(v, "iso") || is(v, "tgz") || is(v, "tbz2") {
        FileCategory::Archive
    } else if is(v, "exe") || is(v, "msi") || is(v, "deb") || is(v, "rpm") || is(v, "appimage")
        || is(v, "pkg") || is(v, "dmg") || is(v, "flatpak") || is(v, "snap") {
        FileCategory::Programs
    } else {
        FileCategory::Other
    }
}

/// The extension of a file name as the categories read it: the text after
/// the last `.`, or the whole name.
pub fn file_extension(filename: &str) -> (ext: String)
    ensures
        ext@ == last_segment(filename@),
{
    let v = chars_of(filename);
    match rfind_char(v.as_slice(), '.') {
        Some(i) => {
            assert(i < v.len());
            let tail = &v.as_slice()[i + 1..v.len()];
            assert(tail@ =~= v@.skip(i + 1));
            string_from_chars(tail)
        },
        None => string_from_chars(v.as_slice()),
    }
}

/// The category of a file by its extension, compared in lower case.
pub fn detect_file_category(filename: &str) -> (c: FileCategory)
    ensures
        c == extension_category(lowercase(last_segment(filename@))),
{
    let ext = file_extension(filename);
    let lower = to_lowercase(ext.as_str());
    category_of_extension(lower.as_str())
}

} // verus!
