//! Paths as text: where a file lies below the root, what it is called, and
//! whether its extension marks it as a media file.
//!
//! Taking a path apart is left to `std::path`, which knows the separators of
//! the platform the crate is built for. Each call stands behind a trusted
//! function whose result is named, so that what is built on them is exact.

use crate::filename::same_text;
use std::path::Path;
use vstd::prelude::*;
use vstd::string::*;

verus! {

/// What `Path::strip_prefix` leaves of `path` after `base`; `None` where
/// `base` is not a prefix of `path`.
pub uninterp spec fn path_strip_prefix(path: Seq<char>, base: Seq<char>) -> Option<Seq<char>>;

/// The path that `Path::parent` gives for `path`; `None` where it has none.
pub uninterp spec fn path_parent(path: Seq<char>) -> Option<Seq<char>>;

/// The final component that `Path::file_name` gives for `path`; `None` where
/// the path ends in `..` or has no component.
pub uninterp spec fn path_file_name(path: Seq<char>) -> Option<Seq<char>>;

/// The extension that `Path::extension` gives for `path`, without the dot;
/// `None` where the file name has none.
pub uninterp spec fn path_extension(path: Seq<char>) -> Option<Seq<char>>;

/// `text` as `str::to_lowercase` returns it.
pub uninterp spec fn lowercase(text: Seq<char>) -> Seq<char>;

/// Calls `Path::strip_prefix`. Trusted: the result is `path_strip_prefix` of
/// the two texts, `None` standing for the error.
#[verifier::external_body]
fn strip_prefix(path: &str, base: &str) -> (rest: Option<String>)
    ensures
        rest is Some <==> path_strip_prefix(path@, base@) is Some,
        rest matches Some(r) ==> Some(r@) == path_strip_prefix(path@, base@),
{
    match Path::new(path).strip_prefix(base) {
        Ok(rest) => Some(rest.to_string_lossy().into_owned()),
        Err(_) => None,
    }
}

/// Calls `Path::parent`. Trusted: the result is `path_parent` of the text.
#[verifier::external_body]
fn parent(path: &str) -> (dir: Option<String>)
    ensures
        dir is Some <==> path_parent(path@) is Some,
        dir matches Some(d) ==> Some(d@) == path_parent(path@),
{
    match Path::new(path).parent() {
        Some(dir) => Some(dir.to_string_lossy().into_owned()),
        None => None,
    }
}

/// Calls `Path::file_name`. Trusted: the result is `path_file_name` of the
/// text.
#[verifier::external_body]
fn file_name(path: &str) -> (name: Option<String>)
    ensures
        name is Some <==> path_file_name(path@) is Some,
        name matches Some(n) ==> Some(n@) == path_file_name(path@),
{
    match Path::new(path).file_name() {
        Some(name) => Some(name.to_string_lossy().into_owned()),
        None => None,
    }
}

/// Calls `Path::extension`. Trusted: the result is `path_extension` of the
/// text.
#[verifier::external_body]
fn extension_of(path: &str) -> (ext: Option<String>)
    ensures
        ext is Some <==> path_extension(path@) is Some,
        ext matches Some(e) ==> Some(e@) == path_extension(path@),
{
    match Path::new(path).extension() {
        Some(ext) => Some(ext.to_string_lossy().into_owned()),
        None => None,
    }
}

/// Calls `str::to_lowercase`. Trusted: the result is `lowercase` of the text.
#[verifier::external_body]
fn to_lowercase(text: &str) -> (lower: String)
    ensures
        lower@ == lowercase(text@),
{
    text.to_lowercase()
}

/// `path` relative to `root`; empty where `path` does not lie below `root`.
pub open spec fn relative_path(root: Seq<char>, path: Seq<char>) -> Seq<char> {
    match path_strip_prefix(path, root) {
        Some(rest) => rest,
        None => Seq::empty(),
    }
}

/// The directory of the file at `filepath`, relative to `root`. A path that
/// does not lie below `root` is taken whole; a path without a parent has the
/// empty directory.
pub open spec fn dir_path(root: Seq<char>, filepath: Seq<char>) -> Seq<char> {
    let relative = match path_strip_prefix(filepath, root) {
        Some(rest) => rest,
        None => filepath,
    };
    match path_parent(relative) {
        Some(dir) => dir,
        None => Seq::empty(),
    }
}

/// The file name at the end of `path`; empty where the path has none.
pub open spec fn base_name(path: Seq<char>) -> Seq<char> {
    match path_file_name(path) {
        Some(name) => name,
        None => Seq::empty(),
    }
}

/// Whether `ext`, in lower case and without a dot, is one of the media
/// extensions.
pub open spec fn video_format(ext: Seq<char>) -> bool {
    ||| ext == "mp4"@
    ||| ext == "flv"@
    ||| ext == "mkv"@
    ||| ext == "avi"@
    ||| ext == "mov"@
    ||| ext == "wmv"@
    ||| ext == "webm"@
    ||| ext == "m4v"@
    ||| ext == "mpg"@
    ||| ext == "mpeg"@
    ||| ext == "ts"@
}

/// Whether the extension of `path`, whatever its case, is a media extension.
pub open spec fn media_path(path: Seq<char>) -> bool {
    match path_extension(path) {
        Some(ext) => video_format(lowercase(ext)),
        None => false,
    }
}

/// Whether `text` reads as `word` does.
fn reads(text: &String, word: &str) -> (same: bool)
    ensures
        same == (text@ == word@),
{
    same_text(text, &String::from_str(word))
}

/// `path` relative to `root`, or the empty text where `path` is not below it.
pub fn get_relative_path(root: &str, path: &str) -> (relative: String)
    ensures
        relative@ == relative_path(root@, path@),
{
    match strip_prefix(path, root) {
        Some(rest) => rest,
        None => String::new(),
    }
}

/// The directory that holds the file at `filepath`, relative to `root`.
pub fn get_dir_path(root: &str, filepath: &str) -> (dir: String)
    ensures
        dir@ == dir_path(root@, filepath@),
{
    let relative = match strip_prefix(filepath, root) {
        Some(rest) => rest,
        None => String::from_str(filepath),
    };
    match parent(relative.as_str()) {
        Some(dir) => dir,
        None => String::new(),
    }
}

/// The file name at the end of `path`, or the empty text.
pub fn get_file_name(path: &str) -> (name: String)
    ensures
        name@ == base_name(path@),
{
    match file_name(path) {
        Some(name) => name,
        None => String::new(),
    }
}

/// The name under which a directory is shown: `root` for the root of the
/// run, whose relative path is empty, and the relative path for any other.
pub open spec fn directory_label(dir: Seq<char>) -> Seq<char> {
    if dir.len() == 0 {
        "root"@
    } else {
        dir
    }
}

/// The name under which the directory with relative path `dir` is shown.
pub fn display_name(dir: &str) -> (label: String)
    ensures
        label@ == directory_label(dir@),
{
    if dir.unicode_len() == 0 {
        String::from_str("root")
    } else {
        String::from_str(dir)
    }
}

/// Whether `ext` is one of the eleven media extensions. The comparison is
/// exact: callers lower the case first.
pub fn is_video_format(ext: &str) -> (known: bool)
    ensures
        known == video_format(ext@),
{
    let ext = String::from_str(ext);
    reads(&ext, "mp4") || reads(&ext, "flv") || reads(&ext, "mkv") || reads(&ext, "avi") || reads(
        &ext,
        "mov",
    ) || reads(&ext, "wmv") || reads(&ext, "webm") || reads(&ext, "m4v") || reads(&ext, "mpg")
        || reads(&ext, "mpeg") || reads(&ext, "ts")
}

/// Whether the file at `path` counts as a media file: it has an extension
/// which, in lower case, is on the list.
pub fn is_media_path(path: &str) -> (media: bool)
    ensures
        media == media_path(path@),
{
    match extension_of(path) {
        Some(ext) => {
            let lower = to_lowercase(ext.as_str());
            is_video_format(lower.as_str())
        },
        None => false,
    }
}

/// A media file seen during a run: its path, the directory that holds it
/// (relative to the root of the run), and its file name.
pub struct MediaFile {
    pub path: String,
    pub dir: String,
    pub name: String,
}

/// What a `MediaFile` stands for.
pub struct FileModel {
    pub path: Seq<char>,
    pub dir: Seq<char>,
    pub name: Seq<char>,
}

impl View for MediaFile {
    type V = FileModel;

    open spec fn view(&self) -> FileModel {
        FileModel { path: self.path@, dir: self.dir@, name: self.name@ }
    }
}

/// The file at `path` as a run rooted at `root` sees it.
pub open spec fn located(root: Seq<char>, path: Seq<char>) -> FileModel {
    FileModel { path: path, dir: dir_path(root, path), name: base_name(path) }
}

impl MediaFile {
    /// A media file from its three parts.
    pub fn new(path: &str, dir: &str, name: &str) -> (file: MediaFile)
        ensures
            file@ == (FileModel { path: path@, dir: dir@, name: name@ }),
    {
        MediaFile {
            path: String::from_str(path),
            dir: String::from_str(dir),
            name: String::from_str(name),
        }
    }

    /// The media file at `path`, with its directory taken relative to `root`
    /// and its name taken from the end of the path.
    pub fn locate(root: &str, path: &str) -> (file: MediaFile)
        ensures
            file@ == located(root@, path@),
    {
        MediaFile {
            path: String::from_str(path),
            dir: get_dir_path(root, path),
            name: get_file_name(path),
        }
    }

    /// A copy of this file.
    pub fn duplicate(&self) -> (copy: MediaFile)
        ensures
            copy@ == self@,
    {
        MediaFile { path: self.path.clone(), dir: self.dir.clone(), name: self.name.clone() }
    }
}

} // verus!
