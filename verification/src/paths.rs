use std::path::Path;
use vstd::prelude::*;
use vstd::string::StrSliceExecFns;

verus! {

// ---------------------------------------------------------------------------
// What std::path and std's text functions give; paths are held as text.
// `Path` splits a path by the rules of the platform the crate is built for
// (`/` on Unix; `/`, `\\` and prefixes such as `C:` on Windows), so each name
// below stands for the function of the build's platform.
// ---------------------------------------------------------------------------

/// The extension that `Path::extension` finds in a path.
pub uninterp spec fn spec_path_extension(path: Seq<char>) -> Option<Seq<char>>;

/// The parent that `Path::parent` finds for a path.
pub uninterp spec fn spec_path_parent(path: Seq<char>) -> Option<Seq<char>>;

/// The path that `Path::join` builds from a base and a part.
pub uninterp spec fn spec_path_join(base: Seq<char>, part: Seq<char>) -> Seq<char>;

/// The last component that `Path::file_name` finds in a path.
pub uninterp spec fn spec_path_file_name(path: Seq<char>) -> Option<Seq<char>>;

/// Whether two paths are equal for `Path`'s `==`, which compares components.
pub uninterp spec fn spec_path_eq(a: Seq<char>, b: Seq<char>) -> bool;

/// The text that `str::to_lowercase` gives.
pub uninterp spec fn spec_to_lowercase(s: Seq<char>) -> Seq<char>;

/// The characters with the Unicode `White_Space` property, which
/// `char::is_whitespace` tests for: U+0009 to U+000D, U+0020, U+0085, U+00A0,
/// U+1680, U+2000 to U+200A, U+2028, U+2029, U+202F, U+205F and U+3000.
pub open spec fn spec_is_whitespace(c: char) -> bool {
    let n = c as u32;
    ||| 0x9 <= n <= 0xD
    ||| n == 0x20
    ||| n == 0x85
    ||| n == 0xA0
    ||| n == 0x1680
    ||| 0x2000 <= n <= 0x200A
    ||| n == 0x2028
    ||| n == 0x2029
    ||| n == 0x202F
    ||| n == 0x205F
    ||| n == 0x3000
}

/// Calls `Path::extension`; the extension of a `&str` path is valid text, so
/// the lossy conversion is exact.
#[verifier::external_body]
pub(crate) fn path_extension(path: &str) -> (r: Option<String>)
    ensures
        r is Some <==> spec_path_extension(path@) is Some,
        r matches Some(e) ==> e@ == spec_path_extension(path@)->0,
{
    match Path::new(path).extension() {
        Some(e) => Some(e.to_string_lossy().into_owned()),
        None => None,
    }
}

/// Calls `Path::parent`.
#[verifier::external_body]
pub(crate) fn path_parent(path: &str) -> (r: Option<String>)
    ensures
        r is Some <==> spec_path_parent(path@) is Some,
        r matches Some(p) ==> p@ == spec_path_parent(path@)->0,
{
    match Path::new(path).parent() {
        Some(p) => Some(p.to_string_lossy().into_owned()),
        None => None,
    }
}

/// Calls `Path::join`.
#[verifier::external_body]
pub(crate) fn path_join(base: &str, part: &str) -> (r: String)
    ensures
        r@ == spec_path_join(base@, part@),
{
    Path::new(base).join(part).to_string_lossy().into_owned()
}

/// Calls `Path::file_name`.
#[verifier::external_body]
pub(crate) fn path_file_name(path: &str) -> (r: Option<String>)
    ensures
        r is Some <==> spec_path_file_name(path@) is Some,
        r matches Some(n) ==> n@ == spec_path_file_name(path@)->0,
{
    match Path::new(path).file_name() {
        Some(n) => Some(n.to_string_lossy().into_owned()),
        None => None,
    }
}

/// Compares two paths with `Path`'s `==`; as `Path` is `Eq`, a path equals
/// itself.
#[verifier::external_body]
pub(crate) fn path_eq(a: &str, b: &str) -> (r: bool)
    ensures
        r == spec_path_eq(a@, b@),
        a@ == b@ ==> r,
{
    Path::new(a) == Path::new(b)
}

/// Calls `str::to_lowercase`.
#[verifier::external_body]
pub(crate) fn to_lowercase(s: &str) -> (r: String)
    ensures
        r@ == spec_to_lowercase(s@),
{
    s.to_lowercase()
}

/// Calls `char::is_whitespace`, which std documents as the Unicode
/// `White_Space` property: the characters `spec_is_whitespace` lists.
#[verifier::external_body]
pub(crate) fn char_is_whitespace(c: char) -> (r: bool)
    ensures
        r == spec_is_whitespace(c),
{
    c.is_whitespace()
}

// ---------------------------------------------------------------------------
// Text helpers
// ---------------------------------------------------------------------------

/// Whether `text` holds the character `c` (as `str::contains` with a `char`).
pub fn text_contains_char(text: &str, c: char) -> (r: bool)
    ensures
        r == text@.contains(c),
{
    let n = text.unicode_len();
    let mut i: usize = 0;
    while i < n
        invariant
            n == text@.len(),
            i <= n,
            forall|j: int| 0 <= j < i ==> text@[j] != c,
        decreases n - i,
    {
        if text.get_char(i) == c {
            assert(text@[i as int] == c);
            return true;
        }
        i = i + 1;
    }
    false
}

/// Every character of `s` is whitespace, which is when `s.trim()` is empty.
pub open spec fn is_blank_spec(s: Seq<char>) -> bool {
    forall|i: int| 0 <= i < s.len() ==> spec_is_whitespace(#[trigger] s[i])
}

/// Whether `text.trim().is_empty()`.
pub fn is_blank(text: &str) -> (r: bool)
    ensures
        r == is_blank_spec(text@),
        r <==> forall|i: int| 0 <= i < text@.len() ==> spec_is_whitespace(#[trigger] text@[i]),
        !r <==> exists|i: int| 0 <= i < text@.len() && !spec_is_whitespace(#[trigger] text@[i]),
{
    let n = text.unicode_len();
    let mut i: usize = 0;
    while i < n
        invariant
            n == text@.len(),
            i <= n,
            forall|j: int| 0 <= j < i ==> spec_is_whitespace(#[trigger] text@[j]),
        decreases n - i,
    {
        if !char_is_whitespace(text.get_char(i)) {
            return false;
        }
        i = i + 1;
    }
    true
}

// ---------------------------------------------------------------------------
// Audio files
// ---------------------------------------------------------------------------

/// The lower-case extensions of the audio files the workstation opens.
pub open spec fn is_audio_extension_spec(ext: Seq<char>) -> bool {
    ext == "wav"@ || ext == "mp3"@ || ext == "ogg"@ || ext == "flac"@
}

/// Whether a lower-case extension names a supported audio format.
pub fn is_audio_extension(ext: &str) -> (r: bool)
    ensures
        r == is_audio_extension_spec(ext@),
{
    let e = ext.to_owned();
    e == "wav".to_owned() || e == "mp3".to_owned() || e == "ogg".to_owned() || e
        == "flac".to_owned()
}

/// Whether the file at `path` has a supported audio extension, in any case.
pub open spec fn is_supported_audio_file_spec(path: Seq<char>) -> bool {
    match spec_path_extension(path) {
        Some(ext) => is_audio_extension_spec(spec_to_lowercase(ext)),
        None => false,
    }
}

/// Check if a file has a supported audio extension.
pub fn is_supported_audio_file(path: &str) -> (r: bool)
    ensures
        r == is_supported_audio_file_spec(path@),
{
    match path_extension(path) {
        Some(ext) => {
            let lower = to_lowercase(ext.as_str());
            is_audio_extension(lower.as_str())
        },
        None => false,
    }
}

// ---------------------------------------------------------------------------
// Project folders
// ---------------------------------------------------------------------------

/// The folder that holds a project file: its parent, or the empty path.
pub open spec fn project_folder_spec(project_path: Seq<char>) -> Seq<char> {
    match spec_path_parent(project_path) {
        Some(p) => p,
        None => Seq::empty(),
    }
}

/// The folder that holds a project file: its parent, or the empty path.
pub fn project_folder(project_path: &str) -> (r: String)
    ensures
        r@ == project_folder_spec(project_path@),
{
    match path_parent(project_path) {
        Some(p) => p,
        None => String::new(),
    }
}

/// The folder that holds a file, when its path has a parent; group folders
/// are placed there, and nothing is done for a path without one.
pub fn containing_folder(path: &str) -> (r: Option<String>)
    ensures
        r is Some <==> spec_path_parent(path@) is Some,
        r matches Some(p) ==> p@ == spec_path_parent(path@)->0,
        r matches Some(p) ==> p@ == project_folder_spec(path@),
{
    path_parent(path)
}

/// The folder where the waveforms of a project are kept.
pub open spec fn project_dir_spec(project_path: Seq<char>) -> Seq<char> {
    spec_path_join(project_folder_spec(project_path), "waveforms"@)
}

/// The `waveforms` folder next to a project file.
pub fn get_project_dir(project_path: &str) -> (r: String)
    ensures
        r@ == project_dir_spec(project_path@),
{
    let folder = project_folder(project_path);
    path_join(folder.as_str(), "waveforms")
}

/// The display name of the file at a path: its last component, or `Unknown`.
pub open spec fn file_display_name_spec(path: Seq<char>) -> Seq<char> {
    match spec_path_file_name(path) {
        Some(n) => n,
        None => "Unknown"@,
    }
}

/// The display name of the file at a path: its last component, or `Unknown`.
pub fn file_display_name(path: &str) -> (r: String)
    ensures
        r@ == file_display_name_spec(path@),
{
    match path_file_name(path) {
        Some(n) => n,
        None => "Unknown".to_owned(),
    }
}

/// The audio files among dropped or dragged paths, in their order.
pub open spec fn audio_files_among(paths: Seq<String>) -> Seq<String>
    decreases paths.len(),
{
    if paths.len() == 0 {
        Seq::empty()
    } else {
        let rest = audio_files_among(paths.drop_last());
        if is_supported_audio_file_spec(paths.last()@) {
            rest.push(paths.last())
        } else {
            rest
        }
    }
}

/// Keep only the paths of supported audio files, in their order, as the grid
/// does with files dragged over it or dropped on it.
pub fn audio_files_only(paths: &Vec<String>) -> (r: Vec<String>)
    ensures
        r@ == audio_files_among(paths@),
{
    let n = paths.len();
    let mut out: Vec<String> = Vec::new();
    let mut i: usize = 0;
    while i < n
        invariant
            n == paths@.len(),
            i <= n,
            out@ == audio_files_among(paths@.take(i as int)),
        decreases n - i,
    {
        proof {
            assert(paths@.take(i + 1).drop_last() =~= paths@.take(i as int));
            assert(paths@.take(i + 1).last() == paths@[i as int]);
        }
        if is_supported_audio_file(paths[i].as_str()) {
            out.push(paths[i].clone());
        }
        i = i + 1;
    }
    assert(paths@.take(n as int) =~= paths@);
    out
}

} // verus!
