//! Clipboard history rows as the history table stores them, and the checks
//! that turn a stored row into a history item.
use vstd::prelude::*;

use crate::clipboard::{content_kind_name, ClipboardContentKind, JS_MAX_SAFE_INTEGER};
use crate::hdrop::{MAX_CLIPBOARD_FILES, MAX_CLIPBOARD_FILE_PATHS_JSON_BYTES};
use crate::settings::ClipboardSettingsError;
use crate::settings_store::StorageError;
use crate::text::{decode_utf16_lossy, str_equal, utf16_decode_lossy};

verus! {

/// Why a clipboard history operation failed.
#[derive(Debug, Clone, Copy, PartialEq, Eq, Structural)]
pub enum ClipboardError {
    Storage(StorageError),
    EmptyText,
    TextTooLarge,
    SourceApplicationTooLong,
    SourceProcessTooLong,
    SearchTooLong,
    NumericRange,
    InvalidLimit,
    NotFound,
    NoLatestItem,
    DuplicateText,
    RevisionConflict,
    InvalidFiles,
    FilesUnavailable,
    CorruptRecord,
    LifecycleLockPoisoned,
    Image(ImageError),
    SourceIcon,
    Settings(ClipboardSettingsError),
    SettingsLockPoisoned,
}

/// Why a managed image could not be stored or read.
#[derive(Debug, Clone, Copy, PartialEq, Eq, Structural)]
pub enum ImageError {
    TooLarge,
    Missing,
    Corrupt,
    InvalidReference,
    InvalidImage,
    Io,
    Storage,
    Encode,
}

/// A text value of an optional column.
pub open spec fn opt_text(value: Option<String>) -> Option<Seq<char>> {
    match value {
        Some(text) => Some(text@),
        None => None,
    }
}

/// The code units of each path.
pub open spec fn unit_lists(paths: Seq<Vec<u16>>) -> Seq<Seq<u16>> {
    Seq::new(paths.len(), |i: int| paths[i]@)
}

/// An optional list of paths as code units.
pub open spec fn opt_unit_lists(paths: Option<Vec<Vec<u16>>>) -> Option<Seq<Seq<u16>>> {
    match paths {
        Some(list) => Some(unit_lists(list@)),
        None => None,
    }
}

/// The file paths that JSON text holds, when it is a JSON array of arrays of
/// 16-bit integers (`serde_json::from_str::<Vec<Vec<u16>>>`).
pub uninterp spec fn json_path_lists(text: Seq<char>) -> Option<Seq<Seq<u16>>>;

/// The JSON text `serde_json::to_string` writes for a list of paths.
pub uninterp spec fn path_lists_json(paths: Seq<Seq<u16>>) -> Seq<char>;

/// `serde_json::from_str::<Vec<Vec<u16>>>(text).ok()`.
#[verifier::external_body]
fn parse_path_lists_json(text: &str) -> (result: Option<Vec<Vec<u16>>>)
    ensures
        opt_unit_lists(result) == json_path_lists(text@),
{
    serde_json::from_str::<Vec<Vec<u16>>>(text).ok()
}

/// `serde_json::to_string(paths).ok()`. Writing a list of integer lists
/// into a string cannot fail, and `serde_json::from_str` reads the text back
/// as the same lists.
#[verifier::external_body]
pub(crate) fn path_lists_to_json(paths: &Vec<Vec<u16>>) -> (result: Option<String>)
    ensures
        result is Some,
        result matches Some(text) ==> text@ == path_lists_json(unit_lists(paths@)),
        result matches Some(text) ==> json_path_lists(text@) == Some(unit_lists(paths@)),
{
    serde_json::to_string(paths).ok()
}

/// A history table row as stored: every column with its stored type.
#[derive(Debug, Clone)]
pub struct RawClipboardHistoryItem {
    pub id: i64,
    pub content_type: String,
    pub text_content: Option<String>,
    pub file_path: Option<String>,
    pub source_application: Option<String>,
    pub source_process: Option<String>,
    pub captured_at_ms: i64,
    pub byte_size: i64,
    pub is_favorite: i64,
    pub content_revision: i64,
    pub source_icon_path: Option<String>,
    pub file_paths_json: Option<String>,
}

/// A stored row as values.
pub struct RawRow {
    pub id: i64,
    pub content_type: Seq<char>,
    pub text_content: Option<Seq<char>>,
    pub file_path: Option<Seq<char>>,
    pub source_application: Option<Seq<char>>,
    pub source_process: Option<Seq<char>>,
    pub captured_at_ms: i64,
    pub byte_size: i64,
    pub is_favorite: i64,
    pub content_revision: i64,
    pub source_icon_path: Option<Seq<char>>,
    pub file_paths_json: Option<Seq<char>>,
}

impl RawClipboardHistoryItem {
    /// The row as values.
    pub open spec fn row(&self) -> RawRow {
        RawRow {
            id: self.id,
            content_type: self.content_type@,
            text_content: opt_text(self.text_content),
            file_path: opt_text(self.file_path),
            source_application: opt_text(self.source_application),
            source_process: opt_text(self.source_process),
            captured_at_ms: self.captured_at_ms,
            byte_size: self.byte_size,
            is_favorite: self.is_favorite,
            content_revision: self.content_revision,
            source_icon_path: opt_text(self.source_icon_path),
            file_paths_json: opt_text(self.file_paths_json),
        }
    }
}

/// A clipboard history item.
#[derive(Debug, Clone, PartialEq, Eq)]
pub struct ClipboardHistoryItem {
    pub id: i64,
    pub kind: ClipboardContentKind,
    pub text_content: Option<String>,
    pub file_path: Option<String>,
    pub file_paths: Option<Vec<Vec<u16>>>,
    pub source_application: Option<String>,
    pub source_process: Option<String>,
    pub captured_at_ms: u64,
    pub byte_size: u64,
    pub is_favorite: bool,
    pub revision: u64,
    pub source_icon_path: Option<String>,
}

/// A history item as values.
pub struct ItemView {
    pub id: i64,
    pub kind: ClipboardContentKind,
    pub text_content: Option<Seq<char>>,
    pub file_path: Option<Seq<char>>,
    pub file_paths: Option<Seq<Seq<u16>>>,
    pub source_application: Option<Seq<char>>,
    pub source_process: Option<Seq<char>>,
    pub captured_at_ms: u64,
    pub byte_size: u64,
    pub is_favorite: bool,
    pub revision: u64,
    pub source_icon_path: Option<Seq<char>>,
}

impl ClipboardHistoryItem {
    /// The item as values.
    pub open spec fn view_item(&self) -> ItemView {
        ItemView {
            id: self.id,
            kind: self.kind,
            text_content: opt_text(self.text_content),
            file_path: opt_text(self.file_path),
            file_paths: opt_unit_lists(self.file_paths),
            source_application: opt_text(self.source_application),
            source_process: opt_text(self.source_process),
            captured_at_ms: self.captured_at_ms,
            byte_size: self.byte_size,
            is_favorite: self.is_favorite,
            revision: self.revision,
            source_icon_path: opt_text(self.source_icon_path),
        }
    }
}

/// The content kind a stored name stands for.
pub open spec fn kind_named(name: Seq<char>) -> Option<ClipboardContentKind> {
    if name == content_kind_name(ClipboardContentKind::Text) {
        Some(ClipboardContentKind::Text)
    } else if name == content_kind_name(ClipboardContentKind::Image) {
        Some(ClipboardContentKind::Image)
    } else if name == content_kind_name(ClipboardContentKind::Files) {
        Some(ClipboardContentKind::Files)
    } else {
        None
    }
}

/// The file list a stored JSON column gives: `Err` when the text is longer
/// than 1 MiB in UTF-8 or is not a JSON list of code-unit lists.
pub open spec fn stored_path_lists(json: Option<Seq<char>>) -> Result<Option<Seq<Seq<u16>>>, ()> {
    match json {
        None => Ok(None),
        Some(text) => if vstd::utf8::encode_utf8(text).len() > MAX_CLIPBOARD_FILE_PATHS_JSON_BYTES {
            Err(())
        } else {
            match json_path_lists(text) {
                Some(paths) => Ok(Some(paths)),
                None => Err(()),
            }
        },
    }
}

/// Whether the content columns have the shape of `kind`: text rows hold
/// text only, image rows a file reference only, file rows a non-empty list
/// only.
pub open spec fn content_shape_ok(
    kind: ClipboardContentKind,
    text: Option<Seq<char>>,
    file_path: Option<Seq<char>>,
    paths: Option<Seq<Seq<u16>>>,
) -> bool {
    match kind {
        ClipboardContentKind::Text => text is Some && file_path is None && paths is None,
        ClipboardContentKind::Image => text is None && file_path is Some && paths is None,
        ClipboardContentKind::Files => text is None && file_path is None && (paths matches Some(
            list,
        ) && list.len() > 0),
    }
}

/// The history item a stored row gives, or `None` when the row is corrupt:
/// a non-positive id, an unknown kind, an unreadable file list, columns that
/// do not fit the kind, a timestamp or size outside `0..=2^53-1`, a favorite
/// flag other than 0 or 1, or a revision that is not positive.
pub open spec fn item_from_row(row: RawRow) -> Option<ItemView> {
    match kind_named(row.content_type) {
        None => None,
        Some(kind) => match stored_path_lists(row.file_paths_json) {
            Err(()) => None,
            Ok(paths) => if row.id > 0 && content_shape_ok(kind, row.text_content, row.file_path, paths)
                && 0 <= row.captured_at_ms <= JS_MAX_SAFE_INTEGER && 0 <= row.byte_size
                <= JS_MAX_SAFE_INTEGER && (row.is_favorite == 0 || row.is_favorite == 1)
                && row.content_revision > 0 {
                Some(
                    ItemView {
                        id: row.id,
                        kind,
                        text_content: row.text_content,
                        file_path: row.file_path,
                        file_paths: paths,
                        source_application: row.source_application,
                        source_process: row.source_process,
                        captured_at_ms: row.captured_at_ms as u64,
                        byte_size: row.byte_size as u64,
                        is_favorite: row.is_favorite == 1,
                        revision: row.content_revision as u64,
                        source_icon_path: row.source_icon_path,
                    },
                )
            } else {
                None
            },
        },
    }
}

/// The content kind a stored name stands for; `CorruptRecord` otherwise.
fn parse_kind(name: &str) -> (result: Result<ClipboardContentKind, ClipboardError>)
    ensures
        match kind_named(name@) {
            Some(kind) => result == Ok::<ClipboardContentKind, ClipboardError>(kind),
            None => result == Err::<ClipboardContentKind, ClipboardError>(ClipboardError::CorruptRecord),
        },
{
    proof {
        reveal_strlit("text");
        reveal_strlit("image");
        reveal_strlit("files");
        assert("text"@ =~= content_kind_name(ClipboardContentKind::Text));
        assert("image"@ =~= content_kind_name(ClipboardContentKind::Image));
        assert("files"@ =~= content_kind_name(ClipboardContentKind::Files));
    }
    if str_equal(name, "text") {
        Ok(ClipboardContentKind::Text)
    } else if str_equal(name, "image") {
        Ok(ClipboardContentKind::Image)
    } else if str_equal(name, "files") {
        Ok(ClipboardContentKind::Files)
    } else {
        Err(ClipboardError::CorruptRecord)
    }
}

/// Reads a stored file-list column.
fn read_path_lists(json: &Option<String>) -> (result: Result<Option<Vec<Vec<u16>>>, ClipboardError>)
    ensures
        match stored_path_lists(opt_text(*json)) {
            Ok(paths) => result matches Ok(parsed) && opt_unit_lists(parsed) == paths,
            Err(()) => result == Err::<Option<Vec<Vec<u16>>>, ClipboardError>(ClipboardError::CorruptRecord),
        },
{
    match json {
        None => Ok(None),
        Some(text) => {
            let byte_len = text.as_str().as_bytes().len();
            if byte_len > MAX_CLIPBOARD_FILE_PATHS_JSON_BYTES {
                return Err(ClipboardError::CorruptRecord);
            }
            match parse_path_lists_json(text.as_str()) {
                Some(paths) => Ok(Some(paths)),
                None => Err(ClipboardError::CorruptRecord),
            }
        },
    }
}

/// Whether the content columns fit `kind`.
fn shape_fits(
    kind: ClipboardContentKind,
    text: &Option<String>,
    file_path: &Option<String>,
    paths: &Option<Vec<Vec<u16>>>,
) -> (fits: bool)
    ensures
        fits == content_shape_ok(kind, opt_text(*text), opt_text(*file_path), opt_unit_lists(*paths)),
{
    match kind {
        ClipboardContentKind::Text => text.is_some() && file_path.is_none() && paths.is_none(),
        ClipboardContentKind::Image => text.is_none() && file_path.is_some() && paths.is_none(),
        ClipboardContentKind::Files => text.is_none() && file_path.is_none() && match paths {
            Some(list) => list.len() > 0,
            None => false,
        },
    }
}

impl ClipboardHistoryItem {
    /// The history item a stored row holds; `CorruptRecord` when the row
    /// breaks one of the table's rules.
    pub fn try_from(raw: RawClipboardHistoryItem) -> (result: Result<Self, ClipboardError>)
        ensures
            match item_from_row(raw.row()) {
                Some(item) => result matches Ok(parsed) && parsed.view_item() == item,
                None => result == Err::<Self, ClipboardError>(ClipboardError::CorruptRecord),
            },
    {
        let kind = match parse_kind(raw.content_type.as_str()) {
            Ok(kind) => kind,
            Err(error) => {
                return Err(error);
            },
        };
        let file_paths = match read_path_lists(&raw.file_paths_json) {
            Ok(paths) => paths,
            Err(error) => {
                return Err(error);
            },
        };
        if raw.id <= 0 {
            return Err(ClipboardError::CorruptRecord);
        }
        if !shape_fits(kind, &raw.text_content, &raw.file_path, &file_paths) {
            return Err(ClipboardError::CorruptRecord);
        }
        if raw.captured_at_ms < 0 || raw.captured_at_ms as u64 > JS_MAX_SAFE_INTEGER {
            return Err(ClipboardError::CorruptRecord);
        }
        if raw.byte_size < 0 || raw.byte_size as u64 > JS_MAX_SAFE_INTEGER {
            return Err(ClipboardError::CorruptRecord);
        }
        let is_favorite = if raw.is_favorite == 0 {
            false
        } else if raw.is_favorite == 1 {
            true
        } else {
            return Err(ClipboardError::CorruptRecord);
        };
        if raw.content_revision <= 0 {
            return Err(ClipboardError::CorruptRecord);
        }
        Ok(
            ClipboardHistoryItem {
                id: raw.id,
                kind,
                text_content: raw.text_content,
                file_path: raw.file_path,
                file_paths,
                source_application: raw.source_application,
                source_process: raw.source_process,
                captured_at_ms: raw.captured_at_ms as u64,
                byte_size: raw.byte_size as u64,
                is_favorite,
                revision: raw.content_revision as u64,
                source_icon_path: raw.source_icon_path,
            },
        )
    }
}


/// The position of the last `/` or `\` in a path, or -1.
pub open spec fn last_separator(path: Seq<u16>) -> int
    decreases path.len(),
{
    if path.len() == 0 {
        -1
    } else if path.last() == 47 || path.last() == 92 {
        path.len() - 1
    } else {
        last_separator(path.drop_last())
    }
}

/// The file name a path ends in, decoded lossily; `None` when the path ends
/// in a separator.
pub open spec fn file_name_of_units(path: Seq<u16>) -> Option<Seq<char>> {
    let start = last_separator(path) + 1;
    if start >= path.len() {
        None
    } else {
        let name = utf16_decode_lossy(path.subrange(start, path.len() as int));
        if name.len() == 0 { None } else { Some(name) }
    }
}

/// The file names of a list of 1 to 128 paths, when each has one.
pub open spec fn file_names_of(paths: Seq<Seq<u16>>) -> Option<Seq<Seq<char>>> {
    if paths.len() == 0 || paths.len() > MAX_CLIPBOARD_FILES {
        None
    } else if forall|i: int| 0 <= i < paths.len() ==> #[trigger] file_name_of_units(paths[i]) is Some {
        Some(Seq::new(paths.len(), |i: int| file_name_of_units(paths[i])->0))
    } else {
        None
    }
}

/// No unit after the last separator of `path` is a separator.
proof fn lemma_after_last_separator(path: Seq<u16>)
    ensures
        -1 <= last_separator(path) < path.len(),
        forall|k: int| last_separator(path) < k < path.len() ==> (#[trigger] path[k]) != 47 && path[k] != 92,
    decreases path.len(),
{
    if path.len() > 0 && !(path.last() == 47 || path.last() == 92) {
        lemma_after_last_separator(path.drop_last());
        assert forall|k: int| last_separator(path) < k < path.len() implies (#[trigger] path[k]) != 47 && path[k] != 92 by {
            if k < path.len() - 1 {
                assert(path[k] == path.drop_last()[k]);
            }
        }
    }
}

/// Decoding units that hold no separator gives characters that hold none.
proof fn lemma_decoded_without_separator(units: Seq<u16>)
    requires
        forall|k: int| 0 <= k < units.len() ==> (#[trigger] units[k]) != 47 && units[k] != 92,
    ensures
        forall|k: int|
            0 <= k < utf16_decode_lossy(units).len() ==> (#[trigger] utf16_decode_lossy(units)[k]) != '/'
                && utf16_decode_lossy(units)[k] != '\\',
    decreases units.len(),
{
    if units.len() > 0 {
        let first = units[0] as int;
        let rest = if first < 0xD800 || first > 0xDFFF {
            units.drop_first()
        } else if first <= 0xDBFF && units.len() >= 2 && 0xDC00 <= units[1] <= 0xDFFF {
            units.subrange(2, units.len() as int)
        } else {
            units.drop_first()
        };
        assert forall|k: int| 0 <= k < rest.len() implies (#[trigger] rest[k]) != 47 && rest[k] != 92 by {
            if first < 0xD800 || first > 0xDFFF {
                assert(rest[k] == units[k + 1]);
            } else if first <= 0xDBFF && units.len() >= 2 && 0xDC00 <= units[1] <= 0xDFFF {
                assert(rest[k] == units[k + 2]);
            } else {
                assert(rest[k] == units[k + 1]);
            }
        }
        lemma_decoded_without_separator(rest);
        let decoded = utf16_decode_lossy(units);
        assert forall|k: int| 0 <= k < decoded.len() implies (#[trigger] decoded[k]) != '/' && decoded[k] != '\\' by {
            if k > 0 {
                assert(decoded[k] == utf16_decode_lossy(rest)[k - 1]);
            } else {
                assert(units[0] != 47 && units[0] != 92);
                assert(decoded[0] as int != 47 && decoded[0] as int != 92);
            }
        }
    }
}

/// The file names shown for a file list name no directory: none of them
/// holds a path separator.
pub proof fn lemma_file_names_hold_no_separator(paths: Seq<Seq<u16>>, i: int, k: int)
    requires
        file_names_of(paths) is Some,
        0 <= i < paths.len(),
        0 <= k < file_names_of(paths)->0[i].len(),
    ensures
        file_names_of(paths)->0[i][k] != '/',
        file_names_of(paths)->0[i][k] != '\\',
{
    let path = paths[i];
    assert(file_name_of_units(path) is Some);
    lemma_after_last_separator(path);
    let start = last_separator(path) + 1;
    let units = path.subrange(start, path.len() as int);
    assert forall|j: int| 0 <= j < units.len() implies (#[trigger] units[j]) != 47 && units[j] != 92 by {
        assert(units[j] == path[start + j]);
    }
    lemma_decoded_without_separator(units);
}

/// Where the file name of `path` starts: after its last separator.
fn name_start(path: &Vec<u16>) -> (start: usize)
    ensures
        start == last_separator(path@) + 1,
{
    let mut i: usize = path.len();
    assert(path@.subrange(0, i as int) =~= path@);
    while i > 0
        invariant
            i <= path@.len(),
            last_separator(path@) == last_separator(path@.subrange(0, i as int)),
        decreases i,
    {
        let ghost prefix = path@.subrange(0, i as int);
        assert(prefix.drop_last() =~= path@.subrange(0, i - 1));
        if path[i - 1] == 47 || path[i - 1] == 92 {
            return i;
        }
        i -= 1;
    }
    0
}

/// The file name each path ends in; `CorruptRecord` when the list is empty
/// or longer than 128, or a path has no name.
pub fn file_names(paths: &[Vec<u16>]) -> (result: Result<Vec<String>, ClipboardError>)
    ensures
        match file_names_of(unit_lists(paths@)) {
            Some(names) => result matches Ok(found) && found@.len() == names.len() && forall|i: int|
                0 <= i < names.len() ==> #[trigger] found@[i]@ == names[i],
            None => result == Err::<Vec<String>, ClipboardError>(ClipboardError::CorruptRecord),
        },
{
    let ghost lists = unit_lists(paths@);
    if paths.len() == 0 || paths.len() > MAX_CLIPBOARD_FILES {
        return Err(ClipboardError::CorruptRecord);
    }
    let mut names: Vec<String> = Vec::new();
    let mut i: usize = 0;
    while i < paths.len()
        invariant
            i <= paths@.len() <= MAX_CLIPBOARD_FILES,
            lists == unit_lists(paths@),
            names@.len() == i,
            forall|k: int| 0 <= k < i ==> #[trigger] file_name_of_units(lists[k]) is Some,
            forall|k: int| 0 <= k < i ==> #[trigger] names@[k]@ == file_name_of_units(lists[k])->0,
        decreases paths.len() - i,
    {
        let path = &paths[i];
        assert(lists[i as int] == path@);
        let start = name_start(path);
        if start >= path.len() {
            assert(file_name_of_units(lists[i as int]) is None);
            return Err(ClipboardError::CorruptRecord);
        }
        let mut tail: Vec<u16> = Vec::new();
        let mut j: usize = start;
        while j < path.len()
            invariant
                start <= j <= path@.len(),
                tail@ == path@.subrange(start as int, j as int),
            decreases path.len() - j,
        {
            tail.push(path[j]);
            assert(tail@ =~= path@.subrange(start as int, j + 1));
            j += 1;
        }
        let name = decode_utf16_lossy(tail.as_slice());
        if name.as_str().is_empty() {
            assert(file_name_of_units(lists[i as int]) is None);
            return Err(ClipboardError::CorruptRecord);
        }
        assert(file_name_of_units(lists[i as int]) == Some(name@));
        names.push(name);
        i += 1;
    }
    Ok(names)
}

} // verus!
