//! Clipboard change notifications: sequence bookkeeping, the suppression
//! queue for the library's own writes, and the record-or-retry decision.
use vstd::prelude::*;

use crate::clipboard::{
    ClipboardContentKind, JS_MAX_SAFE_INTEGER, MAX_SOURCE_APPLICATION_CHARS, MAX_SOURCE_PROCESS_CHARS, MAX_TEXT_BYTES,
};
use crate::dib::{dib_accepts, dib_height, dib_rgba, dib_width, parse_dib, ClipboardImage, MAX_CLIPBOARD_BLOCK_BYTES};
use crate::png_image::{parse_png, png_image};
use crate::hdrop::{hdrop_paths, lemma_hdrop_paths_valid, parse_hdrop, path_views, valid_path_list, ClipboardFiles};
use crate::history::{opt_text, unit_lists, ClipboardError, ImageError};
use crate::service::{
    capture_of_files, capture_of_image, item_with_id, with_icon_for, metadata_error, path_hash_input, records, sha256, source_ignored,
    stored_capture, text_is_sensitive, Capture, ClipboardCaptureMetadata, ClipboardRecordResult, ClipboardService,
    StoredRow,
};
use crate::settings::SettingsModel;
use crate::text::{chars_of, decode_utf16, string_from_chars, string_from_range, utf16_decode};

verus! {

/// How many of its own clipboard sequences the listener remembers.
pub const MAX_SUPPRESSED_SEQUENCES: usize = 64;

/// Whether a notification repeats the last committed sequence. Sequence 0
/// means "unknown" and is never a duplicate.
pub fn is_duplicate_sequence(last_sequence: Option<u32>, current_sequence: u32) -> (duplicate: bool)
    ensures
        duplicate <==> (current_sequence != 0 && last_sequence == Some(current_sequence)),
{
    current_sequence != 0 && last_sequence == Some(current_sequence)
}

/// The sequence a snapshot read between `initial` and `final_sequence` belongs to.
pub open spec fn stable_sequence_spec(initial: u32, final_sequence: u32) -> Option<u32> {
    if initial != 0 && final_sequence != 0 {
        if initial == final_sequence {
            Some(initial)
        } else {
            None
        }
    } else if final_sequence != 0 {
        Some(final_sequence)
    } else {
        Some(initial)
    }
}

/// The sequence a snapshot belongs to; `None` when the clipboard changed while
/// it was being read.
pub fn stable_sequence(initial: u32, final_sequence: u32) -> (result: Option<u32>)
    ensures
        result == stable_sequence_spec(initial, final_sequence),
{
    if initial != 0 && final_sequence != 0 {
        if initial == final_sequence {
            Some(initial)
        } else {
            None
        }
    } else if final_sequence != 0 {
        Some(final_sequence)
    } else {
        Some(initial)
    }
}

/// The last committed sequence after committing `sequence`.
pub open spec fn committed(last_sequence: Option<u32>, sequence: u32) -> Option<u32> {
    if sequence != 0 {
        Some(sequence)
    } else {
        last_sequence
    }
}

/// Records `sequence` as handled; sequence 0 is never recorded.
pub fn commit_sequence(last_sequence: &mut Option<u32>, sequence: u32)
    ensures
        *final(last_sequence) == committed(*old(last_sequence), sequence),
{
    if sequence != 0 {
        *last_sequence = Some(sequence);
    }
}

/// Whether the stop message may still be posted to the listener window.
pub fn should_post_to_message_window(message_thread_finished: bool) -> (post: bool)
    ensures
        post == !message_thread_finished,
{
    !message_thread_finished
}

/// Index of the first zero unit, if any.
pub open spec fn first_zero(units: Seq<u16>) -> Option<int> {
    if exists|i: int| 0 <= i < units.len() && units[i] == 0 {
        Some(choose|i: int| 0 <= i < units.len() && units[i] == 0 && forall|j: int| 0 <= j < i ==> units[j] != 0)
    } else {
        None
    }
}

/// What a NUL-terminated UTF-16 clipboard block decodes to: `Err` without a
/// terminator or on an unpaired surrogate, `Ok(None)` when it is empty.
pub open spec fn null_terminated_text(units: Seq<u16>) -> Result<Option<Seq<char>>, ()> {
    match first_zero(units) {
        None => Err(()),
        Some(end) => if end == 0 {
            Ok(None)
        } else {
            match utf16_decode(units.subrange(0, end)) {
                Some(chars) => Ok(Some(chars)),
                None => Err(()),
            }
        },
    }
}

/// Decodes the text before the first NUL of a `CF_UNICODETEXT` block.
pub fn decode_null_terminated_utf16(units: &[u16]) -> (result: Result<Option<String>, ()>)
    ensures
        match null_terminated_text(units@) {
            Err(()) => result is Err,
            Ok(None) => result == Ok::<Option<String>, ()>(None),
            Ok(Some(chars)) => result matches Ok(Some(text)) && text@ == chars,
        },
{
    let mut end: usize = 0;
    while end < units.len() && units[end] != 0
        invariant
            end <= units.len(),
            forall|j: int| 0 <= j < end ==> units@[j] != 0,
        decreases units.len() - end,
    {
        end += 1;
    }
    if end == units.len() {
        assert(!(exists|i: int| 0 <= i < units@.len() && units@[i] == 0));
        return Err(());
    }
    proof {
        assert(units@[end as int] == 0);
        let e = choose|i: int|
            0 <= i < units@.len() && units@[i] == 0 && forall|j: int| 0 <= j < i ==> units@[j] != 0;
        assert(0 <= end < units@.len() && units@[end as int] == 0 && forall|j: int|
            0 <= j < end ==> units@[j] != 0);
        assert(e == end) by {
            if e < end {
                assert(units@[e] != 0);
            } else if e > end {
                assert(units@[end as int] != 0);
            }
        }
    }
    if end == 0 {
        return Ok(None);
    }
    let mut prefix: Vec<u16> = Vec::new();
    let mut k: usize = 0;
    while k < end
        invariant
            k <= end,
            end < units.len(),
            prefix@ == units@.subrange(0, k as int),
        decreases end - k,
    {
        prefix.push(units[k]);
        k += 1;
        assert(prefix@ =~= units@.subrange(0, k as int));
    }
    match decode_utf16(prefix.as_slice()) {
        Some(text) => Ok(Some(text)),
        None => Err(()),
    }
}


/// Where the owning process of the clipboard came from: a display name, the
/// executable's file name and its full path.
#[derive(Debug, Clone, PartialEq, Eq)]
pub struct ClipboardSourceMetadata {
    pub source_application: Option<String>,
    pub source_process: Option<String>,
    pub source_executable_path: Option<String>,
}

impl Default for ClipboardSourceMetadata {
    /// Metadata with nothing known.
    fn default() -> (result: Self)
        ensures
            result.is_unknown(),
    {
        ClipboardSourceMetadata::unknown()
    }
}

impl ClipboardSourceMetadata {
    /// Metadata with nothing known.
    pub fn unknown() -> (result: Self)
        ensures
            result.is_unknown(),
    {
        ClipboardSourceMetadata {
            source_application: None,
            source_process: None,
            source_executable_path: None,
        }
    }

    /// A copy of this metadata.
    pub fn duplicate(&self) -> (copy: Self)
        ensures
            copy == *self,
    {
        ClipboardSourceMetadata {
            source_application: copy_text(&self.source_application),
            source_process: copy_text(&self.source_process),
            source_executable_path: copy_text(&self.source_executable_path),
        }
    }

    /// Whether nothing is known.
    pub open spec fn is_unknown(self) -> bool {
        &&& self.source_application is None
        &&& self.source_process is None
        &&& self.source_executable_path is None
    }
}

/// A copy of an optional text.
fn copy_text(text: &Option<String>) -> (copy: Option<String>)
    ensures
        copy == *text,
{
    match text {
        Some(t) => Some(t.clone()),
        None => None,
    }
}

/// Whether `c` separates path components.
pub open spec fn is_path_separator(c: char) -> bool {
    c == '/' || c == '\\'
}

/// Index just after the last separator of `path` (0 when it has none).
pub open spec fn file_name_start(path: Seq<char>) -> int
    decreases path.len(),
{
    if path.len() == 0 {
        0
    } else if is_path_separator(path.last()) {
        path.len() as int
    } else {
        file_name_start(path.drop_last())
    }
}

/// The last component of `path`.
pub open spec fn file_name_of(path: Seq<char>) -> Seq<char> {
    path.subrange(file_name_start(path), path.len() as int)
}

/// A Unicode control character (general category Cc).
pub open spec fn is_control_char(c: char) -> bool {
    c <= '\u{1f}' || ('\u{7f}' <= c && c <= '\u{9f}')
}

/// Index of the last `.` in `name`, or -1.
pub open spec fn last_dot(name: Seq<char>) -> int
    decreases name.len(),
{
    if name.len() == 0 {
        -1
    } else if name.last() == '.' {
        name.len() - 1
    } else {
        last_dot(name.drop_last())
    }
}

/// The display name of an executable file name: its stem when it has a
/// non-empty stem and extension, else the whole name.
pub open spec fn display_stem(name: Seq<char>) -> Seq<char> {
    let dot = last_dot(name);
    if dot > 0 && dot + 1 < name.len() {
        name.subrange(0, dot)
    } else {
        name
    }
}

/// The (application, process) names a process image path yields, or `None`
/// when its file name is empty, a dot entry, holds a control character or is
/// longer than storage accepts.
pub open spec fn source_names(path: Seq<char>) -> Option<(Seq<char>, Seq<char>)> {
    let name = file_name_of(path);
    let application = display_stem(name);
    if name.len() == 0 || name == seq!['.'] || name == seq!['.', '.'] || (exists|i: int|
        0 <= i < name.len() && is_control_char(#[trigger] name[i])) {
        None
    } else if name.len() > MAX_SOURCE_PROCESS_CHARS || application.len() == 0 || application.len()
        > MAX_SOURCE_APPLICATION_CHARS {
        None
    } else {
        Some((application, name))
    }
}

proof fn lemma_file_name_start(path: Seq<char>)
    ensures
        0 <= file_name_start(path) <= path.len(),
        file_name_start(path) > 0 ==> is_path_separator(path[file_name_start(path) - 1]),
        forall|i: int| file_name_start(path) <= i < path.len() ==> !is_path_separator(path[i]),
    decreases path.len(),
{
    if path.len() > 0 && !is_path_separator(path.last()) {
        let shorter = path.drop_last();
        lemma_file_name_start(shorter);
        assert forall|i: int| file_name_start(path) <= i < path.len() implies !is_path_separator(
            path[i],
        ) by {
            if i < path.len() - 1 {
                assert(path[i] == shorter[i]);
            }
        }
        if file_name_start(path) > 0 {
            assert(path[file_name_start(path) - 1] == shorter[file_name_start(path) - 1]);
        }
    }
}

proof fn lemma_last_dot(name: Seq<char>)
    ensures
        -1 <= last_dot(name) < name.len(),
        last_dot(name) >= 0 ==> name[last_dot(name)] == '.',
        forall|i: int| last_dot(name) < i < name.len() ==> name[i] != '.',
    decreases name.len(),
{
    if name.len() > 0 && name.last() != '.' {
        let shorter = name.drop_last();
        lemma_last_dot(shorter);
        assert forall|i: int| last_dot(name) < i < name.len() implies name[i] != '.' by {
            if i < name.len() - 1 {
                assert(name[i] == shorter[i]);
            }
        }
        if last_dot(name) >= 0 {
            assert(name[last_dot(name)] == shorter[last_dot(name)]);
        }
    }
}

proof fn lemma_scan_back_separator(path: Seq<char>, k: int)
    requires
        0 <= k <= path.len(),
        k == 0 || is_path_separator(path[k - 1]),
        forall|i: int| k <= i < path.len() ==> !is_path_separator(path[i]),
    ensures
        file_name_start(path) == k,
    decreases path.len(),
{
    lemma_file_name_start(path);
    let s = file_name_start(path);
    if s < k {
        assert(!is_path_separator(path[k - 1]));
    } else if s > k {
        assert(!is_path_separator(path[s - 1]));
    }
}

proof fn lemma_scan_back_dot(name: Seq<char>, k: int)
    requires
        -1 <= k < name.len(),
        k == -1 || name[k] == '.',
        forall|i: int| k < i < name.len() ==> name[i] != '.',
    ensures
        last_dot(name) == k,
{
    lemma_last_dot(name);
    let d = last_dot(name);
    if d < k {
        assert(name[k] == '.');
    } else if d > k {
        assert(name[d] == '.');
    }
}

/// The source metadata of a clipboard owner whose image path is `path`.
pub fn source_metadata_from_image_path(path: &str) -> (result: ClipboardSourceMetadata)
    ensures
        describes_path(result, path@),
{
    let chars = chars_of(path);
    let len = chars.len();
    let mut start = len;
    while start > 0 && chars[start - 1] != '/' && chars[start - 1] != '\\'
        invariant
            start <= len,
            len == chars@.len(),
            forall|i: int| start <= i < len ==> !is_path_separator(chars@[i]),
        decreases start,
    {
        start -= 1;
    }
    proof {
        lemma_scan_back_separator(chars@, start as int);
    }
    let ghost name = file_name_of(chars@);
    assert(name =~= chars@.subrange(start as int, len as int));
    let name_len = len - start;
    if name_len == 0 {
        return ClipboardSourceMetadata::unknown();
    }
    if name_len == 1 && chars[start] == '.' {
        assert(name =~= seq!['.']);
        return ClipboardSourceMetadata::unknown();
    }
    if name_len == 2 && chars[start] == '.' && chars[start + 1] == '.' {
        assert(name =~= seq!['.', '.']);
        return ClipboardSourceMetadata::unknown();
    }
    let mut k = start;
    while k < len
        invariant
            start <= k <= len,
            len == chars@.len(),
            chars@ == path@,
            name == file_name_of(path@),
            name == chars@.subrange(start as int, len as int),
            forall|i: int| 0 <= i < k - start ==> !is_control_char(#[trigger] name[i]),
        decreases len - k,
    {
        let c = chars[k];
        if c <= '\u{1f}' || ('\u{7f}' <= c && c <= '\u{9f}') {
            assert(is_control_char(name[k - start]));
            return ClipboardSourceMetadata::unknown();
        }
        k += 1;
    }
    assert(!(name == seq!['.']) && !(name == seq!['.', '.'])) by {
        if name == seq!['.'] {
            assert(name.len() == 1 && name[0] == '.');
        }
        if name == seq!['.', '.'] {
            assert(name.len() == 2 && name[0] == '.' && name[1] == '.');
        }
    }
    let mut dot: usize = len;
    let mut found = false;
    let mut j = len;
    while j > start && !found
        invariant
            start <= j <= len,
            len == chars@.len(),
            name == chars@.subrange(start as int, len as int),
            !found ==> forall|i: int| j - start <= i < name.len() ==> name[i] != '.',
            found ==> start <= dot < len && name[dot - start] == '.' && forall|i: int|
                dot - start < i < name.len() ==> name[i] != '.',
        decreases j - start + if found { 0int } else { 1int },
    {
        if chars[j - 1] == '.' {
            dot = j - 1;
            found = true;
        } else {
            j -= 1;
        }
    }
    proof {
        if found {
            lemma_scan_back_dot(name, dot - start);
        } else {
            lemma_scan_back_dot(name, -1);
        }
    }
    let use_stem = found && dot > start && dot + 1 < len;
    let app_end = if use_stem { dot } else { len };
    let ghost application = display_stem(name);
    assert(application =~= chars@.subrange(start as int, app_end as int));
    let app_len = app_end - start;
    if name_len > MAX_SOURCE_PROCESS_CHARS || app_len == 0 || app_len > MAX_SOURCE_APPLICATION_CHARS {
        return ClipboardSourceMetadata::unknown();
    }
    let application_name = string_from_range(&chars, start, app_end);
    let process_name = string_from_range(&chars, start, len);
    let executable = string_from_chars(&chars);
    ClipboardSourceMetadata {
        source_application: Some(application_name),
        source_process: Some(process_name),
        source_executable_path: Some(executable),
    }
}


/// Whether the clipboard listener is running.
#[derive(Debug, Clone, Copy, PartialEq, Eq, Structural)]
pub enum ClipboardListenerStatus {
    Running,
    Unavailable,
    Stopped,
}

/// Why the clipboard listener could not start or stop.
#[derive(Debug, Clone, Copy, PartialEq, Eq)]
pub enum ClipboardListenerError {
    UnsupportedPlatform,
    StateLockPoisoned,
    ThreadStart(&'static str),
    StartupChannel,
    WindowsApi(&'static str),
    ThreadPanicked(&'static str),
}

/// The sequences of the listener's own clipboard writes that it must not
/// record again: at most `MAX_SUPPRESSED_SEQUENCES`, oldest first, no zero
/// and no repeats.
pub struct SuppressedSequences {
    sequences: Vec<u32>,
}

/// The queue after suppressing `sequence`: zero and known sequences change
/// nothing; otherwise the oldest entries make room and `sequence` is appended.
pub open spec fn suppressed_after(queue: Seq<u32>, sequence: u32) -> Seq<u32> {
    if sequence == 0 || queue.contains(sequence) {
        queue
    } else if queue.len() >= MAX_SUPPRESSED_SEQUENCES {
        queue.subrange(queue.len() - (MAX_SUPPRESSED_SEQUENCES - 1), queue.len() as int).push(
            sequence,
        )
    } else {
        queue.push(sequence)
    }
}

impl View for SuppressedSequences {
    type V = Seq<u32>;

    closed spec fn view(&self) -> Seq<u32> {
        self.sequences@
    }
}

impl SuppressedSequences {
    /// The queue's invariant.
    pub closed spec fn wf(&self) -> bool {
        &&& self.sequences@.len() <= MAX_SUPPRESSED_SEQUENCES
        &&& self.sequences@.no_duplicates()
        &&& !self.sequences@.contains(0)
    }

    /// An empty queue.
    pub fn new() -> (result: Self)
        ensures
            result.wf(),
            result@ == Seq::<u32>::empty(),
    {
        SuppressedSequences { sequences: Vec::new() }
    }

    /// The queued sequences, oldest first.
    pub fn sequences(&self) -> (result: Vec<u32>)
        ensures
            result@ == self@,
    {
        self.sequences.clone()
    }

    /// Whether `sequence` is queued.
    pub fn contains(&self, sequence: u32) -> (found: bool)
        ensures
            found == self@.contains(sequence),
    {
        let mut i: usize = 0;
        while i < self.sequences.len()
            invariant
                i <= self.sequences@.len(),
                forall|j: int| 0 <= j < i ==> self.sequences@[j] != sequence,
            decreases self.sequences.len() - i,
        {
            if self.sequences[i] == sequence {
                return true;
            }
            i += 1;
        }
        false
    }

    /// Queues `sequence`, dropping the oldest entries to stay bounded.
    pub fn suppress(&mut self, sequence: u32)
        requires
            old(self).wf(),
        ensures
            final(self).wf(),
            final(self)@ == suppressed_after(old(self)@, sequence),
    {
        if sequence == 0 || self.contains(sequence) {
            return;
        }
        if self.sequences.len() >= MAX_SUPPRESSED_SEQUENCES {
            let ghost before = self.sequences@;
            let excess = self.sequences.len() - (MAX_SUPPRESSED_SEQUENCES - 1);
            let mut kept: Vec<u32> = Vec::new();
            let mut i = excess;
            while i < self.sequences.len()
                invariant
                    excess <= i <= self.sequences@.len(),
                    self.sequences@ == before,
                    kept@ == before.subrange(excess as int, i as int),
                decreases self.sequences.len() - i,
            {
                kept.push(self.sequences[i]);
                i += 1;
                assert(kept@ =~= before.subrange(excess as int, i as int));
            }
            self.sequences = kept;
            proof {
                assert forall|a: int, b: int|
                    0 <= a < self.sequences@.len() && 0 <= b < self.sequences@.len() && a != b
                    implies self.sequences@[a] != self.sequences@[b] by {
                    assert(self.sequences@[a] == before[a + excess]);
                    assert(self.sequences@[b] == before[b + excess]);
                }
                assert forall|a: int| 0 <= a < self.sequences@.len() implies self.sequences@[a]
                    != 0 by {
                    assert(self.sequences@[a] == before[a + excess]);
                    assert(!before.contains(0));
                }
                assert forall|a: int| 0 <= a < self.sequences@.len() implies self.sequences@[a]
                    != sequence by {
                    assert(self.sequences@[a] == before[a + excess]);
                }
            }
        }
        let ghost middle = self.sequences@;
        self.sequences.push(sequence);
        proof {
            assert(self.sequences@ == middle.push(sequence));
            assert forall|a: int, b: int|
                0 <= a < self.sequences@.len() && 0 <= b < self.sequences@.len() && a != b
                implies self.sequences@[a] != self.sequences@[b] by {
                if a == middle.len() {
                    assert(!middle.contains(sequence) ==> middle[b] != sequence);
                } else if b == middle.len() {
                    assert(!middle.contains(sequence) ==> middle[a] != sequence);
                }
            }
            assert forall|a: int| 0 <= a < self.sequences@.len() implies self.sequences@[a] != 0 by {
                if a < middle.len() {
                    assert(middle[a] == self.sequences@[a]);
                }
            }
        }
    }

    /// Removes `sequence` when it is queued and says whether it was.
    pub fn consume(&mut self, sequence: u32) -> (consumed: bool)
        requires
            old(self).wf(),
        ensures
            final(self).wf(),
            consumed == old(self)@.contains(sequence),
            consumed ==> final(self)@ == old(self)@.remove(old(self)@.index_of(sequence)),
            !consumed ==> final(self)@ == old(self)@,
    {
        let mut i: usize = 0;
        while i < self.sequences.len()
            invariant
                i <= self.sequences@.len(),
                self.sequences@ == old(self).sequences@,
                old(self).wf(),
                forall|j: int| 0 <= j < i ==> self.sequences@[j] != sequence,
            decreases self.sequences.len() - i,
        {
            if self.sequences[i] == sequence {
                let ghost before = self.sequences@;
                proof {
                    let k = before.index_of(sequence);
                    assert(0 <= k < before.len() && before[k] == sequence);
                    if k != i {
                        assert(before[k] != before[i as int]);
                    }
                }
                self.sequences.remove(i);
                proof {
                    before.remove_ensures(i as int);
                    assert forall|a: int, b: int|
                        0 <= a < self.sequences@.len() && 0 <= b < self.sequences@.len() && a != b
                        implies self.sequences@[a] != self.sequences@[b] by {
                        let sa = if a < i { a } else { a + 1 };
                        let sb = if b < i { b } else { b + 1 };
                        assert(self.sequences@[a] == before[sa]);
                        assert(self.sequences@[b] == before[sb]);
                    }
                    assert forall|a: int| 0 <= a < self.sequences@.len() implies self.sequences@[a]
                        != 0 by {
                        let sa = if a < i { a } else { a + 1 };
                        assert(self.sequences@[a] == before[sa]);
                    }
                }
                return true;
            }
            i += 1;
        }
        false
    }
}

/// A write the listener was told to ignore is recognised exactly once:
/// once suppressed, a nonzero sequence is queued, and consuming it leaves it
/// queued no more.
pub proof fn lemma_suppressed_write_consumed_once(queue: Seq<u32>, sequence: u32)
    requires
        queue.no_duplicates(),
        sequence != 0,
    ensures
        suppressed_after(queue, sequence).contains(sequence),
        !suppressed_after(queue, sequence).remove(suppressed_after(queue, sequence).index_of(sequence)).contains(
            sequence,
        ),
{
    let after = suppressed_after(queue, sequence);
    if !queue.contains(sequence) {
        if queue.len() >= MAX_SUPPRESSED_SEQUENCES {
            let kept = queue.subrange(queue.len() - (MAX_SUPPRESSED_SEQUENCES - 1), queue.len() as int);
            assert(after[after.len() - 1] == sequence);
            assert forall|k: int| 0 <= k < kept.len() implies kept[k] != sequence by {
                assert(kept[k] == queue[k + queue.len() - (MAX_SUPPRESSED_SEQUENCES - 1)]);
            }
        } else {
            assert(after[after.len() - 1] == sequence);
        }
    }
    assert(after.contains(sequence));
    let i = after.index_of(sequence);
    assert(0 <= i < after.len() && after[i] == sequence);
    assert forall|k: int| 0 <= k < after.len() && k != i implies after[k] != sequence by {
        if !queue.contains(sequence) {
            if queue.len() >= MAX_SUPPRESSED_SEQUENCES {
                let start = queue.len() - (MAX_SUPPRESSED_SEQUENCES - 1);
                if k < after.len() - 1 {
                    assert(after[k] == queue[k + start]);
                }
                if i < after.len() - 1 {
                    assert(after[i] == queue[i + start]);
                }
            } else {
                if k < after.len() - 1 {
                    assert(after[k] == queue[k]);
                }
                if i < after.len() - 1 {
                    assert(after[i] == queue[i]);
                }
            }
        } else {
            assert(after[k] != after[i]);
        }
    }
    after.remove_ensures(i);
    let rest = after.remove(i);
    assert forall|k: int| 0 <= k < rest.len() implies rest[k] != sequence by {
        if k < i {
            assert(rest[k] == after[k]);
        } else {
            assert(rest[k] == after[k + 1]);
        }
    }
}

/// The listener's shared state: its status and the queue of its own writes.
pub struct ClipboardListenerManager {
    status: ClipboardListenerStatus,
    suppressed: SuppressedSequences,
}

impl ClipboardListenerManager {
    /// The manager's invariant.
    pub closed spec fn wf(&self) -> bool {
        self.suppressed.wf()
    }

    /// The current status.
    pub closed spec fn status_spec(&self) -> ClipboardListenerStatus {
        self.status
    }

    /// The queued sequences of the listener's own writes, oldest first.
    pub closed spec fn suppressed_spec(&self) -> Seq<u32> {
        self.suppressed@
    }

    /// A stopped manager with nothing suppressed.
    pub fn new() -> (result: Self)
        ensures
            result.wf(),
            result.status_spec() == ClipboardListenerStatus::Stopped,
            result.suppressed_spec() == Seq::<u32>::empty(),
    {
        ClipboardListenerManager {
            status: ClipboardListenerStatus::Stopped,
            suppressed: SuppressedSequences::new(),
        }
    }

    /// The current status.
    pub fn status(&self) -> (result: ClipboardListenerStatus)
        ensures
            result == self.status_spec(),
    {
        self.status
    }

    /// Remembers `sequence` as one of the listener's own writes.
    pub fn suppress_sequence(&mut self, sequence: u32)
        requires
            old(self).wf(),
        ensures
            final(self).wf(),
            final(self).suppressed_spec() == suppressed_after(old(self).suppressed_spec(), sequence),
            final(self).status_spec() == old(self).status_spec(),
    {
        self.suppressed.suppress(sequence);
    }

    /// The queued sequences, oldest first.
    pub fn suppressed_sequences(&self) -> (result: Vec<u32>)
        ensures
            result@ == self.suppressed_spec(),
    {
        self.suppressed.sequences()
    }

    /// Whether a notification for `sequence` comes from this process: always
    /// when this process owns the clipboard, else when `sequence` was queued,
    /// which also removes it.
    pub fn consume_suppressed_sequence(&mut self, sequence: u32, owned_by_current_process: bool) -> (suppressed: bool)
        requires
            old(self).wf(),
        ensures
            final(self).wf(),
            final(self).status_spec() == old(self).status_spec(),
            owned_by_current_process ==> suppressed && final(self).suppressed_spec() == old(self).suppressed_spec(),
            !owned_by_current_process ==> suppressed == old(self).suppressed_spec().contains(sequence),
            !owned_by_current_process && suppressed ==> final(self).suppressed_spec() == old(
                self,
            ).suppressed_spec().remove(old(self).suppressed_spec().index_of(sequence)),
            !suppressed ==> final(self).suppressed_spec() == old(self).suppressed_spec(),
    {
        if owned_by_current_process {
            return true;
        }
        self.suppressed.consume(sequence)
    }

    /// Records that the platform listener is running.
    pub fn mark_running(&mut self)
        requires
            old(self).wf(),
        ensures
            final(self).wf(),
            final(self).status_spec() == ClipboardListenerStatus::Running,
            final(self).suppressed_spec() == old(self).suppressed_spec(),
    {
        self.status = ClipboardListenerStatus::Running;
    }

    /// Records that no platform listener can run here and reports why.
    pub fn mark_unavailable(&mut self) -> (result: Result<(), ClipboardListenerError>)
        requires
            old(self).wf(),
        ensures
            final(self).wf(),
            final(self).status_spec() == ClipboardListenerStatus::Unavailable,
            final(self).suppressed_spec() == old(self).suppressed_spec(),
            result == Err::<(), ClipboardListenerError>(ClipboardListenerError::UnsupportedPlatform),
    {
        self.status = ClipboardListenerStatus::Unavailable;
        Err(ClipboardListenerError::UnsupportedPlatform)
    }

    /// Stops the listener; stopping a stopped listener succeeds too.
    pub fn stop(&mut self) -> (result: Result<(), ClipboardListenerError>)
        requires
            old(self).wf(),
        ensures
            final(self).wf(),
            result is Ok,
            final(self).status_spec() == ClipboardListenerStatus::Stopped,
            final(self).suppressed_spec() == old(self).suppressed_spec(),
    {
        self.status = ClipboardListenerStatus::Stopped;
        Ok(())
    }
}

/// What storing one captured clipboard value came to.
#[derive(Debug, Clone, Copy, PartialEq, Eq, Structural)]
pub enum ListenerRecordOutcome {
    Recorded { retained: bool },
    PermanentReject,
    RetryableFailure,
}

/// One call the listener made to read the clipboard, with its answer.
pub enum ReaderCall {
    Sequence(u32),
    Suppressed(u32, bool),
    Files(Result<Option<ClipboardFiles>, ()>),
    Image(Result<Option<ClipboardImage>, ()>),
    Text(Result<Option<String>, ()>),
    Source(ClipboardSourceMetadata),
}

/// Reads the current clipboard for the listener. `reads` names the calls
/// made so far, oldest first, each with its answer.
pub trait ClipboardReader {
    /// The calls made so far.
    spec fn reads(&self) -> Seq<ReaderCall>;

    /// The system clipboard sequence number (0 when unknown).
    fn sequence_number(&mut self) -> (sequence: u32)
        ensures
            final(self).reads() == old(self).reads().push(ReaderCall::Sequence(sequence)),
    ;

    /// Whether `sequence` is one of this process's own writes (consuming it).
    fn consume_suppressed_sequence(&mut self, sequence: u32) -> (consumed: bool)
        ensures
            final(self).reads() == old(self).reads().push(ReaderCall::Suppressed(sequence, consumed)),
    ;

    /// The clipboard image, if one is advertised and decodes.
    fn read_image(&mut self) -> (result: Result<Option<ClipboardImage>, ()>)
        ensures
            final(self).reads() == old(self).reads().push(ReaderCall::Image(result)),
    ;

    /// The clipboard file list, if one is advertised and parses.
    fn read_files(&mut self) -> (result: Result<Option<ClipboardFiles>, ()>)
        ensures
            final(self).reads() == old(self).reads().push(ReaderCall::Files(result)),
    ;

    /// The clipboard text, if any.
    fn read_text(&mut self) -> (result: Result<Option<String>, ()>)
        ensures
            final(self).reads() == old(self).reads().push(ReaderCall::Text(result)),
    ;

    /// Where the clipboard content came from.
    fn source_metadata(&mut self) -> (source: ClipboardSourceMetadata)
        ensures
            final(self).reads() == old(self).reads().push(ReaderCall::Source(source)),
    ;
}

/// One capture the listener handed to storage, with its time, its source
/// and what storage answered.
pub enum RecordCall {
    Files(ClipboardFiles, u64, ClipboardSourceMetadata, ListenerRecordOutcome),
    Image(ClipboardImage, u64, ClipboardSourceMetadata, ListenerRecordOutcome),
    Text(String, u64, ClipboardSourceMetadata, ListenerRecordOutcome),
}

/// Stores captured clipboard content for the listener. `recorded` names the
/// captures handed over so far, oldest first, each with its answer.
pub trait ClipboardRecordTarget {
    /// The captures handed over so far.
    spec fn recorded(&self) -> Seq<RecordCall>;

    /// Stores captured text.
    fn record_listener_text(
        &mut self,
        text: String,
        captured_at_ms: u64,
        source: ClipboardSourceMetadata,
    ) -> (outcome: ListenerRecordOutcome)
        ensures
            final(self).recorded() == old(self).recorded().push(RecordCall::Text(text, captured_at_ms, source, outcome)),
    ;

    /// Stores a captured image.
    fn record_listener_image(
        &mut self,
        image: ClipboardImage,
        captured_at_ms: u64,
        source: ClipboardSourceMetadata,
    ) -> (outcome: ListenerRecordOutcome)
        ensures
            final(self).recorded() == old(self).recorded().push(RecordCall::Image(image, captured_at_ms, source, outcome)),
    ;

    /// Stores a captured file list.
    fn record_listener_files(
        &mut self,
        files: ClipboardFiles,
        captured_at_ms: u64,
        source: ClipboardSourceMetadata,
    ) -> (outcome: ListenerRecordOutcome)
        ensures
            final(self).recorded() == old(self).recorded().push(RecordCall::Files(files, captured_at_ms, source, outcome)),
    ;
}

/// Where the listener tells the history's listeners that an item was kept.
/// `notified` counts the notifications so far.
pub trait HistoryEventSink {
    /// How many notifications were sent.
    spec fn notified(&self) -> nat;

    /// Tells the history's listeners that the history changed.
    fn notify(&mut self)
        ensures
            final(self).notified() == old(self).notified() + 1,
    ;
}


/// Whether a failed capture may succeed when the same snapshot is tried
/// again: storage and corrupt-row failures, and, for images, a managed
/// image that could not be written.
pub open spec fn retryable_capture_error(error: ClipboardError, image: bool) -> bool {
    match error {
        ClipboardError::Storage(_) | ClipboardError::CorruptRecord | ClipboardError::LifecycleLockPoisoned => true,
        ClipboardError::Image(ImageError::Io) | ClipboardError::Image(ImageError::Storage) => image,
        _ => false,
    }
}

/// What a capture result counts as for the listener.
pub open spec fn listener_outcome(result: Result<ClipboardRecordResult, ClipboardError>, image: bool) -> ListenerRecordOutcome {
    match result {
        Ok(recorded) => ListenerRecordOutcome::Recorded { retained: recorded.retained },
        Err(error) => if retryable_capture_error(error, image) {
            ListenerRecordOutcome::RetryableFailure
        } else {
            ListenerRecordOutcome::PermanentReject
        },
    }
}

/// What a capture result counts as for the listener (`image`: whether the
/// capture was an image).
pub fn capture_outcome(result: &Result<ClipboardRecordResult, ClipboardError>, image: bool) -> (outcome:
    ListenerRecordOutcome)
    ensures
        outcome == listener_outcome(*result, image),
{
    match result {
        Ok(recorded) => ListenerRecordOutcome::Recorded { retained: recorded.retained },
        Err(ClipboardError::Storage(_)) | Err(ClipboardError::CorruptRecord) | Err(
            ClipboardError::LifecycleLockPoisoned,
        ) => ListenerRecordOutcome::RetryableFailure,
        Err(ClipboardError::Image(ImageError::Io)) | Err(ClipboardError::Image(ImageError::Storage)) => if image {
            ListenerRecordOutcome::RetryableFailure
        } else {
            ListenerRecordOutcome::PermanentReject
        },
        Err(_) => ListenerRecordOutcome::PermanentReject,
    }
}

/// The capture metadata the listener records for a clipboard source.
pub open spec fn listener_metadata(captured_at_ms: u64, source: ClipboardSourceMetadata) -> ClipboardCaptureMetadata {
    ClipboardCaptureMetadata {
        captured_at_ms,
        source_application: source.source_application,
        source_process: source.source_process,
    }
}

/// What the listener counts storing `capture` into `rows` as: kept, dropped
/// again by eviction, or the error that storing it met.
pub open spec fn stored_outcome(
    rows: Seq<StoredRow>,
    next_id: i64,
    capacity: u32,
    hash: Seq<u8>,
    capture: Capture,
    image: bool,
) -> ListenerRecordOutcome {
    match stored_capture(rows, next_id, capacity, hash, capture) {
        Err(error) => listener_outcome(Err(error), image),
        Ok((stored, _, id)) => match item_with_id(stored, id) {
            Ok(Some(_)) => ListenerRecordOutcome::Recorded { retained: true },
            Ok(None) => ListenerRecordOutcome::Recorded { retained: false },
            Err(error) => listener_outcome(Err(error), image),
        },
    }
}

/// What the listener counts a text capture as, on the table `rows`.
pub open spec fn text_capture_outcome(
    rows: Seq<StoredRow>,
    next_id: i64,
    settings: SettingsModel,
    text: Seq<char>,
    metadata: ClipboardCaptureMetadata,
) -> ListenerRecordOutcome {
    if source_ignored(metadata, settings) || text_is_sensitive(text, settings) {
        ListenerRecordOutcome::Recorded { retained: false }
    } else if text.len() == 0 || vstd::utf8::encode_utf8(text).len() > MAX_TEXT_BYTES || metadata_error(metadata) is Some {
        ListenerRecordOutcome::PermanentReject
    } else {
        stored_outcome(
            rows,
            next_id,
            settings.max_items,
            sha256(vstd::utf8::encode_utf8(text)),
            Capture {
                kind: ClipboardContentKind::Text,
                content: text,
                source_application: opt_text(metadata.source_application),
                source_process: opt_text(metadata.source_process),
                captured_at_ms: metadata.captured_at_ms as i64,
                byte_size: vstd::utf8::encode_utf8(text).len() as i64,
            },
            false,
        )
    }
}

/// A capture that the service recorded counts as its stored outcome.
proof fn lemma_recorded_outcome(
    before: Seq<StoredRow>,
    before_next: i64,
    after: Seq<StoredRow>,
    after_next: i64,
    result: Result<ClipboardRecordResult, ClipboardError>,
    capacity: u32,
    hash: Seq<u8>,
    capture: Capture,
    image: bool,
)
    requires
        records(before, before_next, after, after_next, result, capacity, hash, capture),
    ensures
        listener_outcome(result, image) == stored_outcome(before, before_next, capacity, hash, capture, image),
{
}

/// The capture metadata of a clipboard source.
fn capture_metadata(captured_at_ms: u64, source: &ClipboardSourceMetadata) -> (metadata: ClipboardCaptureMetadata)
    ensures
        metadata == listener_metadata(captured_at_ms, *source),
{
    ClipboardCaptureMetadata {
        captured_at_ms,
        source_application: source.source_application.clone(),
        source_process: source.source_process.clone(),
    }
}

/// The cached icon of the source's executable, when it has one.
fn cache_icon_of<F: crate::service::ClipboardFiles>(service: &mut ClipboardService<F>, source: &ClipboardSourceMetadata) -> (icon: Option<String>)
    requires
        old(service).wf(),
    ensures
        final(service).wf(),
        final(service).table() == old(service).table(),
        final(service).next_row_id() == old(service).next_row_id(),
        final(service).preferences() == old(service).preferences(),
        final(service).settings_table() == old(service).settings_table(),
        final(service).observations() == old(service).observations(),
        source.source_executable_path is None ==> icon is None,
{
    match &source.source_executable_path {
        Some(path) => service.cache_source_icon(path.as_str()),
        None => None,
    }
}

/// Points a stored capture at its source icon; a failure leaves the row as
/// it is.
fn attach_icon<F: crate::service::ClipboardFiles>(
    service: &mut ClipboardService<F>,
    result: &Result<ClipboardRecordResult, ClipboardError>,
    icon: Option<String>,
)
    requires
        old(service).wf(),
    ensures
        final(service).wf(),
        final(service).table() == old(service).table() || (result matches Ok(recorded) && recorded.item matches Some(
            item,
        ) && icon matches Some(name) && final(service).table() == with_icon_for(old(service).table(), item.id, name@)),
        final(service).next_row_id() == old(service).next_row_id(),
        final(service).preferences() == old(service).preferences(),
        final(service).settings_table() == old(service).settings_table(),
        final(service).observations() == old(service).observations(),
{
    if let Ok(recorded) = result {
        if let Some(item) = &recorded.item {
            let reference = match &icon {
                Some(name) => Some(name.as_str()),
                None => None,
            };
            let _ = service.attach_source_icon(item.id, reference);
        }
    }
}

/// Stores captured text for the listener, with its source icon when the
/// text was kept.
pub fn record_listener_text<F: crate::service::ClipboardFiles>(
    service: &mut ClipboardService<F>,
    text: String,
    captured_at_ms: u64,
    source: ClipboardSourceMetadata,
) -> (outcome: ListenerRecordOutcome)
    requires
        old(service).wf(),
    ensures
        final(service).wf(),
        final(service).preferences() == old(service).preferences(),
        final(service).settings_table() == old(service).settings_table(),
        final(service).observations() == old(service).observations(),
        outcome == text_capture_outcome(
            old(service).table(),
            old(service).next_row_id(),
            old(service).preferences(),
            text@,
            listener_metadata(captured_at_ms, source),
        ),
{
    let icon = cache_icon_of(service, &source);
    let ghost rows = service.table();
    let ghost next_id = service.next_row_id();
    let ghost settings = service.preferences();
    let result = service.record_text(text, capture_metadata(captured_at_ms, &source));
    proof {
        let metadata = listener_metadata(captured_at_ms, source);
        if !(source_ignored(metadata, settings) || text_is_sensitive(text@, settings)) && !(text@.len() == 0
            || vstd::utf8::encode_utf8(text@).len() > MAX_TEXT_BYTES || metadata_error(metadata) is Some) {
            lemma_recorded_outcome(
                rows,
                next_id,
                service.table(),
                service.next_row_id(),
                result,
                settings.max_items,
                sha256(vstd::utf8::encode_utf8(text@)),
                Capture {
                    kind: ClipboardContentKind::Text,
                    content: text@,
                    source_application: opt_text(metadata.source_application),
                    source_process: opt_text(metadata.source_process),
                    captured_at_ms: metadata.captured_at_ms as i64,
                    byte_size: vstd::utf8::encode_utf8(text@).len() as i64,
                },
                false,
            );
        }
    }
    attach_icon(service, &result, icon);
    capture_outcome(&result, false)
}

/// Stores a captured image for the listener, with its source icon when the
/// image was kept.
pub fn record_listener_image<F: crate::service::ClipboardFiles>(
    service: &mut ClipboardService<F>,
    image: ClipboardImage,
    captured_at_ms: u64,
    source: ClipboardSourceMetadata,
) -> (outcome: ListenerRecordOutcome)
    requires
        old(service).wf(),
    ensures
        final(service).wf(),
        final(service).preferences() == old(service).preferences(),
        final(service).settings_table() == old(service).settings_table(),
        final(service).observations() == old(service).observations(),
        ({
            let metadata = listener_metadata(captured_at_ms, source);
            if source_ignored(metadata, old(service).preferences()) {
                outcome == ListenerRecordOutcome::Recorded { retained: false }
            } else if metadata_error(metadata) is Some {
                outcome == ListenerRecordOutcome::PermanentReject
            } else {
                ||| !(outcome is Recorded)
                ||| exists|reference: Seq<char>, hash: Seq<u8>, size: i64|
                    0 <= size <= JS_MAX_SAFE_INTEGER && outcome == #[trigger] stored_outcome(
                        old(service).table(),
                        old(service).next_row_id(),
                        old(service).preferences().max_items,
                        hash,
                        capture_of_image(reference, metadata, size),
                        true,
                    )
            }
        }),
{
    let icon = cache_icon_of(service, &source);
    let ghost rows = service.table();
    let ghost next_id = service.next_row_id();
    let ghost settings = service.preferences();
    let ghost metadata = listener_metadata(captured_at_ms, source);
    let result = service.record_image(image.width, image.height, image.rgba, capture_metadata(captured_at_ms, &source));
    let ghost after = service.table();
    let ghost after_next = service.next_row_id();
    attach_icon(service, &result, icon);
    let outcome = capture_outcome(&result, true);
    proof {
        if !source_ignored(metadata, settings) && metadata_error(metadata) is None && !(result matches Err(
            ClipboardError::Image(_),
        ) || result == Err::<ClipboardRecordResult, ClipboardError>(ClipboardError::NumericRange)) {
            let (reference, hash, size) = choose|reference: Seq<char>, hash: Seq<u8>, size: i64|
                0 <= size <= JS_MAX_SAFE_INTEGER && #[trigger] records(
                    rows,
                    next_id,
                    after,
                    after_next,
                    result,
                    settings.max_items,
                    hash,
                    capture_of_image(reference, metadata, size),
                );
            lemma_recorded_outcome(
                rows,
                next_id,
                after,
                after_next,
                result,
                settings.max_items,
                hash,
                capture_of_image(reference, metadata, size),
                true,
            );
        }
    }
    outcome
}

/// Stores a captured file list for the listener, with its source icon when
/// the list was kept.
pub fn record_listener_files<F: crate::service::ClipboardFiles>(
    service: &mut ClipboardService<F>,
    files: ClipboardFiles,
    captured_at_ms: u64,
    source: ClipboardSourceMetadata,
) -> (outcome: ListenerRecordOutcome)
    requires
        old(service).wf(),
    ensures
        final(service).wf(),
        final(service).preferences() == old(service).preferences(),
        final(service).settings_table() == old(service).settings_table(),
        final(service).observations() == old(service).observations(),
        ({
            let metadata = listener_metadata(captured_at_ms, source);
            if source_ignored(metadata, old(service).preferences()) {
                outcome == ListenerRecordOutcome::Recorded { retained: false }
            } else if metadata_error(metadata) is Some || !valid_path_list(unit_lists(files.paths@)) {
                outcome == ListenerRecordOutcome::PermanentReject
            } else {
                ||| outcome == ListenerRecordOutcome::PermanentReject
                ||| exists|size: i64|
                    0 <= size <= JS_MAX_SAFE_INTEGER && outcome == #[trigger] stored_outcome(
                        old(service).table(),
                        old(service).next_row_id(),
                        old(service).preferences().max_items,
                        sha256(path_hash_input(unit_lists(files.paths@))),
                        capture_of_files(files.paths, metadata, size),
                        false,
                    )
            }
        }),
{
    let icon = cache_icon_of(service, &source);
    let ghost rows = service.table();
    let ghost next_id = service.next_row_id();
    let ghost settings = service.preferences();
    let ghost metadata = listener_metadata(captured_at_ms, source);
    let ghost paths = files.paths;
    let result = service.record_files(files.paths, capture_metadata(captured_at_ms, &source));
    let ghost after = service.table();
    let ghost after_next = service.next_row_id();
    attach_icon(service, &result, icon);
    let outcome = capture_outcome(&result, false);
    proof {
        if !source_ignored(metadata, settings) && metadata_error(metadata) is None && valid_path_list(
            unit_lists(paths@),
        ) && result != Err::<ClipboardRecordResult, ClipboardError>(ClipboardError::InvalidFiles) {
            let size = choose|size: i64|
                0 <= size <= JS_MAX_SAFE_INTEGER && #[trigger] records(
                    rows,
                    next_id,
                    after,
                    after_next,
                    result,
                    settings.max_items,
                    sha256(path_hash_input(unit_lists(paths@))),
                    capture_of_files(paths, metadata, size),
                );
            lemma_recorded_outcome(
                rows,
                next_id,
                after,
                after_next,
                result,
                settings.max_items,
                sha256(path_hash_input(unit_lists(paths@))),
                capture_of_files(paths, metadata, size),
                false,
            );
        }
    }
    outcome
}

/// The last committed sequence once a snapshot of `sequence` came to
/// `outcome` (`None`: there was nothing to record).
pub open spec fn settled_sequence(
    last_sequence: Option<u32>,
    sequence: u32,
    outcome: Option<ListenerRecordOutcome>,
) -> Option<u32> {
    match outcome {
        Some(ListenerRecordOutcome::RetryableFailure) => last_sequence,
        _ => committed(last_sequence, sequence),
    }
}

/// Settles a snapshot of `sequence`: commits it unless storage asked for a
/// retry, and says whether listeners of the history must be told.
pub fn settle_notification(
    last_sequence: &mut Option<u32>,
    sequence: u32,
    outcome: Option<ListenerRecordOutcome>,
) -> (emit: bool)
    ensures
        *final(last_sequence) == settled_sequence(*old(last_sequence), sequence, outcome),
        emit == (outcome == Some(ListenerRecordOutcome::Recorded { retained: true })),
{
    match outcome {
        Some(ListenerRecordOutcome::Recorded { retained }) => {
            commit_sequence(last_sequence, sequence);
            retained
        },
        Some(ListenerRecordOutcome::PermanentReject) => {
            commit_sequence(last_sequence, sequence);
            false
        },
        Some(ListenerRecordOutcome::RetryableFailure) => false,
        None => {
            commit_sequence(last_sequence, sequence);
            false
        },
    }
}

/// `text` when it is present and not empty.
pub fn non_empty_text(text: Option<String>) -> (result: Option<String>)
    ensures
        match text {
            Some(t) => if t@.len() > 0 {
                result == Some(t)
            } else {
                result is None
            },
            None => result is None,
        },
{
    match text {
        Some(t) => {
            if t.as_str().is_empty() {
                None
            } else {
                Some(t)
            }
        },
        None => None,
    }
}

/// What a notification records, in the order it tries it.
#[derive(Debug, Clone, Copy, PartialEq, Eq, Structural)]
pub enum RecordKind {
    Files,
    Image,
    Text,
}

/// The contents a snapshot offers, in the order the listener tries them:
/// a file list, then an image, then non-empty text.
pub open spec fn record_candidates(files: bool, image: bool, text: bool) -> Seq<RecordKind> {
    (if files {
        seq![RecordKind::Files]
    } else {
        Seq::empty()
    }) + (if image {
        seq![RecordKind::Image]
    } else {
        Seq::empty()
    }) + (if text {
        seq![RecordKind::Text]
    } else {
        Seq::empty()
    })
}

/// The kind of content a record call handed over, and what storage answered.
pub open spec fn record_kind(call: RecordCall) -> (RecordKind, ListenerRecordOutcome) {
    match call {
        RecordCall::Files(_, _, _, outcome) => (RecordKind::Files, outcome),
        RecordCall::Image(_, _, _, outcome) => (RecordKind::Image, outcome),
        RecordCall::Text(_, _, _, outcome) => (RecordKind::Text, outcome),
    }
}

/// Whether `call` handed over the snapshot's own content of its kind, with
/// the capture time and source of the snapshot.
pub open spec fn record_carries(
    call: RecordCall,
    files: Option<ClipboardFiles>,
    image: Option<ClipboardImage>,
    text: Option<String>,
    captured_at_ms: u64,
    source: ClipboardSourceMetadata,
) -> bool {
    match call {
        RecordCall::Files(f, at, s, _) => files == Some(f) && at == captured_at_ms && s == source,
        RecordCall::Image(i, at, s, _) => image == Some(i) && at == captured_at_ms && s == source,
        RecordCall::Text(t, at, s, _) => text == Some(t) && at == captured_at_ms && s == source,
    }
}

/// Whether `calls` are the record calls made for a snapshot of `files`,
/// `image` and non-empty `text`: the candidates of [`record_candidates`] in
/// order, each carrying the snapshot's content, time and source, each tried
/// only after the one before was permanently rejected; a kept or retryable
/// outcome ends the attempts.
pub open spec fn records_planned(
    calls: Seq<RecordCall>,
    files: Option<ClipboardFiles>,
    image: Option<ClipboardImage>,
    text: Option<String>,
    captured_at_ms: u64,
    source: ClipboardSourceMetadata,
) -> bool {
    let candidates = record_candidates(files is Some, image is Some, text is Some);
    if candidates.len() == 0 {
        calls.len() == 0
    } else {
        &&& 1 <= calls.len() <= candidates.len()
        &&& forall|k: int|
            0 <= k < calls.len() ==> record_kind(#[trigger] calls[k]).0 == candidates[k]
                && record_carries(calls[k], files, image, text, captured_at_ms, source)
        &&& forall|k: int|
            0 <= k < calls.len() - 1 ==> record_kind(#[trigger] calls[k]).1
                == ListenerRecordOutcome::PermanentReject
        &&& calls.len() == candidates.len() || record_kind(calls.last()).1
            != ListenerRecordOutcome::PermanentReject
    }
}

/// The outcome of a snapshot's record calls: what the last one answered.
pub open spec fn last_outcome(calls: Seq<RecordCall>) -> Option<ListenerRecordOutcome> {
    if calls.len() == 0 {
        None
    } else {
        Some(record_kind(calls.last()).1)
    }
}

/// Whether the log `after` is `before` with more entries appended.
pub open spec fn log_extends<A>(before: Seq<A>, after: Seq<A>) -> bool {
    before.len() <= after.len() && after.subrange(0, before.len() as int) == before
}

/// Records a file list, else an image, else non-empty text, moving on only
/// after a permanent rejection.
fn record_in_order<T: ClipboardRecordTarget>(
    target: &mut T,
    files: Option<ClipboardFiles>,
    image: Option<ClipboardImage>,
    text: Option<String>,
    captured_at_ms: u64,
    source: ClipboardSourceMetadata,
) -> (outcome: Option<ListenerRecordOutcome>)
    ensures
        log_extends(old(target).recorded(), final(target).recorded()),
        records_planned(
            log_since(old(target).recorded(), final(target).recorded()),
            files,
            image,
            non_empty_text_spec(text),
            captured_at_ms,
            source,
        ),
        outcome == last_outcome(log_since(old(target).recorded(), final(target).recorded())),
{
    let ghost start = target.recorded();
    let text = non_empty_text(text);
    let ghost mut made: Seq<RecordCall> = Seq::empty();
    let mut tried = false;
    assert(target.recorded().subrange(0, start.len() as int) =~= start);
    assert(log_since(start, target.recorded()) =~= made);
    if let Some(files) = files {
        let outcome = target.record_listener_files(files, captured_at_ms, source.duplicate());
        tried = true;
        proof {
            made = made.push(RecordCall::Files(files, captured_at_ms, source, outcome));
            assert(target.recorded().subrange(0, start.len() as int) =~= start);
            assert(log_since(start, target.recorded()) =~= made);
        }
        if outcome != ListenerRecordOutcome::PermanentReject {
            return Some(outcome);
        }
    }
    if let Some(image) = image {
        let outcome = target.record_listener_image(image, captured_at_ms, source.duplicate());
        tried = true;
        proof {
            made = made.push(RecordCall::Image(image, captured_at_ms, source, outcome));
            assert(target.recorded().subrange(0, start.len() as int) =~= start);
            assert(log_since(start, target.recorded()) =~= made);
        }
        if outcome != ListenerRecordOutcome::PermanentReject {
            return Some(outcome);
        }
    }
    if let Some(text) = text {
        let outcome = target.record_listener_text(text, captured_at_ms, source.duplicate());
        proof {
            made = made.push(RecordCall::Text(text, captured_at_ms, source, outcome));
            assert(target.recorded().subrange(0, start.len() as int) =~= start);
            assert(log_since(start, target.recorded()) =~= made);
        }
        return Some(outcome);
    }
    if tried {
        Some(ListenerRecordOutcome::PermanentReject)
    } else {
        None
    }
}

/// Records an image, or else non-empty text, after a file list was
/// permanently rejected; with neither, the rejection stands.
pub fn fallback_image_or_text<T: ClipboardRecordTarget>(
    target: &mut T,
    image: Option<ClipboardImage>,
    text: Option<String>,
    captured_at_ms: u64,
    source: ClipboardSourceMetadata,
) -> (outcome: ListenerRecordOutcome)
    ensures
        log_extends(old(target).recorded(), final(target).recorded()),
        records_planned(
            log_since(old(target).recorded(), final(target).recorded()),
            None,
            image,
            non_empty_text_spec(text),
            captured_at_ms,
            source,
        ),
        outcome == match last_outcome(log_since(old(target).recorded(), final(target).recorded())) {
            Some(last) => last,
            None => ListenerRecordOutcome::PermanentReject,
        },
{
    match record_in_order(target, None, image, text, captured_at_ms, source) {
        Some(outcome) => outcome,
        None => ListenerRecordOutcome::PermanentReject,
    }
}

/// `text` when it is present and not empty.
pub open spec fn non_empty_text_spec(text: Option<String>) -> Option<String> {
    match text {
        Some(t) => if t@.len() > 0 {
            Some(t)
        } else {
            None
        },
        None => None,
    }
}

/// What a read answered, a failed read counting as nothing read.
pub open spec fn answered<A>(result: Result<Option<A>, ()>) -> Option<A> {
    match result {
        Ok(value) => value,
        Err(_) => None,
    }
}

/// Whether, after the first sequence `sequence` was read and found to be
/// neither a repeat nor the library's own write, the remaining reads
/// `reads`, the record calls `records` and the `notified` notifications
/// follow the listener's rules, `before` and `after` being the last
/// committed sequence before and after: files, image and text are read; a
/// text failure with nothing else read ends it; otherwise the source and
/// the sequence again are read, a snapshot whose sequence changed is
/// discarded, and a stable one is recorded in order, the sequence settled
/// by the outcome and listeners told only of a kept capture.
pub open spec fn snapshot_follows(
    before: Option<u32>,
    after: Option<u32>,
    sequence: u32,
    reads: Seq<ReaderCall>,
    records: Seq<RecordCall>,
    notified: int,
    captured_at_ms: u64,
) -> bool {
    &&& reads.len() >= 3
    &&& match (reads[0], reads[1], reads[2]) {
        (ReaderCall::Files(files_read), ReaderCall::Image(image_read), ReaderCall::Text(text_read)) => {
            let files = answered(files_read);
            let image = answered(image_read);
            if text_read is Err && files is None && image is None {
                reads.len() == 3 && records.len() == 0 && notified == 0 && after == before
            } else {
                &&& reads.len() == 5
                &&& match (reads[3], reads[4]) {
                    (ReaderCall::Source(source), ReaderCall::Sequence(final_sequence)) => {
                        match stable_sequence_spec(sequence, final_sequence) {
                            None => records.len() == 0 && notified == 0 && after == before,
                            Some(settled) => {
                                &&& records_planned(
                                    records,
                                    files,
                                    image,
                                    non_empty_text_spec(answered(text_read)),
                                    captured_at_ms,
                                    source,
                                )
                                &&& after == settled_sequence(before, settled, last_outcome(records))
                                &&& notified == if last_outcome(records) == Some(
                                    ListenerRecordOutcome::Recorded { retained: true },
                                ) {
                                    1int
                                } else {
                                    0int
                                }
                            },
                        }
                    },
                    _ => false,
                }
            }
        },
        _ => false,
    }
}

/// Whether one notification that found the last committed sequence
/// `before` and left `after` made the reads `reads`, the record calls
/// `records` and `notified` notifications by the listener's rules: the
/// sequence is read first; a repeated sequence is skipped; the library's
/// own write is committed without reading anything else; any other
/// notification goes on as [`snapshot_follows`] says.
pub open spec fn notification_follows(
    before: Option<u32>,
    after: Option<u32>,
    reads: Seq<ReaderCall>,
    records: Seq<RecordCall>,
    notified: int,
    captured_at_ms: u64,
) -> bool {
    &&& reads.len() >= 1
    &&& match reads[0] {
        ReaderCall::Sequence(sequence) => {
            if sequence != 0 && before == Some(sequence) {
                reads.len() == 1 && records.len() == 0 && notified == 0 && after == before
            } else if sequence != 0 {
                &&& reads.len() >= 2
                &&& match reads[1] {
                    ReaderCall::Suppressed(asked, true) => {
                        &&& asked == sequence
                        &&& reads.len() == 2 && records.len() == 0 && notified == 0
                        &&& after == committed(before, sequence)
                    },
                    ReaderCall::Suppressed(asked, false) => {
                        &&& asked == sequence
                        &&& snapshot_follows(before, after, sequence, reads.skip(2), records, notified, captured_at_ms)
                    },
                    _ => false,
                }
            } else {
                snapshot_follows(before, after, sequence, reads.skip(1), records, notified, captured_at_ms)
            }
        },
        _ => false,
    }
}

/// A snapshot whose first and last sequence reads give two different known
/// sequences is discarded: nothing is recorded, nobody is told, and the
/// committed sequence stays, so a later notification reads it again.
pub proof fn lemma_changed_snapshot_discarded(
    before: Option<u32>,
    after: Option<u32>,
    reads: Seq<ReaderCall>,
    records: Seq<RecordCall>,
    notified: int,
    captured_at_ms: u64,
    first: u32,
    last: u32,
)
    requires
        notification_follows(before, after, reads, records, notified, captured_at_ms),
        reads[0] == ReaderCall::Sequence(first),
        reads.last() == ReaderCall::Sequence(last),
        first != 0,
        last != 0,
        first != last,
    ensures
        records.len() == 0,
        notified == 0,
        after == before,
{
    if !(before == Some(first)) {
        match reads[1] {
            ReaderCall::Suppressed(_, false) => {
                let rest = reads.skip(2);
                assert(rest.last() == reads.last());
            },
            _ => {},
        }
    }
}

/// How a snapshot that was recorded settles: a retryable failure leaves the
/// committed sequence as it was and tells nobody; any other last outcome
/// commits the snapshot's known sequence.
pub proof fn lemma_recorded_snapshot_settles(
    before: Option<u32>,
    after: Option<u32>,
    reads: Seq<ReaderCall>,
    records: Seq<RecordCall>,
    notified: int,
    captured_at_ms: u64,
    first: u32,
)
    requires
        notification_follows(before, after, reads, records, notified, captured_at_ms),
        reads[0] == ReaderCall::Sequence(first),
        first != 0,
        records.len() > 0,
    ensures
        last_outcome(records) == Some(ListenerRecordOutcome::RetryableFailure) ==> after == before && notified == 0,
        last_outcome(records) != Some(ListenerRecordOutcome::RetryableFailure) ==> after == Some(first),
{
}

/// The order of the record calls: a file list is handed over first; an
/// image first when there is no file list; text alone otherwise; each call
/// carries the snapshot's own content; and only a permanent rejection
/// leads to another call.
pub proof fn lemma_record_priority(
    calls: Seq<RecordCall>,
    files: Option<ClipboardFiles>,
    image: Option<ClipboardImage>,
    text: Option<String>,
    captured_at_ms: u64,
    source: ClipboardSourceMetadata,
)
    requires
        records_planned(calls, files, image, text, captured_at_ms, source),
    ensures
        files is Some ==> calls.len() >= 1 && calls[0] == RecordCall::Files(
            files->0,
            captured_at_ms,
            source,
            record_kind(calls[0]).1,
        ),
        files is None && image is Some ==> calls.len() >= 1 && calls[0] == RecordCall::Image(
            image->0,
            captured_at_ms,
            source,
            record_kind(calls[0]).1,
        ),
        files is None && image is None && text is Some ==> calls.len() == 1 && calls[0] == RecordCall::Text(
            text->0,
            captured_at_ms,
            source,
            record_kind(calls[0]).1,
        ),
        files is None && image is None && text is None ==> calls.len() == 0,
        forall|k: int| 0 <= k < calls.len() - 1 ==> record_kind(#[trigger] calls[k]).1
            == ListenerRecordOutcome::PermanentReject,
{
    let candidates = record_candidates(files is Some, image is Some, text is Some);
    if calls.len() >= 1 {
        assert(record_kind(calls[0]).0 == candidates[0]);
        assert(record_carries(calls[0], files, image, text, captured_at_ms, source));
    }
}

/// Handles one clipboard-changed notification: skips repeats and the
/// library's own writes, reads files, image and text, and records the most
/// meaningful one unless the clipboard changed meanwhile. A file list that
/// storage rejects falls back to the image, then to the text. `sink` is told
/// once when a capture was kept.
pub fn process_clipboard_notification<R: ClipboardReader, T: ClipboardRecordTarget, S: HistoryEventSink>(
    reader: &mut R,
    last_sequence: &mut Option<u32>,
    target: &mut T,
    sink: &mut S,
    captured_at_ms: u64,
)
    ensures
        log_extends(old(reader).reads(), final(reader).reads()),
        log_extends(old(target).recorded(), final(target).recorded()),
        final(sink).notified() >= old(sink).notified(),
        notification_follows(
            *old(last_sequence),
            *final(last_sequence),
            log_since(old(reader).reads(), final(reader).reads()),
            log_since(old(target).recorded(), final(target).recorded()),
            final(sink).notified() - old(sink).notified(),
            captured_at_ms,
        ),
{
    let ghost reads0 = reader.reads();
    let ghost records0 = target.recorded();
    let ghost notified0 = sink.notified();
    let ghost before = *last_sequence;
    assert(target.recorded().subrange(0, records0.len() as int) =~= records0);
    assert(log_since(records0, target.recorded()) =~= Seq::<RecordCall>::empty());
    let sequence = reader.sequence_number();
    let ghost mut made: Seq<ReaderCall> = seq![ReaderCall::Sequence(sequence)];
    assert(reader.reads().subrange(0, reads0.len() as int) =~= reads0);
    assert(log_since(reads0, reader.reads()) =~= made);
    if is_duplicate_sequence(*last_sequence, sequence) {
        return;
    }
    let mut prefix: usize = 1;
    if sequence != 0 {
        let consumed = reader.consume_suppressed_sequence(sequence);
        proof {
            made = made.push(ReaderCall::Suppressed(sequence, consumed));
            assert(reader.reads().subrange(0, reads0.len() as int) =~= reads0);
            assert(log_since(reads0, reader.reads()) =~= made);
        }
        if consumed {
            commit_sequence(last_sequence, sequence);
            return;
        }
        prefix = 2;
    }
    let ghost head = made;
    let files_read = reader.read_files();
    let image_read = reader.read_image();
    let text_read = reader.read_text();
    let ghost rest: Seq<ReaderCall> = seq![
        ReaderCall::Files(files_read),
        ReaderCall::Image(image_read),
        ReaderCall::Text(text_read),
    ];
    proof {
        made = head + rest;
        assert(reader.reads().subrange(0, reads0.len() as int) =~= reads0);
        assert(log_since(reads0, reader.reads()) =~= made);
        assert(made.skip(prefix as int) =~= rest);
    }
    let files = match files_read {
        Ok(files) => files,
        Err(()) => None,
    };
    let image = match image_read {
        Ok(image) => image,
        Err(()) => None,
    };
    let text = match text_read {
        Ok(text) => text,
        Err(()) => {
            if files.is_none() && image.is_none() {
                return;
            }
            None
        },
    };
    let source = reader.source_metadata();
    let final_sequence = reader.sequence_number();
    let ghost rest = rest.push(ReaderCall::Source(source)).push(ReaderCall::Sequence(final_sequence));
    proof {
        made = head + rest;
        assert(reader.reads().subrange(0, reads0.len() as int) =~= reads0);
        assert(log_since(reads0, reader.reads()) =~= made);
        assert(made.skip(prefix as int) =~= rest);
    }
    let settled = match stable_sequence(sequence, final_sequence) {
        Some(settled) => settled,
        None => {
            return;
        },
    };
    let outcome = record_in_order(target, files, image, text, captured_at_ms, source);
    if settle_notification(last_sequence, settled, outcome) {
        sink.notify();
    }
}


/// How many times a clipboard read is attempted before it gives up.
pub const OPEN_ATTEMPTS: usize = 5;
/// Standard clipboard format numbers.
pub const CF_BITMAP_FORMAT: u32 = 2;
pub const CF_DIB_FORMAT: u32 = 8;
pub const CF_HDROP_FORMAT: u32 = 15;
pub const CF_DIBV5_FORMAT: u32 = 17;

/// One call the readers made to the clipboard, with its arguments and answer.
pub enum ApiCall {
    TextAvailable(bool),
    Open(bool),
    Close,
    TextData(Option<usize>),
    Size(usize, usize),
    LockUnits(usize, usize, Option<Vec<u16>>),
    LockBytes(usize, usize, Option<Vec<u8>>),
    Unlock(usize),
    FormatAvailable(u32, bool),
    FormatData(u32, Option<usize>),
    PngFormat(u32),
    Bitmap(Result<Option<ClipboardImage>, ()>),
}

/// The clipboard calls the readers make. Locking copies the locked block out,
/// so no raw pointer crosses this boundary; every successful lock is paired
/// with one `global_unlock`, every successful `open` with one `close`.
/// `calls` names the calls made so far, oldest first, each with its answer.
pub trait ClipboardApi {
    /// The calls made so far.
    spec fn calls(&self) -> Seq<ApiCall>;

    /// Whether `CF_UNICODETEXT` is on the clipboard.
    fn is_unicode_text_available(&mut self) -> (available: bool)
        ensures
            final(self).calls() == old(self).calls().push(ApiCall::TextAvailable(available)),
    ;

    /// Opens the clipboard.
    fn open(&mut self) -> (opened: bool)
        ensures
            final(self).calls() == old(self).calls().push(ApiCall::Open(opened)),
    ;

    /// Closes the clipboard opened by `open`.
    fn close(&mut self)
        ensures
            final(self).calls() == old(self).calls().push(ApiCall::Close),
    ;

    /// The handle of the `CF_UNICODETEXT` block.
    fn get_unicode_text_data(&mut self) -> (handle: Option<usize>)
        ensures
            final(self).calls() == old(self).calls().push(ApiCall::TextData(handle)),
    ;

    /// The size in bytes of the block behind `handle`.
    fn global_size(&mut self, handle: usize) -> (size: usize)
        ensures
            final(self).calls() == old(self).calls().push(ApiCall::Size(handle, size)),
    ;

    /// Locks `handle` and copies its first `count` UTF-16 units.
    fn global_lock_units(&mut self, handle: usize, count: usize) -> (units: Option<Vec<u16>>)
        ensures
            final(self).calls() == old(self).calls().push(ApiCall::LockUnits(handle, count, units)),
    ;

    /// Locks `handle` and copies its first `count` bytes.
    fn global_lock_bytes(&mut self, handle: usize, count: usize) -> (bytes: Option<Vec<u8>>)
        ensures
            final(self).calls() == old(self).calls().push(ApiCall::LockBytes(handle, count, bytes)),
    ;

    /// Unlocks a block locked by one of the lock calls.
    fn global_unlock(&mut self, handle: usize)
        ensures
            final(self).calls() == old(self).calls().push(ApiCall::Unlock(handle)),
    ;

    /// Whether `format` is on the clipboard.
    fn is_format_available(&mut self, format: u32) -> (available: bool)
        ensures
            final(self).calls() == old(self).calls().push(ApiCall::FormatAvailable(format, available)),
    ;

    /// The handle of the block in `format`.
    fn get_format_data(&mut self, format: u32) -> (handle: Option<usize>)
        ensures
            final(self).calls() == old(self).calls().push(ApiCall::FormatData(format, handle)),
    ;

    /// The registered "PNG" format number (0 when unregistered).
    fn png_format(&mut self) -> (format: u32)
        ensures
            final(self).calls() == old(self).calls().push(ApiCall::PngFormat(format)),
    ;

    /// The `CF_BITMAP` image of the opened clipboard.
    fn bitmap_image(&mut self) -> (result: Result<Option<ClipboardImage>, ()>)
        ensures
            final(self).calls() == old(self).calls().push(ApiCall::Bitmap(result)),
    ;
}

/// The entries appended to the log `before` to give `after`.
pub open spec fn log_since<A>(before: Seq<A>, after: Seq<A>) -> Seq<A> {
    after.subrange(before.len() as int, after.len() as int)
}

/// Entries appended in two steps are the first step's, then the second's.
pub(crate) proof fn lemma_log_since_split<A>(a: Seq<A>, b: Seq<A>, c: Seq<A>)
    requires
        log_extends(a, b),
        log_extends(b, c),
    ensures
        log_extends(a, c),
        log_since(a, c) == log_since(a, b) + log_since(b, c),
{
    assert(c.subrange(0, a.len() as int) =~= b.subrange(0, a.len() as int));
    assert(log_since(a, c) =~= log_since(a, b) + log_since(b, c));
}

/// A log extends itself, with nothing appended.
pub(crate) proof fn lemma_log_since_self<A>(a: Seq<A>)
    ensures
        log_extends(a, a),
        log_since(a, a) == Seq::<A>::empty(),
{
    assert(a.subrange(0, a.len() as int) =~= a);
    assert(log_since(a, a) =~= Seq::<A>::empty());
}

/// One appended entry extends a log by exactly that entry.
pub(crate) proof fn lemma_log_push<A>(a: Seq<A>, x: A)
    ensures
        log_extends(a, a.push(x)),
        log_since(a, a.push(x)) == seq![x],
{
    assert(a.push(x).subrange(0, a.len() as int) =~= a);
    assert(log_since(a, a.push(x)) =~= seq![x]);
}

/// How many UTF-16 units a text read copies out of a block of `size`
/// bytes: the whole block, but no more than one unit past the text limit.
pub open spec fn text_lock_units(size: usize) -> int {
    if size / 2 < MAX_TEXT_BYTES + 1 {
        (size / 2) as int
    } else {
        MAX_TEXT_BYTES + 1
    }
}

/// How many UTF-16 units to copy out of a text block of `size` bytes.
pub fn text_units_to_copy(size: usize) -> (count: usize)
    ensures
        count == text_lock_units(size),
{
    let available_units = size / 2;
    if available_units < MAX_TEXT_BYTES + 1 {
        available_units
    } else {
        MAX_TEXT_BYTES + 1
    }
}

/// What `calls` read when they are exactly one attempt at reading
/// `CF_UNICODETEXT`: open; take the handle; read the block's size; copy
/// `text_lock_units(size)` units; unlock; close, the text being the
/// NUL-terminated decoding of the units. An attempt whose open fails stops
/// there; one that fails at a later step closes the clipboard and fails.
pub open spec fn text_attempt(calls: Seq<ApiCall>) -> Option<Result<Option<Seq<char>>, ()>> {
    if calls == seq![ApiCall::Open(false)] {
        Some(Err(()))
    } else if calls.len() < 3 || calls[0] != ApiCall::Open(true) || calls.last() != ApiCall::Close {
        None
    } else {
        match calls[1] {
            ApiCall::TextData(None) => if calls.len() == 3 {
                Some(Err(()))
            } else {
                None
            },
            ApiCall::TextData(Some(handle)) => match calls[2] {
                ApiCall::Size(sized, size) => if sized != handle {
                    None
                } else if size < 2 {
                    if calls.len() == 4 {
                        Some(Err(()))
                    } else {
                        None
                    }
                } else if calls.len() < 5 {
                    None
                } else {
                    match calls[3] {
                        ApiCall::LockUnits(locked, count, units) => if locked != handle || count
                            != text_lock_units(size) {
                            None
                        } else {
                            match units {
                                None => if calls.len() == 5 {
                                    Some(Err(()))
                                } else {
                                    None
                                },
                                Some(units) => if calls.len() == 6 && calls[4] == ApiCall::Unlock(
                                    handle,
                                ) {
                                    Some(null_terminated_text(units@))
                                } else {
                                    None
                                },
                            }
                        },
                        _ => None,
                    }
                },
                _ => None,
            },
            _ => None,
        }
    }
}

/// What `calls` read when they are exactly one attempt at reading the block
/// in `format`: open; take the handle; read the block's size; a size outside
/// `min_size..=MAX_CLIPBOARD_BLOCK_BYTES` reads as nothing; otherwise copy
/// the whole block, unlock and close. An attempt whose open fails stops
/// there; one that fails at a later step closes the clipboard and fails.
pub open spec fn block_attempt(calls: Seq<ApiCall>, format: u32, min_size: usize) -> Option<
    Result<Option<Seq<u8>>, ()>,
> {
    if calls == seq![ApiCall::Open(false)] {
        Some(Err(()))
    } else if calls.len() < 3 || calls[0] != ApiCall::Open(true) || calls.last() != ApiCall::Close {
        None
    } else {
        match calls[1] {
            ApiCall::FormatData(asked, None) => if asked == format && calls.len() == 3 {
                Some(Err(()))
            } else {
                None
            },
            ApiCall::FormatData(asked, Some(handle)) => if asked != format {
                None
            } else {
                match calls[2] {
                    ApiCall::Size(sized, size) => if sized != handle {
                        None
                    } else if size < min_size || size > MAX_CLIPBOARD_BLOCK_BYTES {
                        if calls.len() == 4 {
                            Some(Ok(None))
                        } else {
                            None
                        }
                    } else if calls.len() < 5 {
                        None
                    } else {
                        match calls[3] {
                            ApiCall::LockBytes(locked, count, bytes) => if locked != handle || count
                                != size {
                                None
                            } else {
                                match bytes {
                                    None => if calls.len() == 5 {
                                        Some(Err(()))
                                    } else {
                                        None
                                    },
                                    Some(bytes) => if calls.len() == 6 && calls[4]
                                        == ApiCall::Unlock(handle) {
                                        Some(Ok(Some(bytes@)))
                                    } else {
                                        None
                                    },
                                }
                            },
                            _ => None,
                        }
                    },
                    _ => None,
                }
            },
            _ => None,
        }
    }
}

/// An image as width, height and RGBA bytes.
pub open spec fn image_view(image: ClipboardImage) -> (int, int, Seq<u8>) {
    (image.width as int, image.height as int, image.rgba@)
}

/// What a read of an optional image gave, as a view.
pub open spec fn image_result_view(result: Result<Option<ClipboardImage>, ()>) -> Result<
    Option<(int, int, Seq<u8>)>,
    (),
> {
    match result {
        Ok(Some(image)) => Ok(Some(image_view(image))),
        Ok(None) => Ok(None),
        Err(_) => Err(()),
    }
}

/// What `calls` read when they are exactly one attempt at reading the
/// `CF_BITMAP` image: open, take the image, close; or a failed open.
pub open spec fn bitmap_attempt(calls: Seq<ApiCall>) -> Option<Result<Option<(int, int, Seq<u8>)>, ()>> {
    if calls == seq![ApiCall::Open(false)] {
        Some(Err(()))
    } else if calls.len() == 3 && calls[0] == ApiCall::Open(true) && calls[2] == ApiCall::Close {
        match calls[1] {
            ApiCall::Bitmap(result) => Some(image_result_view(result)),
            _ => None,
        }
    } else {
        None
    }
}

/// Every clipboard read attempt leaves the clipboard as it found it: an
/// attempt that opened it closes it last, one whose open failed makes no
/// other call, and a block that was locked and copied is unlocked right
/// after.
pub proof fn lemma_attempts_release(calls: Seq<ApiCall>, format: u32, min_size: usize)
    requires
        text_attempt(calls) is Some || block_attempt(calls, format, min_size) is Some,
    ensures
        calls[0] == ApiCall::Open(false) ==> calls.len() == 1,
        calls[0] == ApiCall::Open(true) ==> calls.len() >= 3 && calls.last() == ApiCall::Close,
        calls[0] is Open,
        forall|k: int|
            0 <= k < calls.len() ==> match #[trigger] calls[k] {
                ApiCall::LockUnits(handle, _, Some(_)) => k + 1 < calls.len() && calls[k + 1] == ApiCall::Unlock(handle),
                ApiCall::LockBytes(handle, _, Some(_)) => k + 1 < calls.len() && calls[k + 1] == ApiCall::Unlock(handle),
                _ => true,
            },
{
    assert forall|k: int|
        0 <= k < calls.len() implies match #[trigger] calls[k] {
        ApiCall::LockUnits(handle, _, Some(_)) => k + 1 < calls.len() && calls[k + 1] == ApiCall::Unlock(handle),
        ApiCall::LockBytes(handle, _, Some(_)) => k + 1 < calls.len() && calls[k + 1] == ApiCall::Unlock(handle),
        _ => true,
    } by {}
}

/// Whether `outcomes` are attempts made until one did not fail, at most
/// `OPEN_ATTEMPTS` of them, and `result` is what the last one read: the
/// read fails only when every attempt failed.
pub open spec fn retried<T>(outcomes: Seq<Result<T, ()>>, result: Result<T, ()>) -> bool {
    &&& 1 <= outcomes.len() <= OPEN_ATTEMPTS
    &&& forall|k: int| 0 <= k < outcomes.len() - 1 ==> (#[trigger] outcomes[k]) is Err
    &&& match outcomes.last() {
        Ok(read) => result == Ok::<T, ()>(read),
        Err(_) => result is Err && outcomes.len() == OPEN_ATTEMPTS,
    }
}

/// Whether each of `attempts` is one text attempt that read the outcome at
/// the same place.
pub open spec fn text_attempts(attempts: Seq<Seq<ApiCall>>, outcomes: Seq<Result<Option<Seq<char>>, ()>>) -> bool {
    &&& attempts.len() == outcomes.len()
    &&& forall|k: int| 0 <= k < attempts.len() ==> text_attempt(#[trigger] attempts[k]) == Some(outcomes[k])
}

/// Whether each of `attempts` is one attempt at the block in `format` that
/// read the outcome at the same place.
pub open spec fn block_attempts(
    attempts: Seq<Seq<ApiCall>>,
    outcomes: Seq<Result<Option<Seq<u8>>, ()>>,
    format: u32,
    min_size: usize,
) -> bool {
    &&& attempts.len() == outcomes.len()
    &&& forall|k: int| 0 <= k < attempts.len() ==> block_attempt(#[trigger] attempts[k], format, min_size) == Some(outcomes[k])
}

/// Whether each of `attempts` is one `CF_BITMAP` attempt that read the
/// outcome at the same place.
pub open spec fn bitmap_attempts(attempts: Seq<Seq<ApiCall>>, outcomes: Seq<Result<Option<(int, int, Seq<u8>)>, ()>>) -> bool {
    &&& attempts.len() == outcomes.len()
    &&& forall|k: int| 0 <= k < attempts.len() ==> bitmap_attempt(#[trigger] attempts[k]) == Some(outcomes[k])
}

/// Whether `calls` are retried attempts at the block in `format` that
/// read `block`.
pub open spec fn block_retries(calls: Seq<ApiCall>, format: u32, min_size: usize, block: Result<Option<Seq<u8>>, ()>) -> bool {
    exists|attempts: Seq<Seq<ApiCall>>, outcomes: Seq<Result<Option<Seq<u8>>, ()>>|
        #[trigger] block_attempts(attempts, outcomes, format, min_size) && attempts.flatten() == calls
            && retried(outcomes, block)
}

/// A text read result as a view.
pub open spec fn text_result_view(result: Result<Option<String>, ()>) -> Result<Option<Seq<char>>, ()> {
    match result {
        Ok(Some(text)) => Ok(Some(text@)),
        Ok(None) => Ok(None),
        Err(_) => Err(()),
    }
}

/// Whether `calls` read the clipboard text `result`: an unadvertised
/// `CF_UNICODETEXT` reads as nothing; otherwise text attempts are retried.
pub open spec fn text_read_follows(calls: Seq<ApiCall>, result: Result<Option<Seq<char>>, ()>) -> bool {
    &&& calls.len() >= 1
    &&& if calls[0] == ApiCall::TextAvailable(false) {
        calls.len() == 1 && result == Ok::<Option<Seq<char>>, ()>(None)
    } else {
        &&& calls[0] == ApiCall::TextAvailable(true)
        &&& exists|attempts: Seq<Seq<ApiCall>>, outcomes: Seq<Result<Option<Seq<char>>, ()>>|
            #[trigger] text_attempts(attempts, outcomes) && attempts.flatten() == calls.drop_first()
                && retried(outcomes, result)
    }
}

/// The file list a block read gives: the paths of a well-formed `CF_HDROP`
/// block, nothing for a malformed or missing one.
pub open spec fn files_from_block(block: Result<Option<Seq<u8>>, ()>) -> Result<Option<Seq<Seq<u16>>>, ()> {
    match block {
        Ok(Some(bytes)) => Ok(hdrop_paths(bytes)),
        Ok(None) => Ok(None),
        Err(_) => Err(()),
    }
}

/// A file-list read result as a view.
pub open spec fn files_result_view(result: Result<Option<ClipboardFiles>, ()>) -> Result<Option<Seq<Seq<u16>>>, ()> {
    match result {
        Ok(Some(files)) => Ok(Some(path_views(files.paths@))),
        Ok(None) => Ok(None),
        Err(_) => Err(()),
    }
}

/// Whether `calls` read the clipboard file list `result`: an unadvertised
/// `CF_HDROP` reads as nothing; otherwise the block is read with retries and
/// parsed.
pub open spec fn files_read_follows(calls: Seq<ApiCall>, result: Result<Option<Seq<Seq<u16>>>, ()>) -> bool {
    &&& calls.len() >= 1
    &&& if calls[0] == ApiCall::FormatAvailable(CF_HDROP_FORMAT, false) {
        calls.len() == 1 && result == Ok::<Option<Seq<Seq<u16>>>, ()>(None)
    } else {
        &&& calls[0] == ApiCall::FormatAvailable(CF_HDROP_FORMAT, true)
        &&& exists|block: Result<Option<Seq<u8>>, ()>|
            #[trigger] block_retries(calls.drop_first(), CF_HDROP_FORMAT, 22, block) && result
                == files_from_block(block)
    }
}

/// The image a block decodes to, as a registered PNG or as a DIB.
pub open spec fn decoded_block(bytes: Seq<u8>, png: bool) -> Option<(int, int, Seq<u8>)> {
    if png {
        match png_image(bytes) {
            Some((w, h, rgba)) => Some((w as int, h as int, rgba)),
            None => None,
        }
    } else if dib_accepts(bytes) {
        Some((dib_width(bytes), dib_height(bytes), dib_rgba(bytes)))
    } else {
        None
    }
}

/// Whether `calls` are the image read's stage for `format`: ask whether the
/// format is there and, when it is, read its block with retries; `image` is
/// the decoding of a block that was read and decodes.
pub open spec fn format_stage(calls: Seq<ApiCall>, format: u32, png: bool, image: Option<(int, int, Seq<u8>)>) -> bool {
    &&& calls.len() >= 1
    &&& if calls[0] == ApiCall::FormatAvailable(format, false) {
        calls.len() == 1 && image is None
    } else {
        &&& calls[0] == ApiCall::FormatAvailable(format, true)
        &&& exists|block: Result<Option<Seq<u8>>, ()>|
            #[trigger] block_retries(calls.drop_first(), format, 8, block) && image == match block {
                Ok(Some(bytes)) => decoded_block(bytes, png),
                _ => None,
            }
    }
}

/// Whether `calls` are the PNG stage: the registered format number, then,
/// when there is one, its stage.
pub open spec fn png_stage(calls: Seq<ApiCall>, image: Option<(int, int, Seq<u8>)>) -> bool {
    &&& calls.len() >= 1
    &&& match calls[0] {
        ApiCall::PngFormat(format) => if format == 0 {
            calls.len() == 1 && image is None
        } else {
            format_stage(calls.drop_first(), format, true, image)
        },
        _ => false,
    }
}

/// Whether `calls` are the `CF_BITMAP` stage: ask whether it is there and,
/// when it is, take the image with retries.
pub open spec fn bitmap_stage(calls: Seq<ApiCall>, image: Option<(int, int, Seq<u8>)>) -> bool {
    &&& calls.len() >= 1
    &&& if calls[0] == ApiCall::FormatAvailable(CF_BITMAP_FORMAT, false) {
        calls.len() == 1 && image is None
    } else {
        &&& calls[0] == ApiCall::FormatAvailable(CF_BITMAP_FORMAT, true)
        &&& exists|attempts: Seq<Seq<ApiCall>>, outcomes: Seq<Result<Option<(int, int, Seq<u8>)>, ()>>|
            #[trigger] bitmap_attempts(attempts, outcomes) && attempts.flatten() == calls.drop_first()
                && retried(outcomes, outcomes.last()) && image == match outcomes.last() {
                Ok(Some(found)) => Some(found),
                _ => None,
            }
    }
}

/// Whether `stages` are the image read's stages in order (PNG, `CF_DIBV5`,
/// `CF_DIB`, `CF_BITMAP`), `images` what each produced, every stage but the
/// last producing nothing and the read stopping at the first that does.
pub open spec fn image_stages(stages: Seq<Seq<ApiCall>>, images: Seq<Option<(int, int, Seq<u8>)>>) -> bool {
    &&& 1 <= stages.len() <= 4
    &&& images.len() == stages.len()
    &&& png_stage(stages[0], images[0])
    &&& stages.len() > 1 ==> format_stage(stages[1], CF_DIBV5_FORMAT, false, images[1])
    &&& stages.len() > 2 ==> format_stage(stages[2], CF_DIB_FORMAT, false, images[2])
    &&& stages.len() > 3 ==> bitmap_stage(stages[3], images[3])
    &&& forall|k: int| 0 <= k < images.len() - 1 ==> (#[trigger] images[k]) is None
    &&& stages.len() < 4 ==> images.last() is Some
}

/// Whether `calls` read the clipboard image `result`.
pub open spec fn image_read_follows(calls: Seq<ApiCall>, result: Result<Option<(int, int, Seq<u8>)>, ()>) -> bool {
    exists|stages: Seq<Seq<ApiCall>>, images: Seq<Option<(int, int, Seq<u8>)>>|
        #[trigger] image_stages(stages, images) && stages.flatten() == calls && result == Ok::<
            Option<(int, int, Seq<u8>)>,
            (),
        >(images.last())
}

/// A block read result as a view.
pub open spec fn block_view(block: Result<Option<Vec<u8>>, ()>) -> Result<Option<Seq<u8>>, ()> {
    match block {
        Ok(Some(bytes)) => Ok(Some(bytes@)),
        Ok(None) => Ok(None),
        Err(_) => Err(()),
    }
}

/// One attempt at reading `CF_UNICODETEXT`: open, read, close.
#[verifier::spinoff_prover]
#[verifier::rlimit(40)]
fn read_text_attempt<A: ClipboardApi>(api: &mut A) -> (result: Result<Option<String>, ()>)
    ensures
        log_extends(old(api).calls(), final(api).calls()),
        text_attempt(log_since(old(api).calls(), final(api).calls())) == Some(text_result_view(result)),
{
    let ghost start = api.calls();
    let opened = api.open();
    if !opened {
        assert(api.calls().subrange(0, start.len() as int) =~= start);
        assert(log_since(start, api.calls()) =~= seq![ApiCall::Open(false)]);
        return Err(());
    }
    let data = api.get_unicode_text_data();
    let handle = match data {
        Some(handle) => handle,
        None => {
            api.close();
            assert(api.calls().subrange(0, start.len() as int) =~= start);
            assert(log_since(start, api.calls()) =~= seq![
                ApiCall::Open(true),
                ApiCall::TextData(None),
                ApiCall::Close,
            ]);
            return Err(());
        },
    };
    let allocation_bytes = api.global_size(handle);
    if allocation_bytes < 2 {
        api.close();
        assert(api.calls().subrange(0, start.len() as int) =~= start);
        assert(log_since(start, api.calls()) =~= seq![
            ApiCall::Open(true),
            ApiCall::TextData(Some(handle)),
            ApiCall::Size(handle, allocation_bytes),
            ApiCall::Close,
        ]);
        return Err(());
    }
    let count = text_units_to_copy(allocation_bytes);
    let locked = api.global_lock_units(handle, count);
    let units = match locked {
        Some(units) => units,
        None => {
            api.close();
            assert(api.calls().subrange(0, start.len() as int) =~= start);
            assert(log_since(start, api.calls()) =~= seq![
                ApiCall::Open(true),
                ApiCall::TextData(Some(handle)),
                ApiCall::Size(handle, allocation_bytes),
                ApiCall::LockUnits(handle, count, None),
                ApiCall::Close,
            ]);
            return Err(());
        },
    };
    let ghost copied = units;
    api.global_unlock(handle);
    api.close();
    let result = decode_null_terminated_utf16(units.as_slice());
    assert(api.calls().subrange(0, start.len() as int) =~= start);
    assert(log_since(start, api.calls()) =~= seq![
        ApiCall::Open(true),
        ApiCall::TextData(Some(handle)),
        ApiCall::Size(handle, allocation_bytes),
        ApiCall::LockUnits(handle, count, Some(copied)),
        ApiCall::Unlock(handle),
        ApiCall::Close,
    ]);
    result
}

/// One attempt at reading the block in `format`: open, read, close; a block
/// whose size is outside `min_size..=MAX_CLIPBOARD_BLOCK_BYTES` reads as
/// `Ok(None)`.
#[verifier::spinoff_prover]
#[verifier::rlimit(40)]
fn read_block_attempt<A: ClipboardApi>(api: &mut A, format: u32, min_size: usize) -> (result: Result<
    Option<Vec<u8>>,
    (),
>)
    ensures
        log_extends(old(api).calls(), final(api).calls()),
        block_attempt(log_since(old(api).calls(), final(api).calls()), format, min_size) == Some(
            block_view(result),
        ),
{
    let ghost start = api.calls();
    let opened = api.open();
    if !opened {
        assert(api.calls().subrange(0, start.len() as int) =~= start);
        assert(log_since(start, api.calls()) =~= seq![ApiCall::Open(false)]);
        return Err(());
    }
    let data = api.get_format_data(format);
    let handle = match data {
        Some(handle) => handle,
        None => {
            api.close();
            assert(api.calls().subrange(0, start.len() as int) =~= start);
            assert(log_since(start, api.calls()) =~= seq![
                ApiCall::Open(true),
                ApiCall::FormatData(format, None),
                ApiCall::Close,
            ]);
            return Err(());
        },
    };
    let size = api.global_size(handle);
    if size < min_size || size > MAX_CLIPBOARD_BLOCK_BYTES {
        api.close();
        assert(api.calls().subrange(0, start.len() as int) =~= start);
        assert(log_since(start, api.calls()) =~= seq![
            ApiCall::Open(true),
            ApiCall::FormatData(format, Some(handle)),
            ApiCall::Size(handle, size),
            ApiCall::Close,
        ]);
        return Ok(None);
    }
    let locked = api.global_lock_bytes(handle, size);
    let bytes = match locked {
        Some(bytes) => bytes,
        None => {
            api.close();
            assert(api.calls().subrange(0, start.len() as int) =~= start);
            assert(log_since(start, api.calls()) =~= seq![
                ApiCall::Open(true),
                ApiCall::FormatData(format, Some(handle)),
                ApiCall::Size(handle, size),
                ApiCall::LockBytes(handle, size, None),
                ApiCall::Close,
            ]);
            return Err(());
        },
    };
    let ghost copied = bytes;
    api.global_unlock(handle);
    api.close();
    assert(api.calls().subrange(0, start.len() as int) =~= start);
    assert(log_since(start, api.calls()) =~= seq![
        ApiCall::Open(true),
        ApiCall::FormatData(format, Some(handle)),
        ApiCall::Size(handle, size),
        ApiCall::LockBytes(handle, size, Some(copied)),
        ApiCall::Unlock(handle),
        ApiCall::Close,
    ]);
    Ok(Some(bytes))
}

/// Reads the clipboard text, retrying a failed attempt up to
/// `OPEN_ATTEMPTS` times with `wait_before_retry` between attempts.
pub fn read_text_with_retries<A: ClipboardApi, F: FnMut()>(
    api: &mut A,
    mut wait_before_retry: F,
) -> (result: Result<Option<String>, ()>)
    requires
        forall|f: F| #[trigger] f.requires(()),
    ensures
        log_extends(old(api).calls(), final(api).calls()),
        text_read_follows(log_since(old(api).calls(), final(api).calls()), text_result_view(result)),
{
    let ghost start = api.calls();
    let available = api.is_unicode_text_available();
    proof {
        lemma_log_push(start, ApiCall::TextAvailable(available));
    }
    if !available {
        return Ok(None);
    }
    let ghost first = api.calls();
    let ghost mut attempts: Seq<Seq<ApiCall>> = Seq::empty();
    let ghost mut outcomes: Seq<Result<Option<Seq<char>>, ()>> = Seq::empty();
    proof {
        lemma_log_since_self(first);
        assert(attempts.flatten() =~= Seq::<ApiCall>::empty());
    }
    let mut attempt: usize = 0;
    while attempt < OPEN_ATTEMPTS
        invariant
            attempt <= OPEN_ATTEMPTS,
            forall|f: F| #[trigger] f.requires(()),
            start == old(api).calls(),
            log_extends(start, first),
            log_since(start, first) == seq![ApiCall::TextAvailable(true)],
            log_extends(first, api.calls()),
            log_since(first, api.calls()) == attempts.flatten(),
            text_attempts(attempts, outcomes),
            outcomes.len() == attempt,
            forall|k: int| 0 <= k < attempt ==> (#[trigger] outcomes[k]) is Err,
        decreases OPEN_ATTEMPTS - attempt,
    {
        if attempt > 0 {
            wait_before_retry();
        }
        let ghost before = api.calls();
        let read = read_text_attempt(api);
        proof {
            let delta = log_since(before, api.calls());
            lemma_log_since_split(first, before, api.calls());
            attempts.lemma_flatten_push(delta);
            attempts = attempts.push(delta);
            outcomes = outcomes.push(text_result_view(read));
            assert(text_attempt(attempts[attempts.len() - 1]) == Some(outcomes[outcomes.len() - 1]));
        }
        if read.is_ok() {
            proof {
                lemma_log_since_split(start, first, api.calls());
                let calls = log_since(start, api.calls());
                assert(calls.drop_first() =~= attempts.flatten());
                assert(text_attempts(attempts, outcomes));
                assert(retried(outcomes, text_result_view(read)));
            }
            return read;
        }
        attempt += 1;
    }
    proof {
        lemma_log_since_split(start, first, api.calls());
        let calls = log_since(start, api.calls());
        assert(calls.drop_first() =~= attempts.flatten());
        assert(text_attempts(attempts, outcomes));
        assert(outcomes[outcomes.len() - 1] is Err);
        assert(retried(outcomes, Err::<Option<Seq<char>>, ()>(())));
    }
    Err(())
}

/// Reads the block in `format`, retrying a failed attempt up to
/// `OPEN_ATTEMPTS` times with `wait_before_retry` between attempts.
fn read_block_with_retries<A: ClipboardApi, F: FnMut()>(
    api: &mut A,
    format: u32,
    min_size: usize,
    wait_before_retry: &mut F,
) -> (block: Result<Option<Vec<u8>>, ()>)
    requires
        forall|f: F| #[trigger] f.requires(()),
    ensures
        log_extends(old(api).calls(), final(api).calls()),
        block_retries(log_since(old(api).calls(), final(api).calls()), format, min_size, block_view(block)),
{
    let ghost first = api.calls();
    let ghost mut attempts: Seq<Seq<ApiCall>> = Seq::empty();
    let ghost mut outcomes: Seq<Result<Option<Seq<u8>>, ()>> = Seq::empty();
    proof {
        lemma_log_since_self(first);
        assert(attempts.flatten() =~= Seq::<ApiCall>::empty());
    }
    let mut attempt: usize = 0;
    while attempt < OPEN_ATTEMPTS
        invariant
            attempt <= OPEN_ATTEMPTS,
            forall|f: F| #[trigger] f.requires(()),
            first == old(api).calls(),
            log_extends(first, api.calls()),
            log_since(first, api.calls()) == attempts.flatten(),
            block_attempts(attempts, outcomes, format, min_size),
            outcomes.len() == attempt,
            forall|k: int| 0 <= k < attempt ==> (#[trigger] outcomes[k]) is Err,
        decreases OPEN_ATTEMPTS - attempt,
    {
        if attempt > 0 {
            wait_before_retry();
        }
        let ghost before = api.calls();
        let read = read_block_attempt(api, format, min_size);
        proof {
            let delta = log_since(before, api.calls());
            lemma_log_since_split(first, before, api.calls());
            attempts.lemma_flatten_push(delta);
            attempts = attempts.push(delta);
            outcomes = outcomes.push(block_view(read));
            assert(block_attempt(attempts[attempts.len() - 1], format, min_size) == Some(outcomes[outcomes.len() - 1]));
        }
        if read.is_ok() {
            proof {
                assert(block_attempts(attempts, outcomes, format, min_size));
                assert(retried(outcomes, block_view(read)));
            }
            return read;
        }
        attempt += 1;
    }
    proof {
        assert(block_attempts(attempts, outcomes, format, min_size));
        assert(outcomes[outcomes.len() - 1] is Err);
        assert(retried(outcomes, Err::<Option<Seq<u8>>, ()>(())));
    }
    Err(())
}

/// Reads the clipboard file list, retrying a failed attempt up to
/// `OPEN_ATTEMPTS` times; a malformed `CF_HDROP` block reads as `None`.
pub fn read_files_with_retries<A: ClipboardApi, F: FnMut()>(
    api: &mut A,
    mut wait_before_retry: F,
) -> (result: Result<Option<ClipboardFiles>, ()>)
    requires
        forall|f: F| #[trigger] f.requires(()),
    ensures
        log_extends(old(api).calls(), final(api).calls()),
        files_read_follows(log_since(old(api).calls(), final(api).calls()), files_result_view(result)),
        result matches Ok(Some(files)) ==> valid_path_list(path_views(files.paths@)),
{
    let ghost start = api.calls();
    let available = api.is_format_available(CF_HDROP_FORMAT);
    proof {
        lemma_log_push(start, ApiCall::FormatAvailable(CF_HDROP_FORMAT, available));
    }
    if !available {
        return Ok(None);
    }
    let ghost first = api.calls();
    let block = read_block_with_retries(api, CF_HDROP_FORMAT, 22, &mut wait_before_retry);
    let ghost read = block_view(block);
    let result = match block {
        Ok(Some(bytes)) => match parse_hdrop(bytes.as_slice()) {
            Ok(files) => {
                proof {
                    lemma_hdrop_paths_valid(bytes@);
                }
                Ok(Some(files))
            },
            Err(()) => Ok(None),
        },
        Ok(None) => Ok(None),
        Err(()) => Err(()),
    };
    proof {
        lemma_log_since_split(start, first, api.calls());
        let calls = log_since(start, api.calls());
        assert(calls.drop_first() =~= log_since(first, api.calls()));
        assert(block_retries(calls.drop_first(), CF_HDROP_FORMAT, 22, read));
        assert(files_result_view(result) == files_from_block(read));
    }
    result
}

/// The image view of an optional image.
pub open spec fn found_image(image: Option<ClipboardImage>) -> Option<(int, int, Seq<u8>)> {
    match image {
        Some(image) => Some(image_view(image)),
        None => None,
    }
}

/// One stage of the image read: whether `format` is there and, when it is,
/// its block read with retries and decoded as a registered PNG or a DIB.
fn read_format_stage<A: ClipboardApi, F: FnMut()>(
    api: &mut A,
    format: u32,
    png: bool,
    wait_before_retry: &mut F,
) -> (image: Option<ClipboardImage>)
    requires
        forall|f: F| #[trigger] f.requires(()),
    ensures
        log_extends(old(api).calls(), final(api).calls()),
        format_stage(log_since(old(api).calls(), final(api).calls()), format, png, found_image(image)),
{
    let ghost start = api.calls();
    let available = api.is_format_available(format);
    proof {
        lemma_log_push(start, ApiCall::FormatAvailable(format, available));
    }
    if !available {
        return None;
    }
    let ghost first = api.calls();
    let block = read_block_with_retries(api, format, 8, wait_before_retry);
    let ghost read = block_view(block);
    let image = match block {
        Ok(Some(bytes)) => {
            if png {
                match parse_png(bytes.as_slice()) {
                    Ok(image) => Some(image),
                    Err(()) => None,
                }
            } else {
                match parse_dib(bytes) {
                    Ok(image) => Some(image),
                    Err(()) => None,
                }
            }
        },
        _ => None,
    };
    proof {
        lemma_log_since_split(start, first, api.calls());
        let calls = log_since(start, api.calls());
        assert(calls.drop_first() =~= log_since(first, api.calls()));
        assert(block_retries(calls.drop_first(), format, 8, read));
    }
    image
}

/// The `CF_BITMAP` stage of the image read: whether the format is there and,
/// when it is, its image taken with retries.
fn read_bitmap_stage<A: ClipboardApi, F: FnMut()>(api: &mut A, wait_before_retry: &mut F) -> (image: Option<
    ClipboardImage,
>)
    requires
        forall|f: F| #[trigger] f.requires(()),
    ensures
        log_extends(old(api).calls(), final(api).calls()),
        bitmap_stage(log_since(old(api).calls(), final(api).calls()), found_image(image)),
{
    let ghost start = api.calls();
    let available = api.is_format_available(CF_BITMAP_FORMAT);
    proof {
        lemma_log_push(start, ApiCall::FormatAvailable(CF_BITMAP_FORMAT, available));
    }
    if !available {
        return None;
    }
    let ghost first = api.calls();
    let ghost mut attempts: Seq<Seq<ApiCall>> = Seq::empty();
    let ghost mut outcomes: Seq<Result<Option<(int, int, Seq<u8>)>, ()>> = Seq::empty();
    proof {
        lemma_log_since_self(first);
        assert(attempts.flatten() =~= Seq::<ApiCall>::empty());
    }
    let mut attempt: usize = 0;
    while attempt < OPEN_ATTEMPTS
        invariant
            attempt <= OPEN_ATTEMPTS,
            forall|f: F| #[trigger] f.requires(()),
            start == old(api).calls(),
            log_extends(start, first),
            log_since(start, first) == seq![ApiCall::FormatAvailable(CF_BITMAP_FORMAT, true)],
            log_extends(first, api.calls()),
            log_since(first, api.calls()) == attempts.flatten(),
            bitmap_attempts(attempts, outcomes),
            outcomes.len() == attempt,
            forall|k: int| 0 <= k < attempt ==> (#[trigger] outcomes[k]) is Err,
        decreases OPEN_ATTEMPTS - attempt,
    {
        if attempt > 0 {
            wait_before_retry();
        }
        let ghost before = api.calls();
        let opened = api.open();
        let read = if opened {
            let bitmap = api.bitmap_image();
            api.close();
            bitmap
        } else {
            Err(())
        };
        proof {
            let delta = log_since(before, api.calls());
            assert(api.calls().subrange(0, before.len() as int) =~= before);
            if opened {
                assert(delta =~= seq![ApiCall::Open(true), ApiCall::Bitmap(read), ApiCall::Close]);
            } else {
                assert(delta =~= seq![ApiCall::Open(false)]);
            }
            assert(bitmap_attempt(delta) == Some(image_result_view(read)));
            lemma_log_since_split(first, before, api.calls());
            attempts.lemma_flatten_push(delta);
            attempts = attempts.push(delta);
            outcomes = outcomes.push(image_result_view(read));
            assert(bitmap_attempt(attempts[attempts.len() - 1]) == Some(outcomes[outcomes.len() - 1]));
        }
        if read.is_ok() {
            proof {
                lemma_log_since_split(start, first, api.calls());
                let calls = log_since(start, api.calls());
                assert(calls.drop_first() =~= attempts.flatten());
                assert(bitmap_attempts(attempts, outcomes));
                assert(retried(outcomes, outcomes.last()));
            }
            return match read {
                Ok(found) => found,
                Err(()) => None,
            };
        }
        attempt += 1;
    }
    proof {
        lemma_log_since_split(start, first, api.calls());
        let calls = log_since(start, api.calls());
        assert(calls.drop_first() =~= attempts.flatten());
        assert(bitmap_attempts(attempts, outcomes));
        assert(retried(outcomes, outcomes.last()));
    }
    None
}

/// Reads the clipboard image in order of preference: registered PNG, then
/// `CF_DIBV5`, then `CF_DIB`, then `CF_BITMAP`. A format that is absent, fails
/// or does not decode passes to the next; the read itself never fails.
pub fn read_image_with_retries<A: ClipboardApi, F: FnMut()>(
    api: &mut A,
    mut wait_before_retry: F,
) -> (result: Result<Option<ClipboardImage>, ()>)
    requires
        forall|f: F| #[trigger] f.requires(()),
    ensures
        result is Ok,
        log_extends(old(api).calls(), final(api).calls()),
        image_read_follows(log_since(old(api).calls(), final(api).calls()), image_result_view(result)),
{
    let ghost start = api.calls();
    let png_format = api.png_format();
    proof {
        lemma_log_push(start, ApiCall::PngFormat(png_format));
    }
    let ghost after_format = api.calls();
    let png_found = if png_format != 0 {
        read_format_stage(api, png_format, true, &mut wait_before_retry)
    } else {
        proof {
            lemma_log_since_self(after_format);
        }
        None
    };
    let ghost stage0 = log_since(start, api.calls());
    let ghost mut stages: Seq<Seq<ApiCall>> = seq![stage0];
    let ghost mut images: Seq<Option<(int, int, Seq<u8>)>> = seq![found_image(png_found)];
    proof {
        lemma_log_since_split(start, after_format, api.calls());
        assert(stage0.drop_first() =~= log_since(after_format, api.calls()));
        assert(png_stage(stage0, found_image(png_found)));
        Seq::<Seq<ApiCall>>::empty().lemma_flatten_push(stage0);
        assert(Seq::<Seq<ApiCall>>::empty().push(stage0) =~= stages);
        assert(Seq::<Seq<ApiCall>>::empty().flatten() =~= Seq::<ApiCall>::empty());
        assert(stages.flatten() =~= log_since(start, api.calls()));
    }
    if png_found.is_some() {
        proof {
            assert(image_stages(stages, images));
        }
        return Ok(png_found);
    }
    let ghost before = api.calls();
    let dibv5_image = read_format_stage(api, CF_DIBV5_FORMAT, false, &mut wait_before_retry);
    proof {
        let stage = log_since(before, api.calls());
        lemma_log_since_split(start, before, api.calls());
        stages.lemma_flatten_push(stage);
        stages = stages.push(stage);
        images = images.push(found_image(dibv5_image));
    }
    if dibv5_image.is_some() {
        proof {
            assert(image_stages(stages, images));
        }
        return Ok(dibv5_image);
    }
    let ghost before = api.calls();
    let dib_image = read_format_stage(api, CF_DIB_FORMAT, false, &mut wait_before_retry);
    proof {
        let stage = log_since(before, api.calls());
        lemma_log_since_split(start, before, api.calls());
        stages.lemma_flatten_push(stage);
        stages = stages.push(stage);
        images = images.push(found_image(dib_image));
    }
    if dib_image.is_some() {
        proof {
            assert(image_stages(stages, images));
        }
        return Ok(dib_image);
    }
    let ghost before = api.calls();
    let bitmap = read_bitmap_stage(api, &mut wait_before_retry);
    proof {
        let stage = log_since(before, api.calls());
        lemma_log_since_split(start, before, api.calls());
        stages.lemma_flatten_push(stage);
        stages = stages.push(stage);
        images = images.push(found_image(bitmap));
        assert(image_stages(stages, images));
    }
    Ok(bitmap)
}


/// Capacity of the buffer a process image path is read into, in UTF-16 units.
pub const PROCESS_PATH_CAPACITY: usize = 32_768;

/// The process calls that identify the owner of the clipboard.
pub trait ProcessSourceApi {
    /// The window that owns the clipboard.
    fn clipboard_owner(&mut self) -> Option<usize>;
    /// The process that created `owner`.
    fn process_id(&mut self, owner: usize) -> Option<u32>;
    /// Opens `process_id` for a limited query; the handle must be closed.
    fn open_process(&mut self, process_id: u32) -> Option<usize>;
    /// Writes the process image path into `buffer` and reports its length in units.
    fn query_process_image_path(&mut self, process: usize, buffer: &mut Vec<u16>) -> Option<usize>;
    /// Closes a handle from `open_process`.
    fn close_process(&mut self, process: usize);
}

/// Whether `result` is the metadata the image path `path` yields.
pub open spec fn describes_path(result: ClipboardSourceMetadata, path: Seq<char>) -> bool {
    match source_names(path) {
        None => result.is_unknown(),
        Some((application, process)) => {
            &&& result.source_application matches Some(a) && a@ == application
            &&& result.source_process matches Some(p) && p@ == process
            &&& result.source_executable_path matches Some(e) && e@ == path
        },
    }
}

/// Metadata that either knows nothing or is what some image path yields.
pub open spec fn is_resolved_source(result: ClipboardSourceMetadata) -> bool {
    result.is_unknown() || exists|path: Seq<char>| #[trigger] describes_path(result, path)
}

/// Reads the image path of the open process `process`.
fn query_image_path<A: ProcessSourceApi>(api: &mut A, process: usize) -> (result: Option<String>)
    ensures
        result matches Some(path) ==> exists|units: Seq<u16>|
            0 < units.len() < PROCESS_PATH_CAPACITY && #[trigger] utf16_decode(units) == Some(path@),
{
    let mut buffer: Vec<u16> = Vec::new();
    let mut i: usize = 0;
    while i < PROCESS_PATH_CAPACITY
        invariant
            i <= PROCESS_PATH_CAPACITY,
            buffer@.len() == i,
        decreases PROCESS_PATH_CAPACITY - i,
    {
        buffer.push(0);
        i += 1;
    }
    let written = match api.query_process_image_path(process, &mut buffer) {
        Some(written) => written,
        None => {
            return None;
        },
    };
    if written == 0 || written >= PROCESS_PATH_CAPACITY || written > buffer.len() {
        return None;
    }
    let mut units: Vec<u16> = Vec::new();
    let mut k: usize = 0;
    while k < written
        invariant
            k <= written,
            written <= buffer@.len(),
            units@.len() == k,
            0 < written < PROCESS_PATH_CAPACITY,
        decreases written - k,
    {
        units.push(buffer[k]);
        k += 1;
    }
    let result = decode_utf16(units.as_slice());
    proof {
        if let Some(ref path) = result {
            assert(utf16_decode(units@) == Some(path@));
        }
    }
    result
}

/// The source metadata of the process that created the window `owner`; the
/// process handle is closed on every path that opened it.
pub fn resolve_source_for_owner<A: ProcessSourceApi>(api: &mut A, owner: usize) -> (result: ClipboardSourceMetadata)
    ensures
        is_resolved_source(result),
{
    let process_id = match api.process_id(owner) {
        Some(process_id) => process_id,
        None => {
            return ClipboardSourceMetadata::unknown();
        },
    };
    let process = match api.open_process(process_id) {
        Some(process) => process,
        None => {
            return ClipboardSourceMetadata::unknown();
        },
    };
    let path = query_image_path(api, process);
    api.close_process(process);
    match path {
        Some(path) => {
            let result = source_metadata_from_image_path(path.as_str());
            proof {
                assert(describes_path(result, path@));
            }
            result
        },
        None => ClipboardSourceMetadata::unknown(),
    }
}

/// The source metadata of the current clipboard owner.
pub fn resolve_clipboard_source<A: ProcessSourceApi>(api: &mut A) -> (result: ClipboardSourceMetadata)
    ensures
        is_resolved_source(result),
{
    match api.clipboard_owner() {
        Some(owner) => resolve_source_for_owner(api, owner),
        None => ClipboardSourceMetadata::unknown(),
    }
}

} // verus!
