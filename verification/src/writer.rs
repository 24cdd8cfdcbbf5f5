//! Writing history content back to the system clipboard: the byte layout of
//! each clipboard format, and the guarded replace-the-clipboard protocol.
use vstd::prelude::*;

use crate::clipboard::ClipboardWriteContent;
use crate::hdrop::{
    hdrop_bytes, lemma_hdrop_roundtrip, le_bytes_of_units, path_views, paths_to_hdrop_bytes,
    valid_path_list, valid_path_units, MAX_CLIPBOARD_FILES, MAX_CLIPBOARD_FILE_PATHS_JSON_BYTES,
    MAX_CLIPBOARD_FILE_PATH_UNITS, hdrop_paths,
};
use crate::text::{encode_utf16, utf16_encode};

verus! {

/// `CF_UNICODETEXT`.
pub const CF_UNICODETEXT_FORMAT: u32 = 13;
/// `CF_HDROP`.
pub const CF_HDROP_FORMAT: u32 = 15;
/// `CF_DIBV5`.
pub const CF_DIBV5_FORMAT: u32 = 17;
/// How many times opening the clipboard for a write is attempted.
pub const OPEN_ATTEMPTS: usize = 5;

/// Why writing the clipboard failed.
#[derive(Debug, Clone, Copy, PartialEq, Eq)]
pub enum ClipboardWriterError {
    UnsupportedPlatform,
    LockPoisoned,
    Busy,
    WindowsApi(&'static str),
    TooLarge,
    InvalidContent,
}

/// One clipboard format and the bytes of its global memory block.
#[derive(Debug, Clone, PartialEq, Eq)]
pub struct ClipboardFormatBytes {
    pub format: u32,
    pub bytes: Vec<u8>,
}

// ---------------------------------------------------------------------------
// Text.

/// The `CF_UNICODETEXT` block of `chars`: its UTF-16 units and a NUL, little-endian.
pub open spec fn unicode_text_block(chars: Seq<char>) -> Seq<u8> {
    le_bytes_of_units(utf16_encode(chars).push(0))
}

/// The `CF_UNICODETEXT` block of `text`.
pub fn text_to_unicode_block(text: &str) -> (result: Vec<u8>)
    ensures
        result@ == unicode_text_block(text@),
{
    let mut units = encode_utf16(text);
    units.push(0);
    let ghost all = units@;
    let mut bytes: Vec<u8> = Vec::new();
    let mut j: usize = 0;
    while j < units.len()
        invariant
            j <= units@.len(),
            units@ == all,
            bytes@.len() == 2 * j,
            forall|t: int| 0 <= t < 2 * j ==> bytes@[t] == le_bytes_of_units(all)[t],
        decreases units.len() - j,
    {
        let unit = units[j];
        bytes.push((unit % 256) as u8);
        bytes.push((unit / 256) as u8);
        proof {
            assert((2 * j as int) % 2 == 0 && (2 * j as int) / 2 == j);
            assert((2 * j as int + 1) % 2 == 1 && (2 * j as int + 1) / 2 == j);
        }
        j += 1;
    }
    assert(bytes@ =~= unicode_text_block(text@));
    bytes
}

// ---------------------------------------------------------------------------
// File lists.

/// What writing `paths` as a file list gives: `InvalidContent` for an empty
/// or oversized list or an empty, overlong or NUL-holding path, `TooLarge`
/// when the block passes the file-list size limit, else the `CF_HDROP` block.
pub open spec fn hdrop_write_result(paths: Seq<Seq<u16>>) -> Result<Seq<u8>, ClipboardWriterError> {
    if paths.len() == 0 || paths.len() > MAX_CLIPBOARD_FILES {
        Err(ClipboardWriterError::InvalidContent)
    } else if exists|i: int| 0 <= i < paths.len() && !valid_path_units(#[trigger] paths[i]) {
        Err(ClipboardWriterError::InvalidContent)
    } else if hdrop_bytes(paths).len() > MAX_CLIPBOARD_FILE_PATHS_JSON_BYTES {
        Err(ClipboardWriterError::TooLarge)
    } else {
        Ok(hdrop_bytes(paths))
    }
}

/// Units a path list takes in its NUL-separated form, without the final NUL.
pub open spec fn path_list_units(paths: Seq<Seq<u16>>) -> int
    decreases paths.len(),
{
    if paths.len() == 0 {
        0
    } else {
        paths[0].len() + 1 + path_list_units(paths.drop_first())
    }
}

proof fn lemma_hdrop_bytes_len(paths: Seq<Seq<u16>>)
    ensures
        hdrop_bytes(paths).len() == 20 + 2 * (1 + path_list_units(paths)),
    decreases paths.len(),
{
    lemma_nul_list_len(paths);
}

proof fn lemma_nul_list_len(paths: Seq<Seq<u16>>)
    ensures
        crate::hdrop::nul_list_units(paths).len() == 1 + path_list_units(paths),
    decreases paths.len(),
{
    if paths.len() > 0 {
        lemma_nul_list_len(paths.drop_first());
    }
}

/// The `CF_HDROP` block listing `paths`.
pub fn paths_to_hdrop(paths: &[Vec<u16>]) -> (result: Result<Vec<u8>, ClipboardWriterError>)
    ensures
        match hdrop_write_result(path_views(paths@)) {
            Ok(bytes) => result matches Ok(written) && written@ == bytes,
            Err(error) => result == Err::<Vec<u8>, ClipboardWriterError>(error),
        },
{
    let ghost views = path_views(paths@);
    if paths.len() == 0 || paths.len() > MAX_CLIPBOARD_FILES {
        return Err(ClipboardWriterError::InvalidContent);
    }
    let mut units: usize = 1;
    let mut i: usize = paths.len();
    assert(views.subrange(i as int, views.len() as int) =~= Seq::<Seq<u16>>::empty());
    while i > 0
        invariant
            i <= paths@.len(),
            paths@.len() <= MAX_CLIPBOARD_FILES,
            views == path_views(paths@),
            forall|k: int| i <= k < views.len() ==> valid_path_units(#[trigger] views[k]),
            units == 1 + path_list_units(views.subrange(i as int, views.len() as int)),
            units <= 1 + (paths@.len() - i) * (MAX_CLIPBOARD_FILE_PATH_UNITS + 1),
        decreases i,
    {
        let path = &paths[i - 1];
        assert(path@ == views[i - 1]);
        if path.len() == 0 || path.len() > MAX_CLIPBOARD_FILE_PATH_UNITS {
            return Err(ClipboardWriterError::InvalidContent);
        }
        let mut k: usize = 0;
        while k < path.len()
            invariant
                k <= path@.len(),
                0 < i <= paths@.len(),
                0 < paths@.len() <= MAX_CLIPBOARD_FILES,
                views == path_views(paths@),
                path@ == views[i - 1],
                forall|t: int| 0 <= t < k ==> path@[t] != 0,
            decreases path.len() - k,
        {
            if path[k] == 0 {
                assert(!valid_path_units(views[i - 1]));
                return Err(ClipboardWriterError::InvalidContent);
            }
            k += 1;
        }
        proof {
            let rest = views.subrange(i as int, views.len() as int);
            let more = views.subrange(i - 1, views.len() as int);
            assert(more.drop_first() =~= rest);
            assert(more[0] == views[i - 1]);
            assert(units + path@.len() + 1 <= 1 + (paths@.len() - (i - 1)) * (
            MAX_CLIPBOARD_FILE_PATH_UNITS + 1)) by (nonlinear_arith)
                requires
                    units <= 1 + (paths@.len() - i) * (MAX_CLIPBOARD_FILE_PATH_UNITS + 1),
                    path@.len() <= MAX_CLIPBOARD_FILE_PATH_UNITS,
            ;
            assert((paths@.len() - (i - 1)) * (MAX_CLIPBOARD_FILE_PATH_UNITS + 1) <= 128 * 32768)
                by (nonlinear_arith)
                requires
                    paths@.len() <= 128,
                    i >= 1,
            ;
        }
        units = units + path.len() + 1;
        i -= 1;
    }
    assert(views.subrange(0, views.len() as int) =~= views);
    proof {
        lemma_hdrop_bytes_len(views);
    }
    let total = 20 + 2 * units;
    if total > MAX_CLIPBOARD_FILE_PATHS_JSON_BYTES {
        return Err(ClipboardWriterError::TooLarge);
    }
    Ok(paths_to_hdrop_bytes(paths))
}

/// A file list the writer accepts reads back, path for path, from the block it wrote.
pub proof fn lemma_written_file_list_reads_back(paths: Seq<Seq<u16>>)
    requires
        hdrop_write_result(paths) is Ok,
    ensures
        hdrop_paths(hdrop_write_result(paths).unwrap()) == Some(paths),
{
    assert(valid_path_list(paths));
    lemma_hdrop_roundtrip(paths);
}

// ---------------------------------------------------------------------------
// Images.

/// The four little-endian bytes of `value`.
pub open spec fn le_u32_bytes(value: u32) -> Seq<u8> {
    seq![
        (value % 256) as u8,
        ((value / 256) % 256) as u8,
        ((value / 65536) % 256) as u8,
        (value / 16777216) as u8,
    ]
}

/// `count` zero bytes.
pub open spec fn zero_bytes(count: nat) -> Seq<u8> {
    Seq::new(count, |i: int| 0u8)
}

/// The `BITMAPV5HEADER` of a top-down 32-bit `BI_BITFIELDS` image in sRGB
/// with `image_size` pixel bytes.
pub open spec fn dib_v5_header(width: u32, height: u32, image_size: u32) -> Seq<u8> {
    le_u32_bytes(124) + le_u32_bytes(width) + le_u32_bytes((0x1_0000_0000 - height) as u32)
        + seq![1u8, 0, 32, 0] + le_u32_bytes(3) + le_u32_bytes(image_size) + zero_bytes(16)
        + le_u32_bytes(0x00ff_0000) + le_u32_bytes(0x0000_ff00) + le_u32_bytes(0x0000_00ff)
        + le_u32_bytes(0xff00_0000) + le_u32_bytes(0x7352_4742) + zero_bytes(64)
}

/// RGBA pixels reordered to the BGRA byte order of a DIB.
pub open spec fn bgra_of(rgba: Seq<u8>) -> Seq<u8> {
    Seq::new(
        rgba.len(),
        |k: int|
            if k % 4 == 0 {
                rgba[k + 2]
            } else if k % 4 == 2 {
                rgba[k - 2]
            } else {
                rgba[k]
            },
    )
}

/// What writing an RGBA image as `CF_DIBV5` gives: `InvalidContent` for
/// empty or over-`i32` dimensions or a pixel buffer of the wrong size,
/// `TooLarge` when the sizes do not fit in memory, else header and BGRA pixels.
pub open spec fn dib_v5_write_result(width: u32, height: u32, rgba: Seq<u8>) -> Result<
    Seq<u8>,
    ClipboardWriterError,
> {
    if width == 0 || height == 0 || width > 0x7fff_ffff || height > 0x7fff_ffff {
        Err(ClipboardWriterError::InvalidContent)
    } else if width * height > usize::MAX || 4 * width * height > usize::MAX {
        Err(ClipboardWriterError::TooLarge)
    } else if rgba.len() != 4 * width * height {
        Err(ClipboardWriterError::InvalidContent)
    } else if 124 + rgba.len() > usize::MAX {
        Err(ClipboardWriterError::TooLarge)
    } else {
        Ok(dib_v5_header(width, height, (rgba.len() % 0x1_0000_0000) as u32) + bgra_of(rgba))
    }
}

/// Appends the little-endian bytes of `value`.
fn push_u32_le(bytes: &mut Vec<u8>, value: u32)
    ensures
        final(bytes)@ == old(bytes)@ + le_u32_bytes(value),
{
    bytes.push((value % 256) as u8);
    bytes.push(((value / 256) % 256) as u8);
    bytes.push(((value / 65536) % 256) as u8);
    bytes.push((value / 16777216) as u8);
    assert(final(bytes)@ =~= old(bytes)@ + le_u32_bytes(value));
}

/// Appends `count` zero bytes.
fn push_zeros(bytes: &mut Vec<u8>, count: usize)
    ensures
        final(bytes)@ == old(bytes)@ + zero_bytes(count as nat),
{
    let ghost start = bytes@;
    let mut i: usize = 0;
    while i < count
        invariant
            i <= count,
            bytes@ == start + zero_bytes(i as nat),
        decreases count - i,
    {
        bytes.push(0);
        i += 1;
        assert(bytes@ =~= start + zero_bytes(i as nat));
    }
}

/// The `CF_DIBV5` block of a `width` x `height` RGBA image.
pub fn rgba_to_dib_v5(width: u32, height: u32, rgba: &[u8]) -> (result: Result<
    Vec<u8>,
    ClipboardWriterError,
>)
    ensures
        match dib_v5_write_result(width, height, rgba@) {
            Ok(bytes) => result matches Ok(written) && written@ == bytes,
            Err(error) => result == Err::<Vec<u8>, ClipboardWriterError>(error),
        },
{
    if width == 0 || height == 0 || width > 0x7fff_ffff || height > 0x7fff_ffff {
        return Err(ClipboardWriterError::InvalidContent);
    }
    assert((width as u64) * (height as u64) <= 0x7fff_ffff * 0x7fff_ffff) by (nonlinear_arith)
        requires
            width <= 0x7fff_ffff,
            height <= 0x7fff_ffff,
    ;
    let pixels64: u64 = (width as u64) * (height as u64);
    assert(pixels64 as int == width * height);
    if pixels64 > usize::MAX as u64 {
        return Err(ClipboardWriterError::TooLarge);
    }
    let pixels = pixels64 as usize;
    assert(4 * width * height == 4 * pixels) by (nonlinear_arith)
        requires
            pixels == width * height,
    ;
    if pixels > usize::MAX / 4 {
        return Err(ClipboardWriterError::TooLarge);
    }
    let pixel_bytes = pixels * 4;
    if rgba.len() != pixel_bytes {
        return Err(ClipboardWriterError::InvalidContent);
    }
    if pixel_bytes > usize::MAX - 124 {
        return Err(ClipboardWriterError::TooLarge);
    }
    let mut dib: Vec<u8> = Vec::new();
    push_u32_le(&mut dib, 124);
    push_u32_le(&mut dib, width);
    push_u32_le(&mut dib, (0x1_0000_0000u64 - height as u64) as u32);
    dib.push(1);
    dib.push(0);
    dib.push(32);
    dib.push(0);
    push_u32_le(&mut dib, 3);
    push_u32_le(&mut dib, (pixel_bytes as u64 % 0x1_0000_0000u64) as u32);
    push_zeros(&mut dib, 16);
    push_u32_le(&mut dib, 0x00ff_0000);
    push_u32_le(&mut dib, 0x0000_ff00);
    push_u32_le(&mut dib, 0x0000_00ff);
    push_u32_le(&mut dib, 0xff00_0000);
    push_u32_le(&mut dib, 0x7352_4742);
    push_zeros(&mut dib, 64);
    let ghost header = dib_v5_header(width, height, (rgba@.len() % 0x1_0000_0000) as u32);
    assert(dib@ =~= header);
    let mut p: usize = 0;
    while p < pixels
        invariant
            p <= pixels,
            pixels <= usize::MAX / 4,
            rgba@.len() == 4 * pixels,
            dib@.len() == 124 + 4 * p,
            dib@.subrange(0, 124) == header,
            forall|k: int| 0 <= k < 4 * p ==> dib@[124 + k] == bgra_of(rgba@)[k],
        decreases pixels - p,
    {
        let base = 4 * p;
        dib.push(rgba[base + 2]);
        dib.push(rgba[base + 1]);
        dib.push(rgba[base]);
        dib.push(rgba[base + 3]);
        proof {
            assert forall|k: int| 0 <= k < 4 * (p + 1) implies dib@[124 + k] == bgra_of(rgba@)[k] by {
                if k >= 4 * p {
                    assert(k % 4 == k - 4 * p);
                }
            }
        }
        p += 1;
    }
    assert(dib@ =~= header + bgra_of(rgba@));
    Ok(dib)
}

// ---------------------------------------------------------------------------
// Formats for content.

/// The clipboard formats written for `content`.
pub open spec fn content_formats(content: ClipboardWriteContent) -> Result<
    Seq<(u32, Seq<u8>)>,
    ClipboardWriterError,
> {
    match content {
        ClipboardWriteContent::Text(text) => Ok(seq![(CF_UNICODETEXT_FORMAT, unicode_text_block(text@))]),
        ClipboardWriteContent::Image { width, height, rgba } => match dib_v5_write_result(
            width,
            height,
            rgba@,
        ) {
            Ok(bytes) => Ok(seq![(CF_DIBV5_FORMAT, bytes)]),
            Err(error) => Err(error),
        },
        ClipboardWriteContent::Files { paths } => match hdrop_write_result(path_views(paths@)) {
            Ok(bytes) => Ok(seq![(CF_HDROP_FORMAT, bytes)]),
            Err(error) => Err(error),
        },
    }
}

/// The format numbers and bytes of a list of formats.
pub open spec fn format_views(formats: Seq<ClipboardFormatBytes>) -> Seq<(u32, Seq<u8>)> {
    Seq::new(formats.len(), |i: int| (formats[i].format, formats[i].bytes@))
}

/// The clipboard formats `content` is written as.
pub fn formats_for_content(content: &ClipboardWriteContent) -> (result: Result<
    Vec<ClipboardFormatBytes>,
    ClipboardWriterError,
>)
    ensures
        match content_formats(*content) {
            Ok(formats) => result matches Ok(written) && format_views(written@) == formats,
            Err(error) => result == Err::<Vec<ClipboardFormatBytes>, ClipboardWriterError>(error),
        },
{
    let (format, bytes) = match content {
        ClipboardWriteContent::Text(text) => (CF_UNICODETEXT_FORMAT, text_to_unicode_block(text.as_str())),
        ClipboardWriteContent::Image { width, height, rgba } => {
            match rgba_to_dib_v5(*width, *height, rgba.as_slice()) {
                Ok(bytes) => (CF_DIBV5_FORMAT, bytes),
                Err(error) => {
                    return Err(error);
                },
            }
        },
        ClipboardWriteContent::Files { paths } => match paths_to_hdrop(paths.as_slice()) {
            Ok(bytes) => (CF_HDROP_FORMAT, bytes),
            Err(error) => {
                return Err(error);
            },
        },
    };
    let formats = vec![ClipboardFormatBytes { format, bytes }];
    assert(format_views(formats@) =~= content_formats(*content).unwrap());
    Ok(formats)
}


// ---------------------------------------------------------------------------
// The guarded replace protocol.

/// One clipboard call a write made, with its arguments and its answer.
pub enum OpsCall {
    Open(bool),
    Close,
    Sequence(u32),
    Empty(bool),
    Prepare(u32, Seq<u8>, Result<(), ClipboardWriterError>),
    SetBlock(bool),
}

/// The clipboard calls a write makes. `prepare_bytes` allocates the global
/// memory of one format before the clipboard is opened; `set_prepared` hands
/// it to the clipboard. `calls` names the calls made so far, oldest first,
/// each with its arguments and answer.
pub trait ClipboardOps {
    /// A format's allocated, not yet handed over, memory block.
    type Prepared;

    /// The calls made so far.
    spec fn calls(&self) -> Seq<OpsCall>;

    /// Opens the clipboard.
    fn open(&mut self) -> (opened: bool)
        ensures
            final(self).calls() == old(self).calls().push(OpsCall::Open(opened)),
    ;
    /// Closes the clipboard opened by `open`.
    fn close(&mut self)
        ensures
            final(self).calls() == old(self).calls().push(OpsCall::Close),
    ;
    /// The clipboard sequence number (0 when unknown).
    fn sequence(&mut self) -> (sequence: u32)
        ensures
            final(self).calls() == old(self).calls().push(OpsCall::Sequence(sequence)),
    ;
    /// Empties the opened clipboard and takes ownership of it.
    fn empty(&mut self) -> (emptied: bool)
        ensures
            final(self).calls() == old(self).calls().push(OpsCall::Empty(emptied)),
    ;
    /// Allocates a block holding `bytes` for `format`.
    fn prepare_bytes(&mut self, format: u32, bytes: &[u8]) -> (result: Result<Self::Prepared, ClipboardWriterError>)
        ensures
            final(self).calls() == old(self).calls().push(
                OpsCall::Prepare(
                    format,
                    bytes@,
                    match result {
                        Ok(_) => Ok::<(), ClipboardWriterError>(()),
                        Err(error) => Err::<(), ClipboardWriterError>(error),
                    },
                ),
            ),
    ;
    /// Hands a prepared block to the opened clipboard.
    fn set_prepared(&mut self, prepared: Self::Prepared) -> (accepted: bool)
        ensures
            final(self).calls() == old(self).calls().push(OpsCall::SetBlock(accepted)),
    ;
    /// Pauses before opening the clipboard again after a failed open.
    fn wait_before_retry(&mut self)
        ensures
            final(self).calls() == old(self).calls(),
    {
    }
}

/// The calls made since `before`.
pub open spec fn calls_since(before: Seq<OpsCall>, after: Seq<OpsCall>) -> Seq<OpsCall> {
    after.subrange(before.len() as int, after.len() as int)
}

/// Whether `after` is `before` with more calls appended.
pub open spec fn extends(before: Seq<OpsCall>, after: Seq<OpsCall>) -> bool {
    before.len() <= after.len() && after.subrange(0, before.len() as int) == before
}

/// A call made after `before` extends the calls made since `start`.
proof fn lemma_calls_since_push(start: Seq<OpsCall>, before: Seq<OpsCall>, call: OpsCall)
    requires
        extends(start, before),
    ensures
        extends(start, before.push(call)),
        calls_since(start, before.push(call)) == calls_since(start, before).push(call),
{
    assert(before.push(call).subrange(0, start.len() as int) =~= before.subrange(0, start.len() as int));
    assert(calls_since(start, before.push(call)) =~= calls_since(start, before).push(call));
}

/// Calls since `a` are the calls up to `b` followed by those after it.
proof fn lemma_calls_since_split(a: Seq<OpsCall>, b: Seq<OpsCall>, c: Seq<OpsCall>)
    requires
        extends(a, b),
        extends(b, c),
    ensures
        extends(a, c),
        calls_since(a, c) == calls_since(a, b) + calls_since(b, c),
{
    assert(c.subrange(0, a.len() as int) =~= b.subrange(0, a.len() as int));
    assert(calls_since(a, c) =~= calls_since(a, b) + calls_since(b, c));
}

/// `failures` failed opens, then one open that answered `opened`.
pub open spec fn open_calls(failures: nat, opened: bool) -> Seq<OpsCall> {
    Seq::new(failures, |j: int| OpsCall::Open(false)).push(OpsCall::Open(opened))
}

/// The first `count` formats prepared successfully, then, for a failure,
/// the next format's failed preparation.
pub open spec fn prepare_calls(
    formats: Seq<(u32, Seq<u8>)>,
    count: nat,
    failure: Option<ClipboardWriterError>,
) -> Seq<OpsCall> {
    Seq::new(count, |j: int| OpsCall::Prepare(formats[j].0, formats[j].1, Ok::<(), ClipboardWriterError>(())))
        + match failure {
        Some(error) => seq![OpsCall::Prepare(formats[count as int].0, formats[count as int].1, Err::<(), ClipboardWriterError>(error))],
        None => Seq::empty(),
    }
}

/// What the opened clipboard answered while a write ran in it.
#[derive(Debug, Clone, Copy, PartialEq, Eq)]
pub struct OpenAnswers {
    /// The sequence read once open (when a sequence was expected).
    pub at_open: u32,
    pub emptied: bool,
    /// How many blocks the clipboard accepted before any refusal.
    pub set: usize,
    pub set_failed: bool,
    /// The sequence read after the blocks were handed over.
    pub final_sequence: u32,
}

/// Whether the answers fit a write of `count` blocks.
pub open spec fn open_answers_fit(count: int, answers: OpenAnswers) -> bool {
    if answers.set_failed {
        answers.set < count
    } else {
        answers.set == count
    }
}

/// The calls a write of `count` blocks makes in the opened clipboard: the
/// sequence, compared with `expected`; empty; the blocks, in order, up to a
/// refusal; the sequence after.
pub open spec fn written_calls(count: int, expected: Option<u32>, answers: OpenAnswers) -> Seq<OpsCall> {
    (if expected is Some {
        seq![OpsCall::Sequence(answers.at_open)]
    } else {
        Seq::empty()
    }) + if expected is Some && expected != Some(answers.at_open) {
        Seq::empty()
    } else {
        seq![OpsCall::Empty(answers.emptied)] + if !answers.emptied {
            Seq::empty()
        } else {
            Seq::new(answers.set as nat, |j: int| OpsCall::SetBlock(true)) + (if answers.set_failed {
                seq![OpsCall::SetBlock(false)]
            } else {
                Seq::empty()
            }) + seq![OpsCall::Sequence(answers.final_sequence)]
        }
    }
}

/// What such a write answers: the clipboard left alone (`Ok(None)`) when
/// it is no longer at `expected`; a failed empty or a refused block is an
/// error; otherwise the new sequence (`Busy` when it is unknown).
pub open spec fn written_result(expected: Option<u32>, answers: OpenAnswers) -> Result<Option<u32>, ClipboardWriterError> {
    if expected is Some && expected != Some(answers.at_open) {
        Ok(None)
    } else if !answers.emptied {
        Err(ClipboardWriterError::WindowsApi("EmptyClipboard"))
    } else if answers.set_failed {
        Err(ClipboardWriterError::WindowsApi("SetClipboardData"))
    } else if answers.final_sequence == 0 {
        Err(ClipboardWriterError::Busy)
    } else {
        Ok(Some(answers.final_sequence))
    }
}

/// The sequences such a write reports to `suppress`: the new sequence of a
/// completed write, and the mutated sequence, when known, of a refused one.
pub open spec fn written_suppressed(expected: Option<u32>, answers: OpenAnswers) -> Seq<u32> {
    if expected is Some && expected != Some(answers.at_open) || !answers.emptied || answers.final_sequence == 0 {
        Seq::empty()
    } else {
        seq![answers.final_sequence]
    }
}

/// What a whole replacement's calls answered.
#[derive(Debug, Clone, Copy, PartialEq, Eq)]
pub struct ReplaceAnswers {
    /// The sequence read first.
    pub initial: u32,
    /// How many formats were prepared before any failure.
    pub prepared: usize,
    pub prepare_error: Option<ClipboardWriterError>,
    /// How many opens failed before the last one.
    pub open_failures: usize,
    pub opened: bool,
    pub written: OpenAnswers,
}

/// Whether the answers fit a replacement with `count` formats.
pub open spec fn replace_answers_fit(count: int, answers: ReplaceAnswers) -> bool {
    &&& answers.prepare_error is Some ==> answers.prepared < count
    &&& answers.prepare_error is None ==> answers.prepared == count
    &&& answers.opened ==> answers.open_failures < OPEN_ATTEMPTS
    &&& !answers.opened ==> answers.open_failures == OPEN_ATTEMPTS - 1
    &&& open_answers_fit(count, answers.written)
}

/// The calls a replacement with `formats` makes: the sequence; then, unless
/// it is unknown, every format prepared in order (stopping at a failure);
/// then the opens; then, once open, the write and the close.
pub open spec fn replace_calls(formats: Seq<(u32, Seq<u8>)>, answers: ReplaceAnswers) -> Seq<OpsCall> {
    seq![OpsCall::Sequence(answers.initial)] + if answers.initial == 0 {
        Seq::empty()
    } else {
        prepare_calls(formats, answers.prepared as nat, answers.prepare_error) + if answers.prepare_error is Some {
            Seq::empty()
        } else {
            open_calls(answers.open_failures as nat, answers.opened) + if !answers.opened {
                Seq::empty()
            } else {
                written_calls(formats.len() as int, Some(answers.initial), answers.written).push(OpsCall::Close)
            }
        }
    }
}

/// What such a replacement answers.
pub open spec fn replace_result(answers: ReplaceAnswers) -> Result<Option<u32>, ClipboardWriterError> {
    if answers.initial == 0 {
        Err(ClipboardWriterError::Busy)
    } else if answers.prepare_error is Some {
        Err(answers.prepare_error->0)
    } else if !answers.opened {
        Err(ClipboardWriterError::Busy)
    } else {
        written_result(Some(answers.initial), answers.written)
    }
}

/// The sequences a replacement reports as its own: those of its write,
/// when the clipboard was opened for one.
pub open spec fn replace_suppressed(answers: ReplaceAnswers) -> Seq<u32> {
    if answers.initial == 0 || answers.prepare_error is Some || !answers.opened {
        Seq::empty()
    } else {
        written_suppressed(Some(answers.initial), answers.written)
    }
}

/// Whether a replacement of the clipboard with `formats`, which made the
/// calls `calls` and took the suppressed sequences from `suppressed_before`
/// to `suppressed_after`, answered `result` as the protocol says for the
/// answers the calls got.
pub open spec fn replaced_as_called(
    formats: Seq<(u32, Seq<u8>)>,
    calls: Seq<OpsCall>,
    suppressed_before: Seq<u32>,
    suppressed_after: Seq<u32>,
    result: Result<Option<u32>, ClipboardWriterError>,
) -> bool {
    exists|answers: ReplaceAnswers|
        #[trigger] replace_answers_fit(formats.len() as int, answers) && calls == replace_calls(formats, answers)
            && result == replace_result(answers) && suppressed_after == suppressed_before + replace_suppressed(answers)
}

/// Told of each clipboard sequence the library's own writes produce, so
/// that the listener skips them. `suppressed` names the sequences told so
/// far, oldest first.
pub trait SequenceSuppressor {
    /// The sequences told so far.
    spec fn suppressed(&self) -> Seq<u32>;

    /// Tells of the library's own write at `sequence`.
    fn suppress(&mut self, sequence: u32)
        ensures
            final(self).suppressed() == old(self).suppressed().push(sequence),
    ;
}

/// Opens the clipboard, trying `OPEN_ATTEMPTS` times; `Busy` when every
/// attempt fails. On `Ok` the caller must close it.
pub fn open_with_retries<O: ClipboardOps>(ops: &mut O) -> (result: Result<(), ClipboardWriterError>)
    ensures
        extends(old(ops).calls(), final(ops).calls()),
        result is Err ==> result == Err::<(), ClipboardWriterError>(ClipboardWriterError::Busy) && calls_since(
            old(ops).calls(),
            final(ops).calls(),
        ) == open_calls((OPEN_ATTEMPTS - 1) as nat, false),
        result is Ok ==> exists|failures: nat|
            failures < OPEN_ATTEMPTS && #[trigger] open_calls(failures, true) == calls_since(
                old(ops).calls(),
                final(ops).calls(),
            ),
{
    let ghost start = ops.calls();
    assert(ops.calls().subrange(0, start.len() as int) =~= start);
    let mut attempt: usize = 0;
    assert(calls_since(start, ops.calls()) =~= Seq::new(0, |j: int| OpsCall::Open(false)));
    while attempt < OPEN_ATTEMPTS
        invariant
            attempt < OPEN_ATTEMPTS,
            start == old(ops).calls(),
            extends(start, ops.calls()),
            calls_since(start, ops.calls()) == Seq::new(attempt as nat, |j: int| OpsCall::Open(false)),
        decreases OPEN_ATTEMPTS - attempt,
    {
        let ghost before = ops.calls();
        let opened = ops.open();
        proof {
            lemma_calls_since_push(start, before, OpsCall::Open(opened));
        }
        if opened {
            assert(calls_since(start, ops.calls()) =~= open_calls(attempt as nat, true));
            assert(open_calls(attempt as nat, true) == calls_since(old(ops).calls(), ops.calls()));
            return Ok(());
        }
        if attempt + 1 < OPEN_ATTEMPTS {
            ops.wait_before_retry();
        } else {
            assert(calls_since(start, ops.calls()) =~= open_calls(attempt as nat, false));
            return Err(ClipboardWriterError::Busy);
        }
        attempt += 1;
        assert(calls_since(start, ops.calls()) =~= Seq::new(attempt as nat, |j: int| OpsCall::Open(false)));
    }
    Err(ClipboardWriterError::Busy)
}

/// Allocates every format, in order, stopping at the first failure.
pub fn prepare_formats<O: ClipboardOps>(ops: &mut O, formats: &[ClipboardFormatBytes]) -> (result: Result<
    Vec<O::Prepared>,
    ClipboardWriterError,
>)
    ensures
        extends(old(ops).calls(), final(ops).calls()),
        result matches Ok(prepared) ==> prepared@.len() == formats@.len(),
        formats@.len() == 0 ==> result is Ok,
        match result {
            Ok(_) => calls_since(old(ops).calls(), final(ops).calls()) == prepare_calls(
                format_views(formats@),
                formats@.len(),
                None,
            ),
            Err(error) => exists|count: nat|
                #![trigger prepare_calls(format_views(formats@), count, Some(error))]
                count < formats@.len() && calls_since(old(ops).calls(), final(ops).calls()) == prepare_calls(
                    format_views(formats@),
                    count,
                    Some(error),
                ),
        },
{
    let ghost start = ops.calls();
    assert(ops.calls().subrange(0, start.len() as int) =~= start);
    let ghost views = format_views(formats@);
    let mut prepared: Vec<O::Prepared> = Vec::new();
    let mut i: usize = 0;
    assert(calls_since(start, ops.calls()) =~= prepare_calls(views, 0, None));
    while i < formats.len()
        invariant
            i <= formats@.len(),
            prepared@.len() == i,
            views == format_views(formats@),
            start == old(ops).calls(),
            extends(start, ops.calls()),
            calls_since(start, ops.calls()) == prepare_calls(views, i as nat, None),
        decreases formats.len() - i,
    {
        let format = &formats[i];
        let ghost before = ops.calls();
        let answer = ops.prepare_bytes(format.format, format.bytes.as_slice());
        assert(views[i as int] == (format.format, format.bytes@));
        match answer {
            Ok(block) => {
                proof {
                    lemma_calls_since_push(
                        start,
                        before,
                        OpsCall::Prepare(format.format, format.bytes@, Ok::<(), ClipboardWriterError>(())),
                    );
                }
                prepared.push(block);
                assert(calls_since(start, ops.calls()) =~= prepare_calls(views, (i + 1) as nat, None));
            },
            Err(error) => {
                proof {
                    lemma_calls_since_push(
                        start,
                        before,
                        OpsCall::Prepare(format.format, format.bytes@, Err::<(), ClipboardWriterError>(error)),
                    );
                }
                assert(calls_since(start, ops.calls()) =~= prepare_calls(views, i as nat, Some(error)));
                return Err(error);
            },
        }
        i += 1;
    }
    Ok(prepared)
}

/// Writes prepared blocks to the opened clipboard: `Ok(None)` without
/// touching it when its sequence is no longer `expected_sequence`; each
/// mutation of the clipboard is reported to `suppress` so the listener does
/// not record the library's own write.
fn write_prepared_opened<O: ClipboardOps, S: SequenceSuppressor>(
    ops: &mut O,
    prepared: Vec<O::Prepared>,
    expected_sequence: Option<u32>,
    suppress: &mut S,
) -> (result: Result<Option<u32>, ClipboardWriterError>)
    ensures
        extends(old(ops).calls(), final(ops).calls()),
        result matches Ok(Some(sequence)) ==> sequence != 0,
        exists|answers: OpenAnswers|
            #[trigger] open_answers_fit(prepared@.len() as int, answers) && calls_since(old(ops).calls(), final(ops).calls())
                == written_calls(prepared@.len() as int, expected_sequence, answers) && result == written_result(
                expected_sequence,
                answers,
            ) && final(suppress).suppressed() == old(suppress).suppressed() + written_suppressed(
                expected_sequence,
                answers,
            ),
{
    let ghost start = ops.calls();
    let ghost told = suppress.suppressed();
    assert(ops.calls().subrange(0, start.len() as int) =~= start);
    let count = prepared.len();
    let mut answers = OpenAnswers { at_open: 0, emptied: false, set: count, set_failed: false, final_sequence: 0 };
    if let Some(expected) = expected_sequence {
        let ghost before = ops.calls();
        let current = ops.sequence();
        proof {
            lemma_calls_since_push(start, before, OpsCall::Sequence(current));
        }
        answers.at_open = current;
        if current != expected {
            assert(calls_since(start, ops.calls()) =~= written_calls(count as int, expected_sequence, answers));
            assert(open_answers_fit(count as int, answers));
            assert(suppress.suppressed() =~= told + written_suppressed(expected_sequence, answers));
            return Ok(None);
        }
    }
    let ghost prefix = calls_since(start, ops.calls());
    assert(prefix =~= (if expected_sequence is Some {
        seq![OpsCall::Sequence(answers.at_open)]
    } else {
        Seq::empty()
    }));
    let ghost before_empty = ops.calls();
    let emptied = ops.empty();
    proof {
        lemma_calls_since_push(start, before_empty, OpsCall::Empty(emptied));
    }
    if !emptied {
        assert(calls_since(start, ops.calls()) =~= written_calls(count as int, expected_sequence, answers));
        assert(open_answers_fit(count as int, answers));
        assert(suppress.suppressed() =~= told + written_suppressed(expected_sequence, answers));
        return Err(ClipboardWriterError::WindowsApi("EmptyClipboard"));
    }
    answers.emptied = true;
    answers.set = 0;
    let mut remaining = prepared;
    assert(calls_since(start, ops.calls()) =~= prefix.push(OpsCall::Empty(true)) + Seq::new(
        0,
        |j: int| OpsCall::SetBlock(true),
    ));
    while remaining.len() > 0
        invariant
            answers.set + remaining@.len() == count,
            count == prepared@.len(),
            answers.emptied,
            !answers.set_failed,
            start == old(ops).calls(),
            told == old(suppress).suppressed(),
            suppress.suppressed() == told,
            expected_sequence is Some ==> expected_sequence == Some(answers.at_open),
            prefix == (if expected_sequence is Some {
                seq![OpsCall::Sequence(answers.at_open)]
            } else {
                Seq::empty()
            }),
            extends(start, ops.calls()),
            calls_since(start, ops.calls()) == prefix.push(OpsCall::Empty(true)) + Seq::new(
                answers.set as nat,
                |j: int| OpsCall::SetBlock(true),
            ),
        decreases remaining.len(),
    {
        let block = remaining.remove(0);
        let ghost before_set = ops.calls();
        let accepted = ops.set_prepared(block);
        proof {
            lemma_calls_since_push(start, before_set, OpsCall::SetBlock(accepted));
        }
        if !accepted {
            answers.set_failed = true;
            let ghost before_sequence = ops.calls();
            let sequence = ops.sequence();
            proof {
                lemma_calls_since_push(start, before_sequence, OpsCall::Sequence(sequence));
            }
            answers.final_sequence = sequence;
            if sequence != 0 {
                suppress.suppress(sequence);
            }
            assert(calls_since(start, ops.calls()) =~= written_calls(count as int, expected_sequence, answers));
            assert(open_answers_fit(count as int, answers));
            assert(suppress.suppressed() =~= told + written_suppressed(expected_sequence, answers));
            return Err(ClipboardWriterError::WindowsApi("SetClipboardData"));
        }
        answers.set = answers.set + 1;
        assert(calls_since(start, ops.calls()) =~= prefix.push(OpsCall::Empty(true)) + Seq::new(
            answers.set as nat,
            |j: int| OpsCall::SetBlock(true),
        ));
    }
    let ghost before_final = ops.calls();
    let sequence = ops.sequence();
    proof {
        lemma_calls_since_push(start, before_final, OpsCall::Sequence(sequence));
    }
    answers.final_sequence = sequence;
    assert(calls_since(start, ops.calls()) =~= written_calls(count as int, expected_sequence, answers));
    assert(open_answers_fit(count as int, answers));
    if sequence == 0 {
        assert(suppress.suppressed() =~= told + written_suppressed(expected_sequence, answers));
        return Err(ClipboardWriterError::Busy);
    }
    suppress.suppress(sequence);
    assert(suppress.suppressed() =~= told + written_suppressed(expected_sequence, answers));
    Ok(Some(sequence))
}

/// Opens the clipboard, writes the prepared blocks and closes it again.
pub fn write_prepared<O: ClipboardOps, S: SequenceSuppressor>(
    ops: &mut O,
    prepared: Vec<O::Prepared>,
    expected_sequence: Option<u32>,
    suppress: &mut S,
) -> (result: Result<Option<u32>, ClipboardWriterError>)
    ensures
        extends(old(ops).calls(), final(ops).calls()),
        result matches Ok(Some(sequence)) ==> sequence != 0,
        exists|failures: nat, opened: bool, answers: OpenAnswers|
            #![trigger open_calls(failures, opened), open_answers_fit(prepared@.len() as int, answers)]
            (if opened { failures < OPEN_ATTEMPTS } else { failures == OPEN_ATTEMPTS - 1 }) && open_answers_fit(
                prepared@.len() as int,
                answers,
            ) && calls_since(old(ops).calls(), final(ops).calls()) == open_calls(failures, opened) + if opened {
                written_calls(prepared@.len() as int, expected_sequence, answers).push(OpsCall::Close)
            } else {
                Seq::empty()
            } && result == if opened {
                written_result(expected_sequence, answers)
            } else {
                Err(ClipboardWriterError::Busy)
            } && final(suppress).suppressed() == old(suppress).suppressed() + if opened {
                written_suppressed(expected_sequence, answers)
            } else {
                Seq::empty()
            },
{
    let ghost start = ops.calls();
    let ghost told = suppress.suppressed();
    assert(ops.calls().subrange(0, start.len() as int) =~= start);
    let ghost count = prepared@.len() as int;
    match open_with_retries(ops) {
        Ok(()) => {},
        Err(error) => {
            let answers = OpenAnswers { at_open: 0, emptied: false, set: prepared.len(), set_failed: false, final_sequence: 0 };
            assert(calls_since(start, ops.calls()) =~= open_calls((OPEN_ATTEMPTS - 1) as nat, false) + Seq::<
                OpsCall,
            >::empty());
            assert(open_answers_fit(count, answers));
            assert(open_calls((OPEN_ATTEMPTS - 1) as nat, false) == open_calls((OPEN_ATTEMPTS - 1) as nat, false));
            assert(suppress.suppressed() =~= told + Seq::<u32>::empty());
            return Err(error);
        },
    }
    let ghost failures = choose|failures: nat|
        failures < OPEN_ATTEMPTS && #[trigger] open_calls(failures, true) == calls_since(start, ops.calls());
    let ghost opened_at = ops.calls();
    let result = write_prepared_opened(ops, prepared, expected_sequence, suppress);
    let ghost answers = choose|answers: OpenAnswers|
        #[trigger] open_answers_fit(count, answers) && calls_since(opened_at, ops.calls()) == written_calls(
            count,
            expected_sequence,
            answers,
        ) && result == written_result(expected_sequence, answers) && suppress.suppressed() == told
            + written_suppressed(expected_sequence, answers);
    let ghost written_at = ops.calls();
    ops.close();
    proof {
        lemma_calls_since_split(start, opened_at, written_at);
        lemma_calls_since_push(start, written_at, OpsCall::Close);
    }
    assert(calls_since(start, ops.calls()) =~= open_calls(failures, true) + written_calls(
        count,
        expected_sequence,
        answers,
    ).push(OpsCall::Close));
    result
}

/// Replaces the clipboard with `formats`: every block is allocated before the
/// clipboard is opened and emptied, and the write is abandoned (`Ok(None)`)
/// when another program changed the clipboard in between.
pub fn replace_current_formats_with_ops<O: ClipboardOps, S: SequenceSuppressor>(
    ops: &mut O,
    formats: &[ClipboardFormatBytes],
    suppress: &mut S,
) -> (result: Result<Option<u32>, ClipboardWriterError>)
    ensures
        extends(old(ops).calls(), final(ops).calls()),
        result matches Ok(Some(sequence)) ==> sequence != 0,
        replaced_as_called(
            format_views(formats@),
            calls_since(old(ops).calls(), final(ops).calls()),
            old(suppress).suppressed(),
            final(suppress).suppressed(),
            result,
        ),
{
    let ghost start = ops.calls();
    let ghost told = suppress.suppressed();
    assert(ops.calls().subrange(0, start.len() as int) =~= start);
    let ghost views = format_views(formats@);
    let expected_sequence = ops.sequence();
    proof {
        lemma_calls_since_push(start, start, OpsCall::Sequence(expected_sequence));
    }
    let written0 = OpenAnswers { at_open: 0, emptied: false, set: formats.len(), set_failed: false, final_sequence: 0 };
    if expected_sequence == 0 {
        let answers = ReplaceAnswers {
            initial: 0,
            prepared: formats.len(),
            prepare_error: None,
            open_failures: 0,
            opened: true,
            written: written0,
        };
        assert(calls_since(start, ops.calls()) =~= replace_calls(views, answers));
        assert(replace_answers_fit(views.len() as int, answers));
        assert(suppress.suppressed() =~= told + replace_suppressed(answers));
        return Err(ClipboardWriterError::Busy);
    }
    let ghost after_sequence = ops.calls();
    let prepared = match prepare_formats(ops, formats) {
        Ok(prepared) => prepared,
        Err(error) => {
            let ghost count = choose|count: nat|
                #![trigger prepare_calls(views, count, Some(error))]
                count < formats@.len() && calls_since(after_sequence, ops.calls()) == prepare_calls(views, count, Some(error));
            proof {
                lemma_calls_since_split(start, after_sequence, ops.calls());
            }
            let ghost answers = ReplaceAnswers {
                initial: expected_sequence,
                prepared: count as usize,
                prepare_error: Some(error),
                open_failures: 0,
                opened: true,
                written: written0,
            };
            assert(calls_since(start, ops.calls()) =~= replace_calls(views, answers));
            assert(replace_answers_fit(views.len() as int, answers));
            assert(suppress.suppressed() =~= told + replace_suppressed(answers));
            return Err(error);
        },
    };
    let ghost after_prepare = ops.calls();
    proof {
        lemma_calls_since_split(start, after_sequence, after_prepare);
    }
    let result = write_prepared(ops, prepared, Some(expected_sequence), suppress);
    proof {
        let (failures, opened, written) = choose|failures: nat, opened: bool, answers: OpenAnswers|
            #![trigger open_calls(failures, opened), open_answers_fit(views.len() as int, answers)]
            (if opened { failures < OPEN_ATTEMPTS } else { failures == OPEN_ATTEMPTS - 1 }) && open_answers_fit(
                views.len() as int,
                answers,
            ) && calls_since(after_prepare, ops.calls()) == open_calls(failures, opened) + if opened {
                written_calls(views.len() as int, Some(expected_sequence), answers).push(OpsCall::Close)
            } else {
                Seq::empty()
            } && result == if opened {
                written_result(Some(expected_sequence), answers)
            } else {
                Err(ClipboardWriterError::Busy)
            } && suppress.suppressed() == told + if opened {
                written_suppressed(Some(expected_sequence), answers)
            } else {
                Seq::empty()
            };
        lemma_calls_since_split(start, after_prepare, ops.calls());
        let answers = ReplaceAnswers {
            initial: expected_sequence,
            prepared: formats.len(),
            prepare_error: None,
            open_failures: failures as usize,
            opened,
            written,
        };
        assert(calls_since(start, ops.calls()) =~= replace_calls(views, answers));
        assert(replace_answers_fit(views.len() as int, answers));
        assert(suppress.suppressed() =~= told + replace_suppressed(answers));
    }
    result
}

/// Exclusive access to the clipboard for one logical write.
pub struct ClipboardWriterTransaction<O: ClipboardOps> {
    ops: O,
}

impl<O: ClipboardOps> ClipboardWriterTransaction<O> {
    /// The clipboard calls the transaction makes.
    pub closed spec fn ops(&self) -> O {
        self.ops
    }

    /// Replaces the clipboard with `content`; `Ok(None)` when another program
    /// changed the clipboard during the write.
    pub fn replace_current<S: SequenceSuppressor>(&mut self, content: &ClipboardWriteContent, suppress: &mut S) -> (result: Result<
        Option<u32>,
        ClipboardWriterError,
    >)
        ensures
            content_formats(*content) matches Err(error) ==> result == Err::<
                Option<u32>,
                ClipboardWriterError,
            >(error),
            content_formats(*content) is Err ==> *final(self) == *old(self) && final(suppress).suppressed()
                == old(suppress).suppressed(),
            result matches Ok(Some(sequence)) ==> sequence != 0,
            content_formats(*content) matches Ok(formats) ==> replaced_as_called(
                formats,
                calls_since(old(self).ops().calls(), final(self).ops().calls()),
                old(suppress).suppressed(),
                final(suppress).suppressed(),
                result,
            ),
    {
        let formats = match formats_for_content(content) {
            Ok(formats) => formats,
            Err(error) => {
                return Err(error);
            },
        };
        replace_current_formats_with_ops(&mut self.ops, formats.as_slice(), suppress)
    }
}

/// Serializes the library's clipboard writes.
pub struct ClipboardWriter<O: ClipboardOps> {
    transaction: ClipboardWriterTransaction<O>,
}

impl<O: ClipboardOps> ClipboardWriter<O> {
    /// The clipboard calls the writer makes.
    pub closed spec fn ops(&self) -> O {
        self.transaction.ops
    }

    /// A writer over `ops`.
    pub fn new(ops: O) -> (result: Self)
        ensures
            result.ops() == ops,
    {
        ClipboardWriter { transaction: ClipboardWriterTransaction { ops } }
    }

    /// Runs `operation` with exclusive access to the clipboard.
    pub fn transaction<T, E, F: FnOnce(&mut ClipboardWriterTransaction<O>) -> Result<T, E>>(
        &mut self,
        operation: F,
    ) -> (result: Result<T, E>)
        requires
            forall|t: &mut ClipboardWriterTransaction<O>| #[trigger] operation.requires((t,)),
        ensures
            exists|t: &mut ClipboardWriterTransaction<O>| #[trigger] operation.ensures((t,), result),
    {
        operation(&mut self.transaction)
    }

    /// Replaces the clipboard with `content` inside one transaction; `Ok(None)`
    /// when another program changed the clipboard during the write.
    pub fn replace_in_transaction<S: SequenceSuppressor>(&mut self, content: &ClipboardWriteContent, suppress: &mut S) -> (result: Result<
        Option<u32>,
        ClipboardWriterError,
    >)
        ensures
            content_formats(*content) matches Err(error) ==> result == Err::<
                Option<u32>,
                ClipboardWriterError,
            >(error),
            content_formats(*content) is Err ==> final(self).ops() == old(self).ops() && final(suppress).suppressed()
                == old(suppress).suppressed(),
            result matches Ok(Some(sequence)) ==> sequence != 0,
            content_formats(*content) matches Ok(formats) ==> replaced_as_called(
                formats,
                calls_since(old(self).ops().calls(), final(self).ops().calls()),
                old(suppress).suppressed(),
                final(suppress).suppressed(),
                result,
            ),
    {
        self.transaction.replace_current(content, suppress)
    }

    /// Replaces the clipboard with already validated content and reports its
    /// new sequence; `Busy` when another program changed it meanwhile.
    pub fn replace_current<S: SequenceSuppressor>(&mut self, content: &ClipboardWriteContent, suppress: &mut S) -> (result: Result<
        u32,
        ClipboardWriterError,
    >)
        ensures
            content_formats(*content) matches Err(error) ==> result == Err::<u32, ClipboardWriterError>(
                error,
            ),
            content_formats(*content) is Err ==> final(self).ops() == old(self).ops() && final(suppress).suppressed()
                == old(suppress).suppressed(),
            result matches Ok(sequence) ==> sequence != 0,
            content_formats(*content) matches Ok(formats) ==> exists|written: Result<
                Option<u32>,
                ClipboardWriterError,
            >|
                #[trigger] replaced_as_called(
                    formats,
                    calls_since(old(self).ops().calls(), final(self).ops().calls()),
                    old(suppress).suppressed(),
                    final(suppress).suppressed(),
                    written,
                ) && result == match written {
                    Ok(Some(sequence)) => Ok::<u32, ClipboardWriterError>(sequence),
                    Ok(None) => Err::<u32, ClipboardWriterError>(ClipboardWriterError::Busy),
                    Err(error) => Err::<u32, ClipboardWriterError>(error),
                },
    {
        let written = self.transaction.replace_current(content, suppress);
        proof {
            if let Ok(formats) = content_formats(*content) {
                assert(replaced_as_called(
                    formats,
                    calls_since(old(self).ops().calls(), self.ops().calls()),
                    old(suppress).suppressed(),
                    suppress.suppressed(),
                    written,
                ));
            }
        }
        match written {
            Ok(Some(sequence)) => Ok(sequence),
            Ok(None) => Err(ClipboardWriterError::Busy),
            Err(error) => Err(error),
        }
    }
}

// ---------------------------------------------------------------------------
// Global memory blocks.

/// The global-memory calls that prepare a clipboard block.
pub trait GlobalMemoryApi {
    /// Allocates a movable block of `size` bytes.
    fn allocate(&mut self, size: usize) -> Option<usize>;
    /// Locks the block and copies `bytes` into it.
    fn lock_and_copy(&mut self, handle: usize, bytes: &[u8]) -> bool;
    /// Unlocks a block locked by `lock_and_copy`.
    fn unlock(&mut self, handle: usize);
    /// Frees a block the clipboard does not own.
    fn free(&mut self, handle: usize);
    /// Hands the block to the clipboard as `format`.
    fn set_clipboard_data(&mut self, format: u32, handle: usize) -> bool;
}

/// Allocates a block holding `bytes`; a block that cannot be filled is freed.
pub fn prepare_global_bytes<M: GlobalMemoryApi>(memory: &mut M, bytes: &[u8]) -> (result: Option<usize>) {
    let handle = match memory.allocate(bytes.len()) {
        Some(handle) => handle,
        None => {
            return None;
        },
    };
    if !memory.lock_and_copy(handle, bytes) {
        memory.free(handle);
        return None;
    }
    memory.unlock(handle);
    Some(handle)
}

/// Puts `bytes` on the clipboard as `format`; the block changes owner only
/// when the clipboard accepts it, and is freed otherwise.
pub fn transfer_global_bytes<M: GlobalMemoryApi>(memory: &mut M, format: u32, bytes: &[u8]) -> (result: bool) {
    let handle = match prepare_global_bytes(memory, bytes) {
        Some(handle) => handle,
        None => {
            return false;
        },
    };
    if memory.set_clipboard_data(format, handle) {
        true
    } else {
        memory.free(handle);
        false
    }
}

} // verus!
