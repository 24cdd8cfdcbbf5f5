use std::collections::VecDeque;
use std::sync::atomic::{AtomicUsize, Ordering};
use std::sync::Mutex;

use opendesktools::clipboard::{MAX_SOURCE_APPLICATION_CHARS, MAX_SOURCE_PROCESS_CHARS};
use opendesktools::dib::{
    bitmap_bgra_to_rgba, bitmap_dimensions, bitmap_image_from_bgra, parse_dib, ClipboardImage,
    BI_BITFIELDS, BI_RGB,
};
use opendesktools::hdrop::{parse_hdrop, ClipboardFiles};
use opendesktools::png_image::{parse_png, png_frame_to_rgba, PngColor};
use opendesktools::listener::{
    ApiCall,
    decode_null_terminated_utf16, is_duplicate_sequence, process_clipboard_notification,
    read_files_with_retries, read_image_with_retries, read_text_with_retries, resolve_clipboard_source,
    should_post_to_message_window, stable_sequence, ClipboardApi, ClipboardListenerManager,
    ClipboardListenerStatus, ClipboardReader, ClipboardRecordTarget, ClipboardSourceMetadata,
    HistoryEventSink, ListenerRecordOutcome, ProcessSourceApi, ReaderCall, RecordCall, CF_BITMAP_FORMAT, CF_DIBV5_FORMAT, CF_DIB_FORMAT,
    MAX_SUPPRESSED_SEQUENCES, OPEN_ATTEMPTS, PROCESS_PATH_CAPACITY,
};

fn hdrop(paths: &[&str]) -> Vec<u8> {
    let mut bytes = vec![0_u8; 20];
    bytes[0..4].copy_from_slice(&20_u32.to_le_bytes());
    bytes[16..20].copy_from_slice(&1_u32.to_le_bytes());
    for path in paths {
        for unit in path.encode_utf16().chain(std::iter::once(0)) {
            bytes.extend_from_slice(&unit.to_le_bytes());
        }
    }
    bytes.extend_from_slice(&0_u16.to_le_bytes());
    bytes
}

#[test]
fn wide_hdrop_parser_accepts_single_and_multiple_files_and_rejects_malformed_blocks() {
    let single = parse_hdrop(&hdrop(&[r"C:\notes.txt"])).unwrap();
    assert_eq!(
        single.paths,
        vec![r"C:\notes.txt".encode_utf16().collect::<Vec<_>>()]
    );
    let multiple = parse_hdrop(&hdrop(&[r"C:\one.txt", r"D:\two.png"])).unwrap();
    assert_eq!(multiple.paths.len(), 2);

    let mut ansi = hdrop(&[r"C:\one.txt"]);
    ansi[16..20].copy_from_slice(&0_u32.to_le_bytes());
    assert!(parse_hdrop(&ansi).is_err());
    let mut bad_offset = hdrop(&[r"C:\one.txt"]);
    bad_offset[0..4].copy_from_slice(&21_u32.to_le_bytes());
    assert!(parse_hdrop(&bad_offset).is_err());
    let mut unterminated = hdrop(&[r"C:\one.txt"]);
    unterminated.truncate(unterminated.len() - 2);
    assert!(parse_hdrop(&unterminated).is_err());
    assert!(parse_hdrop(&[0_u8; 20]).is_err());
}

struct FakeClipboardApi {
    available: bool,
    open_results: VecDeque<bool>,
    data_results: VecDeque<Option<usize>>,
    size_results: VecDeque<usize>,
    lock_results: VecDeque<bool>,
    buffer: Vec<u16>,
    opens: usize,
    closes: usize,
    unlocks: usize,
}

impl FakeClipboardApi {
    fn text(value: &str) -> Self {
        let mut buffer = value.encode_utf16().collect::<Vec<_>>();
        buffer.push(0);
        Self {
            available: true,
            open_results: VecDeque::new(),
            data_results: VecDeque::new(),
            size_results: VecDeque::new(),
            lock_results: VecDeque::new(),
            buffer,
            opens: 0,
            closes: 0,
            unlocks: 0,
        }
    }

    fn allocation_bytes(&self) -> usize {
        self.buffer.len() * std::mem::size_of::<u16>()
    }
}

impl ClipboardApi for FakeClipboardApi {
    fn calls(&self) -> vstd::seq::Seq<ApiCall> {
        unreachable!()
    }

    fn is_unicode_text_available(&mut self) -> bool {
        self.available
    }

    fn open(&mut self) -> bool {
        self.opens += 1;
        self.open_results.pop_front().unwrap_or(true)
    }

    fn close(&mut self) {
        self.closes += 1;
    }

    fn get_unicode_text_data(&mut self) -> Option<usize> {
        self.data_results.pop_front().unwrap_or(Some(1))
    }

    fn global_size(&mut self, _handle: usize) -> usize {
        let fallback = self.allocation_bytes();
        self.size_results.pop_front().unwrap_or(fallback)
    }

    fn global_lock_units(&mut self, _handle: usize, count: usize) -> Option<Vec<u16>> {
        if self.lock_results.pop_front().unwrap_or(true) {
            Some(self.buffer[..count.min(self.buffer.len())].to_vec())
        } else {
            None
        }
    }

    fn global_lock_bytes(&mut self, _handle: usize, _count: usize) -> Option<Vec<u8>> {
        None
    }

    fn global_unlock(&mut self, _handle: usize) {
        self.unlocks += 1;
    }
    fn is_format_available(&mut self, _format: u32) -> bool {
        false
    }
    fn get_format_data(&mut self, _format: u32) -> Option<usize> {
        None
    }
    fn png_format(&mut self) -> u32 {
        0
    }
    fn bitmap_image(&mut self) -> Result<Option<ClipboardImage>, ()> {
        Ok(None)
    }
}

fn read_without_wait(api: &mut FakeClipboardApi) -> (Result<Option<String>, ()>, usize) {
    let mut waits = 0;
    let result = read_text_with_retries(api, || waits += 1);
    (result, waits)
}

#[test]
fn absent_format_is_a_terminal_none_without_open_or_retry() {
    let mut api = FakeClipboardApi::text("ignored");
    api.available = false;

    let (result, waits) = read_without_wait(&mut api);

    assert_eq!(result, Ok(None));
    assert_eq!(api.opens, 0);
    assert_eq!(api.closes, 0);
    assert_eq!(api.unlocks, 0);
    assert_eq!(waits, 0);
}

#[test]
fn transient_get_data_failure_retries_full_opened_attempt_and_balances_close() {
    let mut api = FakeClipboardApi::text("captured");
    api.data_results = VecDeque::from([None, Some(1)]);

    let (result, waits) = read_without_wait(&mut api);

    assert_eq!(result, Ok(Some("captured".to_owned())));
    assert_eq!(api.opens, 2);
    assert_eq!(api.closes, 2);
    assert_eq!(api.unlocks, 1);
    assert_eq!(waits, 1);
}

#[test]
fn transient_open_failure_retries_without_closing_an_unopened_clipboard() {
    let mut api = FakeClipboardApi::text("opened");
    api.open_results = VecDeque::from([false, true]);

    let (result, waits) = read_without_wait(&mut api);

    assert_eq!(result, Ok(Some("opened".to_owned())));
    assert_eq!(api.opens, 2);
    assert_eq!(api.closes, 1);
    assert_eq!(api.unlocks, 1);
    assert_eq!(waits, 1);
}

#[test]
fn transient_size_and_lock_failures_each_retry_the_complete_attempt() {
    let mut size_api = FakeClipboardApi::text("size");
    let valid_size = size_api.allocation_bytes();
    size_api.size_results = VecDeque::from([0, 1, valid_size]);
    let (size_result, size_waits) = read_without_wait(&mut size_api);
    assert_eq!(size_result, Ok(Some("size".to_owned())));
    assert_eq!(
        (size_api.opens, size_api.closes, size_api.unlocks),
        (3, 3, 1)
    );
    assert_eq!(size_waits, 2);

    let mut lock_api = FakeClipboardApi::text("lock");
    lock_api.lock_results = VecDeque::from([false, true]);
    let (lock_result, lock_waits) = read_without_wait(&mut lock_api);
    assert_eq!(lock_result, Ok(Some("lock".to_owned())));
    assert_eq!(
        (lock_api.opens, lock_api.closes, lock_api.unlocks),
        (2, 2, 1)
    );
    assert_eq!(lock_waits, 1);
}

#[test]
fn persistent_get_failure_exhausts_five_attempts_with_every_open_closed() {
    let mut api = FakeClipboardApi::text("never-read");
    api.data_results = VecDeque::from([None; OPEN_ATTEMPTS]);

    let (result, waits) = read_without_wait(&mut api);

    assert_eq!(result, Err(()));
    assert_eq!(api.opens, OPEN_ATTEMPTS);
    assert_eq!(api.closes, OPEN_ATTEMPTS);
    assert_eq!(api.unlocks, 0);
    assert_eq!(waits, OPEN_ATTEMPTS - 1);
}

struct FakeProcessSourceApi {
    owner: Option<usize>,
    process_id: Option<u32>,
    process: Option<usize>,
    path: Option<Vec<u16>>,
    reported_length: Option<usize>,
    owner_calls: usize,
    process_id_calls: usize,
    open_calls: usize,
    query_calls: usize,
    close_calls: usize,
}

impl FakeProcessSourceApi {
    fn success(path: &str) -> Self {
        Self {
            owner: Some(11),
            process_id: Some(22),
            process: Some(33),
            path: Some(path.encode_utf16().collect()),
            reported_length: None,
            owner_calls: 0,
            process_id_calls: 0,
            open_calls: 0,
            query_calls: 0,
            close_calls: 0,
        }
    }
}

impl ProcessSourceApi for FakeProcessSourceApi {
    fn clipboard_owner(&mut self) -> Option<usize> {
        self.owner_calls += 1;
        self.owner
    }

    fn process_id(&mut self, _owner: usize) -> Option<u32> {
        self.process_id_calls += 1;
        self.process_id
    }

    fn open_process(&mut self, _process_id: u32) -> Option<usize> {
        self.open_calls += 1;
        self.process
    }

    fn query_process_image_path(&mut self, _process: usize, buffer: &mut Vec<u16>) -> Option<usize> {
        self.query_calls += 1;
        let path = self.path.as_ref()?;
        let copied = path.len().min(buffer.len().saturating_sub(1));
        buffer[..copied].copy_from_slice(&path[..copied]);
        buffer[copied] = 0;
        Some(self.reported_length.unwrap_or(path.len()))
    }

    fn close_process(&mut self, _process: usize) {
        self.close_calls += 1;
    }
}

#[test]
fn source_resolution_returns_only_safe_file_name_and_display_stem() {
    for path in [
        r"C:\Program Files\Notes\notepad.exe",
        "C:/Program Files/OpenDesk/Desk Tool.exe",
    ] {
        let mut api = FakeProcessSourceApi::success(path);

        let source = resolve_clipboard_source(&mut api);

        let expected_process = path
            .replace('\\', "/")
            .rsplit('/')
            .next()
            .unwrap()
            .to_owned();
        let expected_application = expected_process.strip_suffix(".exe").unwrap().to_owned();
        assert_eq!(source.source_process, Some(expected_process));
        assert_eq!(source.source_application, Some(expected_application));
        assert_eq!(api.close_calls, 1);
    }
}

#[test]
fn no_owner_pid_failure_and_open_denial_are_harmless_and_do_not_close_invalid_handles() {
    let mut no_owner = FakeProcessSourceApi::success(r"C:\App\one.exe");
    no_owner.owner = None;
    assert_eq!(
        resolve_clipboard_source(&mut no_owner),
        ClipboardSourceMetadata::default()
    );
    assert_eq!(
        (
            no_owner.process_id_calls,
            no_owner.open_calls,
            no_owner.close_calls
        ),
        (0, 0, 0)
    );

    let mut no_pid = FakeProcessSourceApi::success(r"C:\App\two.exe");
    no_pid.process_id = None;
    assert_eq!(
        resolve_clipboard_source(&mut no_pid),
        ClipboardSourceMetadata::default()
    );
    assert_eq!(
        (no_pid.process_id_calls, no_pid.open_calls, no_pid.close_calls),
        (1, 0, 0)
    );

    let mut denied = FakeProcessSourceApi::success(r"C:\App\three.exe");
    denied.process = None;
    assert_eq!(
        resolve_clipboard_source(&mut denied),
        ClipboardSourceMetadata::default()
    );
    assert_eq!(
        (denied.open_calls, denied.query_calls, denied.close_calls),
        (1, 0, 0)
    );
}

#[test]
fn query_failure_empty_truncated_and_unsafe_paths_return_none_and_always_close_handle() {
    let mut cases = Vec::new();

    let mut query_failure = FakeProcessSourceApi::success(r"C:\App\failure.exe");
    query_failure.path = None;
    cases.push(query_failure);

    let mut empty = FakeProcessSourceApi::success("");
    empty.reported_length = Some(0);
    cases.push(empty);

    let mut truncated = FakeProcessSourceApi::success(r"C:\App\truncated.exe");
    truncated.reported_length = Some(PROCESS_PATH_CAPACITY);
    cases.push(truncated);

    let mut invalid_utf16 = FakeProcessSourceApi::success(r"C:\App\invalid.exe");
    invalid_utf16.path = Some(vec![0xD800]);
    cases.push(invalid_utf16);

    let control_name = format!("bad{}name.exe", '\u{1f}');
    cases.push(FakeProcessSourceApi::success(&format!(r"C:\App\{control_name}")));

    for mut api in cases {
        assert_eq!(
            resolve_clipboard_source(&mut api),
            ClipboardSourceMetadata::default()
        );
        assert_eq!(api.close_calls, 1);
    }
}

#[test]
fn source_name_limits_reject_values_that_storage_would_not_accept() {
    let long_process = format!("{}.exe", "p".repeat(MAX_SOURCE_PROCESS_CHARS));
    let mut process_api = FakeProcessSourceApi::success(&format!(r"C:\App\{long_process}"));
    assert_eq!(
        resolve_clipboard_source(&mut process_api),
        ClipboardSourceMetadata::default()
    );
    assert_eq!(process_api.close_calls, 1);

    let long_application = format!("{}.exe", "a".repeat(MAX_SOURCE_APPLICATION_CHARS + 1));
    let mut app_api = FakeProcessSourceApi::success(&format!(r"C:\App\{long_application}"));
    assert_eq!(
        resolve_clipboard_source(&mut app_api),
        ClipboardSourceMetadata::default()
    );
    assert_eq!(app_api.close_calls, 1);
}

fn dib_header(width: i32, height: i32, bits: u16, compression: u32, header_size: u32) -> Vec<u8> {
    let mut bytes = vec![0_u8; header_size as usize];
    bytes[0..4].copy_from_slice(&header_size.to_le_bytes());
    bytes[4..8].copy_from_slice(&width.to_le_bytes());
    bytes[8..12].copy_from_slice(&height.to_le_bytes());
    bytes[12..14].copy_from_slice(&1_u16.to_le_bytes());
    bytes[14..16].copy_from_slice(&bits.to_le_bytes());
    bytes[16..20].copy_from_slice(&compression.to_le_bytes());
    bytes
}

#[test]
fn dib_24_stride_and_bottom_up_rows_decode_to_top_down_rgba() {
    let mut dib = dib_header(2, 2, 24, BI_RGB, 40);
    dib.extend_from_slice(&[255, 0, 0, 255, 255, 255, 0, 0]);
    dib.extend_from_slice(&[0, 0, 255, 0, 255, 0, 0, 0]);
    let image = parse_dib(dib).unwrap();
    assert_eq!((image.width, image.height), (2, 2));
    assert_eq!(
        image.rgba,
        vec![255, 0, 0, 255, 0, 255, 0, 255, 0, 0, 255, 255, 255, 255, 255, 255]
    );
}

#[test]
fn dib_top_down_and_32_bitfields_masks_decode_correctly() {
    let mut top_down = dib_header(1, -2, 24, BI_RGB, 40);
    top_down.extend_from_slice(&[0, 0, 255, 0]);
    top_down.extend_from_slice(&[255, 0, 0, 0]);
    assert_eq!(
        parse_dib(top_down).unwrap().rgba,
        vec![255, 0, 0, 255, 0, 0, 255, 255]
    );

    let mut masked = dib_header(1, 1, 32, BI_BITFIELDS, 56);
    masked[40..44].copy_from_slice(&0x0000_00ff_u32.to_le_bytes());
    masked[44..48].copy_from_slice(&0x0000_ff00_u32.to_le_bytes());
    masked[48..52].copy_from_slice(&0x00ff_0000_u32.to_le_bytes());
    masked[52..56].copy_from_slice(&0xff00_0000_u32.to_le_bytes());
    masked.extend_from_slice(&0x8040_2010_u32.to_le_bytes());
    assert_eq!(parse_dib(masked).unwrap().rgba, vec![16, 32, 64, 128]);
}

#[test]
fn dib_rejects_short_headers_bad_masks_and_dimension_bombs_without_allocating() {
    assert!(parse_dib(vec![0; 39]).is_err());
    for (width, height) in [(16_385, 1), (1, 16_385), (16_384, 16_384)] {
        assert!(parse_dib(dib_header(width, height, 32, BI_RGB, 40)).is_err());
    }
    let mut bad_masks = dib_header(1, 1, 32, BI_BITFIELDS, 56);
    bad_masks[40..44].copy_from_slice(&0xff_u32.to_le_bytes());
    bad_masks[44..48].copy_from_slice(&0xff_u32.to_le_bytes());
    bad_masks[48..52].copy_from_slice(&0xff0000_u32.to_le_bytes());
    bad_masks.extend_from_slice(&0_u32.to_le_bytes());
    assert!(parse_dib(bad_masks).is_err());
    let mut truncated = dib_header(100, 100, 24, BI_RGB, 40);
    truncated.extend_from_slice(&[0; 8]);
    assert!(parse_dib(truncated).is_err());

    let mut forged_color_table = dib_header(1, 1, 24, BI_RGB, 40);
    forged_color_table[32..36].copy_from_slice(&1_u32.to_le_bytes());
    forged_color_table.extend_from_slice(&[10, 20, 30, 0, 1, 2, 3, 0]);
    assert!(parse_dib(forged_color_table).is_err());

    let mut forged_profile = dib_header(1, 1, 32, BI_RGB, 124);
    forged_profile[112..116].copy_from_slice(&124_u32.to_le_bytes());
    forged_profile[116..120].copy_from_slice(&4_u32.to_le_bytes());
    forged_profile.extend_from_slice(&[9, 9, 9, 9, 3, 2, 1, 0]);
    assert!(parse_dib(forged_profile).is_err());

    let mut linked_profile = dib_header(1, 1, 32, BI_RGB, 124);
    linked_profile[56..60].copy_from_slice(&0x4c49_4e4b_u32.to_le_bytes());
    linked_profile.extend_from_slice(&[3, 2, 1, 0]);
    assert!(parse_dib(linked_profile).is_err());
}

struct FakeImageApi {
    dib_v5: bool,
    dib: bool,
    bytes: Vec<u8>,
    opens: usize,
    closes: usize,
    unlocks: usize,
    requested: Vec<u32>,
}

impl ClipboardApi for FakeImageApi {
    fn calls(&self) -> vstd::seq::Seq<ApiCall> {
        unreachable!()
    }

    fn is_unicode_text_available(&mut self) -> bool {
        false
    }
    fn open(&mut self) -> bool {
        self.opens += 1;
        true
    }
    fn close(&mut self) {
        self.closes += 1;
    }
    fn get_unicode_text_data(&mut self) -> Option<usize> {
        None
    }
    fn global_size(&mut self, _handle: usize) -> usize {
        self.bytes.len()
    }
    fn global_lock_units(&mut self, _handle: usize, _count: usize) -> Option<Vec<u16>> {
        None
    }
    fn global_unlock(&mut self, _handle: usize) {
        self.unlocks += 1;
    }
    fn is_format_available(&mut self, format: u32) -> bool {
        (format == CF_DIBV5_FORMAT && self.dib_v5) || (format == CF_DIB_FORMAT && self.dib)
    }
    fn get_format_data(&mut self, format: u32) -> Option<usize> {
        self.requested.push(format);
        Some(9)
    }
    fn global_lock_bytes(&mut self, _handle: usize, count: usize) -> Option<Vec<u8>> {
        Some(self.bytes[..count].to_vec())
    }
    fn png_format(&mut self) -> u32 {
        0
    }
    fn bitmap_image(&mut self) -> Result<Option<ClipboardImage>, ()> {
        Ok(None)
    }
}

#[test]
fn dibv5_is_preferred_and_clipboard_open_lock_resources_are_balanced() {
    let mut bytes = dib_header(1, 1, 32, BI_RGB, 124);
    bytes.extend_from_slice(&[3, 2, 1, 0]);
    let mut api = FakeImageApi {
        dib_v5: true,
        dib: true,
        bytes,
        opens: 0,
        closes: 0,
        unlocks: 0,
        requested: Vec::new(),
    };
    let image = read_image_with_retries(&mut api, || {}).unwrap().unwrap();
    assert_eq!(image.rgba, vec![1, 2, 3, 255]);
    assert_eq!(api.requested, vec![CF_DIBV5_FORMAT]);
    assert_eq!((api.opens, api.closes, api.unlocks), (1, 1, 1));
}

#[test]
fn invalid_dib_returns_none_so_same_snapshot_can_fallback_to_unicode_text() {
    let mut api = FakeImageApi {
        dib_v5: false,
        dib: true,
        bytes: vec![0; 40],
        opens: 0,
        closes: 0,
        unlocks: 0,
        requested: Vec::new(),
    };
    assert_eq!(read_image_with_retries(&mut api, || {}), Ok(None));
    assert_eq!((api.opens, api.closes, api.unlocks), (1, 1, 1));
}

struct PngAndBitmapApi {
    png: Vec<u8>,
    bitmap: Option<ClipboardImage>,
    png_available: bool,
    dib: Option<Vec<u8>>,
    active: u32,
    requested: Vec<u32>,
}

impl ClipboardApi for PngAndBitmapApi {
    fn calls(&self) -> vstd::seq::Seq<ApiCall> {
        unreachable!()
    }

    fn is_unicode_text_available(&mut self) -> bool {
        false
    }
    fn open(&mut self) -> bool {
        true
    }
    fn close(&mut self) {}
    fn get_unicode_text_data(&mut self) -> Option<usize> {
        None
    }
    fn global_size(&mut self, _handle: usize) -> usize {
        if self.active == 0xc001 {
            self.png.len()
        } else {
            self.dib.as_ref().map_or(0, Vec::len)
        }
    }
    fn global_lock_units(&mut self, _handle: usize, _count: usize) -> Option<Vec<u16>> {
        None
    }
    fn global_unlock(&mut self, _handle: usize) {}
    fn png_format(&mut self) -> u32 {
        0xc001
    }
    fn is_format_available(&mut self, format: u32) -> bool {
        (format == 0xc001 && self.png_available)
            || (format == CF_DIB_FORMAT && self.dib.is_some())
            || (format == CF_BITMAP_FORMAT && self.bitmap.is_some())
    }
    fn get_format_data(&mut self, format: u32) -> Option<usize> {
        self.active = format;
        self.requested.push(format);
        Some(1)
    }
    fn global_lock_bytes(&mut self, _handle: usize, count: usize) -> Option<Vec<u8>> {
        if self.active == 0xc001 {
            Some(self.png[..count].to_vec())
        } else {
            self.dib.as_ref().map(|bytes| bytes[..count].to_vec())
        }
    }
    fn bitmap_image(&mut self) -> Result<Option<ClipboardImage>, ()> {
        Ok(self.bitmap.clone())
    }
}

#[test]
fn cf_bitmap_is_used_after_absent_higher_priority_formats() {
    let expected = ClipboardImage {
        width: 1,
        height: 1,
        rgba: vec![9, 8, 7, 255],
    };
    let mut api = PngAndBitmapApi {
        png: Vec::new(),
        bitmap: Some(expected.clone()),
        png_available: false,
        dib: None,
        active: 0,
        requested: Vec::new(),
    };
    assert_eq!(read_image_with_retries(&mut api, || {}).unwrap(), Some(expected));
}

fn one_pixel_png(rgba: [u8; 4]) -> Vec<u8> {
    let mut bytes = Vec::new();
    {
        let mut encoder = png::Encoder::new(&mut bytes, 1, 1);
        encoder.set_color(png::ColorType::Rgba);
        encoder.set_depth(png::BitDepth::Eight);
        let mut writer = encoder.write_header().unwrap();
        writer.write_image_data(&rgba).unwrap();
    }
    bytes
}

#[test]
fn registered_png_decoder_preserves_alpha() {
    let image = parse_png(&one_pixel_png([7, 8, 9, 10])).unwrap();
    assert_eq!((image.width, image.height), (1, 1));
    assert_eq!(image.rgba, vec![7, 8, 9, 10]);
}

#[test]
fn registered_png_precedes_dib_and_bitmap_and_bad_png_falls_back() {
    let mut dib = dib_header(1, 1, 32, BI_RGB, 40);
    dib.extend_from_slice(&[30, 20, 10, 0]);
    let bitmap = ClipboardImage {
        width: 1,
        height: 1,
        rgba: vec![90, 91, 92, 255],
    };
    let mut preferred = PngAndBitmapApi {
        png: one_pixel_png([1, 2, 3, 4]),
        bitmap: Some(bitmap.clone()),
        png_available: true,
        dib: Some(dib.clone()),
        active: 0,
        requested: Vec::new(),
    };
    assert_eq!(
        read_image_with_retries(&mut preferred, || {})
            .unwrap()
            .unwrap()
            .rgba,
        vec![1, 2, 3, 4]
    );
    assert_eq!(preferred.requested, vec![0xc001]);

    let mut fallback = PngAndBitmapApi {
        png: vec![0; 40],
        bitmap: Some(bitmap),
        png_available: true,
        dib: Some(dib),
        active: 0,
        requested: Vec::new(),
    };
    assert_eq!(
        read_image_with_retries(&mut fallback, || {})
            .unwrap()
            .unwrap()
            .rgba,
        vec![10, 20, 30, 255]
    );
    assert_eq!(fallback.requested, vec![0xc001, CF_DIB_FORMAT]);
}

#[test]
fn grayscale_and_rgb_png_frames_expand_to_opaque_rgba() {
    let gray = png_frame_to_rgba(2, 1, PngColor::Grayscale, vec![7, 200]).unwrap();
    assert_eq!(gray.rgba, vec![7, 7, 7, 255, 200, 200, 200, 255]);
    let rgb = png_frame_to_rgba(1, 1, PngColor::Rgb, vec![1, 2, 3]).unwrap();
    assert_eq!(rgb.rgba, vec![1, 2, 3, 255]);
    let gray_alpha = png_frame_to_rgba(1, 1, PngColor::GrayscaleAlpha, vec![9, 4]).unwrap();
    assert_eq!(gray_alpha.rgba, vec![9, 9, 9, 4]);
    assert!(png_frame_to_rgba(1, 1, PngColor::Indexed, vec![0]).is_err());
    assert!(png_frame_to_rgba(2, 1, PngColor::Rgb, vec![1, 2, 3]).is_err());
}

struct PerFormatImageApi {
    dib_v5: Vec<u8>,
    dib: Vec<u8>,
    active_format: Option<u32>,
    requested: Vec<u32>,
    opens: usize,
    closes: usize,
    unlocks: usize,
}

impl ClipboardApi for PerFormatImageApi {
    fn calls(&self) -> vstd::seq::Seq<ApiCall> {
        unreachable!()
    }

    fn is_unicode_text_available(&mut self) -> bool {
        false
    }
    fn open(&mut self) -> bool {
        self.opens += 1;
        true
    }
    fn close(&mut self) {
        self.closes += 1;
    }
    fn get_unicode_text_data(&mut self) -> Option<usize> {
        None
    }
    fn global_size(&mut self, _handle: usize) -> usize {
        match self.active_format {
            Some(CF_DIBV5_FORMAT) => self.dib_v5.len(),
            Some(CF_DIB_FORMAT) => self.dib.len(),
            _ => 0,
        }
    }
    fn global_lock_units(&mut self, _handle: usize, _count: usize) -> Option<Vec<u16>> {
        None
    }
    fn global_unlock(&mut self, _handle: usize) {
        self.unlocks += 1;
    }
    fn is_format_available(&mut self, format: u32) -> bool {
        matches!(format, CF_DIBV5_FORMAT | CF_DIB_FORMAT)
    }
    fn get_format_data(&mut self, format: u32) -> Option<usize> {
        self.active_format = Some(format);
        self.requested.push(format);
        Some(1)
    }
    fn global_lock_bytes(&mut self, _handle: usize, count: usize) -> Option<Vec<u8>> {
        match self.active_format {
            Some(CF_DIBV5_FORMAT) => Some(self.dib_v5[..count].to_vec()),
            Some(CF_DIB_FORMAT) => Some(self.dib[..count].to_vec()),
            _ => None,
        }
    }
    fn png_format(&mut self) -> u32 {
        0
    }
    fn bitmap_image(&mut self) -> Result<Option<ClipboardImage>, ()> {
        Ok(None)
    }
}

#[test]
fn advertised_invalid_dibv5_falls_back_to_valid_dib_with_balanced_resources() {
    let invalid_v5 = vec![0_u8; 40];
    let mut valid_dib = dib_header(1, 1, 24, BI_RGB, 40);
    valid_dib.extend_from_slice(&[3, 2, 1, 0]);
    let mut api = PerFormatImageApi {
        dib_v5: invalid_v5,
        dib: valid_dib,
        active_format: None,
        requested: Vec::new(),
        opens: 0,
        closes: 0,
        unlocks: 0,
    };
    let image = read_image_with_retries(&mut api, || {}).unwrap().unwrap();
    assert_eq!(image.rgba, vec![1, 2, 3, 255]);
    assert_eq!(api.requested, vec![CF_DIBV5_FORMAT, CF_DIB_FORMAT]);
    assert_eq!((api.opens, api.closes, api.unlocks), (2, 2, 2));
}

struct FakeReader {
    sequences: VecDeque<u32>,
    values: VecDeque<Result<Option<String>, ()>>,
    source: ClipboardSourceMetadata,
    reads: usize,
    suppressed: VecDeque<u32>,
}

impl ClipboardReader for FakeReader {
    fn reads(&self) -> vstd::seq::Seq<ReaderCall> {
        unreachable!()
    }

    fn sequence_number(&mut self) -> u32 {
        self.sequences.pop_front().unwrap()
    }

    fn consume_suppressed_sequence(&mut self, sequence: u32) -> bool {
        let Some(index) = self
            .suppressed
            .iter()
            .position(|candidate| *candidate == sequence)
        else {
            return false;
        };
        self.suppressed.remove(index);
        true
    }

    fn read_image(&mut self) -> Result<Option<ClipboardImage>, ()> {
        Ok(None)
    }

    fn read_files(&mut self) -> Result<Option<ClipboardFiles>, ()> {
        Ok(None)
    }

    fn read_text(&mut self) -> Result<Option<String>, ()> {
        self.reads += 1;
        self.values.pop_front().unwrap()
    }

    fn source_metadata(&mut self) -> ClipboardSourceMetadata {
        std::mem::take(&mut self.source)
    }
}

struct FakeRecordTarget {
    outcomes: Mutex<VecDeque<ListenerRecordOutcome>>,
    calls: AtomicUsize,
}

impl ClipboardRecordTarget for FakeRecordTarget {
    fn recorded(&self) -> vstd::seq::Seq<RecordCall> {
        unreachable!()
    }

    fn record_listener_text(
        &mut self,
        _text: String,
        _captured_at_ms: u64,
        _source: ClipboardSourceMetadata,
    ) -> ListenerRecordOutcome {
        self.calls.fetch_add(1, Ordering::SeqCst);
        self.outcomes.lock().unwrap().pop_front().unwrap()
    }
    fn record_listener_image(
        &mut self,
        _image: ClipboardImage,
        _captured_at_ms: u64,
        _source: ClipboardSourceMetadata,
    ) -> ListenerRecordOutcome {
        ListenerRecordOutcome::PermanentReject
    }

    fn record_listener_files(
        &mut self,
        _files: ClipboardFiles,
        _captured_at_ms: u64,
        _source: ClipboardSourceMetadata,
    ) -> ListenerRecordOutcome {
        ListenerRecordOutcome::PermanentReject
    }

}

struct ImageReader {
    sequences: VecDeque<u32>,
    image: Result<Option<ClipboardImage>, ()>,
    text: Option<String>,
    text_reads: usize,
}

impl ClipboardReader for ImageReader {
    fn reads(&self) -> vstd::seq::Seq<ReaderCall> {
        unreachable!()
    }

    fn sequence_number(&mut self) -> u32 {
        self.sequences.pop_front().unwrap()
    }

    fn consume_suppressed_sequence(&mut self, _sequence: u32) -> bool {
        false
    }

    fn read_files(&mut self) -> Result<Option<ClipboardFiles>, ()> {
        Ok(None)
    }

    fn source_metadata(&mut self) -> ClipboardSourceMetadata {
        ClipboardSourceMetadata::default()
    }

    fn read_image(&mut self) -> Result<Option<ClipboardImage>, ()> {
        self.image.clone()
    }
    fn read_text(&mut self) -> Result<Option<String>, ()> {
        self.text_reads += 1;
        Ok(self.text.clone())
    }
}

struct ContentTarget {
    image_calls: AtomicUsize,
    text_calls: AtomicUsize,
    image_outcome: ListenerRecordOutcome,
}

impl ClipboardRecordTarget for ContentTarget {
    fn recorded(&self) -> vstd::seq::Seq<RecordCall> {
        unreachable!()
    }

    fn record_listener_text(
        &mut self,
        _text: String,
        _captured_at_ms: u64,
        _source: ClipboardSourceMetadata,
    ) -> ListenerRecordOutcome {
        self.text_calls.fetch_add(1, Ordering::SeqCst);
        ListenerRecordOutcome::Recorded { retained: true }
    }
    fn record_listener_image(
        &mut self,
        _image: ClipboardImage,
        _captured_at_ms: u64,
        _source: ClipboardSourceMetadata,
    ) -> ListenerRecordOutcome {
        self.image_calls.fetch_add(1, Ordering::SeqCst);
        self.image_outcome
    }
    fn record_listener_files(
        &mut self,
        _files: ClipboardFiles,
        _captured_at_ms: u64,
        _source: ClipboardSourceMetadata,
    ) -> ListenerRecordOutcome {
        ListenerRecordOutcome::PermanentReject
    }

}

struct FileReader {
    sequences: VecDeque<u32>,
    files: Option<ClipboardFiles>,
    image: Option<ClipboardImage>,
    text: Option<String>,
}

impl ClipboardReader for FileReader {
    fn reads(&self) -> vstd::seq::Seq<ReaderCall> {
        unreachable!()
    }

    fn sequence_number(&mut self) -> u32 {
        self.sequences.pop_front().unwrap()
    }

    fn consume_suppressed_sequence(&mut self, _sequence: u32) -> bool {
        false
    }

    fn source_metadata(&mut self) -> ClipboardSourceMetadata {
        ClipboardSourceMetadata::default()
    }

    fn read_files(&mut self) -> Result<Option<ClipboardFiles>, ()> {
        Ok(self.files.clone())
    }

    fn read_image(&mut self) -> Result<Option<ClipboardImage>, ()> {
        Ok(self.image.clone())
    }

    fn read_text(&mut self) -> Result<Option<String>, ()> {
        Ok(self.text.clone())
    }
}

struct FileTarget {
    files: AtomicUsize,
    images: AtomicUsize,
    texts: AtomicUsize,
    file_outcome: ListenerRecordOutcome,
}

impl ClipboardRecordTarget for FileTarget {
    fn recorded(&self) -> vstd::seq::Seq<RecordCall> {
        unreachable!()
    }

    fn record_listener_text(
        &mut self,
        _text: String,
        _captured_at_ms: u64,
        _source: ClipboardSourceMetadata,
    ) -> ListenerRecordOutcome {
        self.texts.fetch_add(1, Ordering::SeqCst);
        ListenerRecordOutcome::Recorded { retained: true }
    }

    fn record_listener_image(
        &mut self,
        _image: ClipboardImage,
        _captured_at_ms: u64,
        _source: ClipboardSourceMetadata,
    ) -> ListenerRecordOutcome {
        self.images.fetch_add(1, Ordering::SeqCst);
        ListenerRecordOutcome::Recorded { retained: true }
    }

    fn record_listener_files(
        &mut self,
        _files: ClipboardFiles,
        _captured_at_ms: u64,
        _source: ClipboardSourceMetadata,
    ) -> ListenerRecordOutcome {
        self.files.fetch_add(1, Ordering::SeqCst);
        self.file_outcome
    }
}

#[derive(Default)]
struct CountingSink {
    count: usize,
}

impl HistoryEventSink for CountingSink {
    fn notified(&self) -> vstd::prelude::nat {
        unreachable!()
    }

    fn notify(&mut self) {
        self.count += 1;
    }
}

#[test]
fn duplicate_nonzero_sequence_is_skipped_but_zero_sequence_is_never_deduplicated() {
    assert!(is_duplicate_sequence(Some(7), 7));
    assert!(!is_duplicate_sequence(Some(7), 8));
    assert!(!is_duplicate_sequence(Some(0), 0));
    assert!(!is_duplicate_sequence(None, 0));
}

#[test]
fn image_has_priority_and_absent_or_invalid_image_can_fallback_to_same_sequence_text() {
    let mut target = ContentTarget {
        image_calls: AtomicUsize::new(0),
        text_calls: AtomicUsize::new(0),
        image_outcome: ListenerRecordOutcome::Recorded { retained: true },
    };
    let mut sink = CountingSink::default();
    let mut image_reader = ImageReader {
        sequences: VecDeque::from([1, 1]),
        image: Ok(Some(ClipboardImage {
            width: 1,
            height: 1,
            rgba: vec![1, 2, 3, 255],
        })),
        text: Some("also-text".to_owned()),
        text_reads: 0,
    };
    process_clipboard_notification(&mut image_reader, &mut None, &mut target, &mut sink, 1);
    assert_eq!(target.image_calls.load(Ordering::SeqCst), 1);
    assert_eq!(target.text_calls.load(Ordering::SeqCst), 0);
    assert_eq!(image_reader.text_reads, 1);

    let mut fallback_reader = ImageReader {
        sequences: VecDeque::from([2, 2]),
        image: Ok(None),
        text: Some("fallback".to_owned()),
        text_reads: 0,
    };
    process_clipboard_notification(&mut fallback_reader, &mut None, &mut target, &mut sink, 2);
    assert_eq!(target.text_calls.load(Ordering::SeqCst), 1);
    assert_eq!(fallback_reader.text_reads, 1);

    let mut rejecting_target = ContentTarget {
        image_calls: AtomicUsize::new(0),
        text_calls: AtomicUsize::new(0),
        image_outcome: ListenerRecordOutcome::PermanentReject,
    };
    let mut permanent_reader = ImageReader {
        sequences: VecDeque::from([3, 3]),
        image: Ok(Some(ClipboardImage {
            width: 1,
            height: 1,
            rgba: vec![1, 2, 3, 255],
        })),
        text: Some("permanent-image-fallback".to_owned()),
        text_reads: 0,
    };
    let mut sequence = None;
    process_clipboard_notification(
        &mut permanent_reader,
        &mut sequence,
        &mut rejecting_target,
        &mut sink,
        3,
    );
    assert_eq!(rejecting_target.image_calls.load(Ordering::SeqCst), 1);
    assert_eq!(rejecting_target.text_calls.load(Ordering::SeqCst), 1);
    assert_eq!(sequence, Some(3));

    let mut retrying_target = ContentTarget {
        image_calls: AtomicUsize::new(0),
        text_calls: AtomicUsize::new(0),
        image_outcome: ListenerRecordOutcome::RetryableFailure,
    };
    let mut retry_reader = ImageReader {
        sequences: VecDeque::from([4, 4]),
        image: Ok(Some(ClipboardImage {
            width: 1,
            height: 1,
            rgba: vec![1, 2, 3, 255],
        })),
        text: Some("must-not-substitute".to_owned()),
        text_reads: 0,
    };
    let mut sequence = None;
    process_clipboard_notification(&mut retry_reader, &mut sequence, &mut retrying_target, &mut sink, 4);
    assert_eq!(retrying_target.text_calls.load(Ordering::SeqCst), 0);
    assert_eq!(sequence, None);
}

#[test]
fn file_drop_has_priority_over_bitmap_and_text_with_permanent_reject_fallback() {
    let mut sink = CountingSink::default();
    let files = ClipboardFiles {
        paths: vec![r"C:\preview.png".encode_utf16().collect()],
    };
    let image = ClipboardImage {
        width: 1,
        height: 1,
        rgba: vec![1, 2, 3, 255],
    };
    let mut target = FileTarget {
        files: AtomicUsize::new(0),
        images: AtomicUsize::new(0),
        texts: AtomicUsize::new(0),
        file_outcome: ListenerRecordOutcome::Recorded { retained: true },
    };
    let mut reader = FileReader {
        sequences: VecDeque::from([11, 11]),
        files: Some(files.clone()),
        image: Some(image.clone()),
        text: Some("bitmap fallback".to_owned()),
    };
    let mut sequence = None;
    process_clipboard_notification(&mut reader, &mut sequence, &mut target, &mut sink, 1);
    assert_eq!(target.files.load(Ordering::SeqCst), 1);
    assert_eq!(target.images.load(Ordering::SeqCst), 0);
    assert_eq!(target.texts.load(Ordering::SeqCst), 0);
    assert_eq!(sequence, Some(11));

    let mut fallback = FileTarget {
        files: AtomicUsize::new(0),
        images: AtomicUsize::new(0),
        texts: AtomicUsize::new(0),
        file_outcome: ListenerRecordOutcome::PermanentReject,
    };
    let mut reader = FileReader {
        sequences: VecDeque::from([12, 12]),
        files: Some(files),
        image: Some(image),
        text: Some("text fallback".to_owned()),
    };
    process_clipboard_notification(&mut reader, &mut None, &mut fallback, &mut sink, 1);
    assert_eq!(fallback.files.load(Ordering::SeqCst), 1);
    assert_eq!(fallback.images.load(Ordering::SeqCst), 1);
    assert_eq!(fallback.texts.load(Ordering::SeqCst), 0);
}

#[test]
fn utf16_adapter_requires_termination_and_rejects_empty_or_invalid_text() {
    assert_eq!(
        decode_null_terminated_utf16(&['你' as u16, '好' as u16, 0, 99]),
        Ok(Some("你好".to_owned()))
    );
    assert_eq!(decode_null_terminated_utf16(&[0, 99]), Ok(None));
    assert_eq!(decode_null_terminated_utf16(&['a' as u16]), Err(()));
    assert_eq!(decode_null_terminated_utf16(&[0xD800, 0]), Err(()));
}

#[test]
fn sequence_change_during_text_and_source_read_discards_mismatched_snapshot() {
    let mut target = FakeRecordTarget {
        outcomes: Mutex::new(VecDeque::new()),
        calls: AtomicUsize::new(0),
    };
    let mut sink = CountingSink::default();
    let mut reader = FakeReader {
        sequences: VecDeque::from([100, 101]),
        values: VecDeque::from([Ok(Some("stale".to_owned()))]),
        source: ClipboardSourceMetadata {
            source_application: Some("OldOwner".to_owned()),
            source_process: Some("old.exe".to_owned()),
            ..ClipboardSourceMetadata::default()
        },
        reads: 0,
        suppressed: VecDeque::new(),
    };
    let mut last_sequence = None;

    process_clipboard_notification(&mut reader, &mut last_sequence, &mut target, &mut sink, 1);

    assert_eq!(target.calls.load(Ordering::SeqCst), 0);
    assert_eq!(last_sequence, None);
    assert_eq!(sink.count, 0);
}

#[test]
fn retryable_storage_failure_does_not_commit_sequence_and_same_sequence_can_succeed() {
    let mut target = FakeRecordTarget {
        outcomes: Mutex::new(VecDeque::from([
            ListenerRecordOutcome::RetryableFailure,
            ListenerRecordOutcome::Recorded { retained: true },
        ])),
        calls: AtomicUsize::new(0),
    };
    let mut sink = CountingSink::default();
    let mut reader = FakeReader {
        sequences: VecDeque::from([44, 44, 44, 44]),
        values: VecDeque::from([Ok(Some("retry".to_owned())), Ok(Some("retry".to_owned()))]),
        source: ClipboardSourceMetadata::default(),
        reads: 0,
        suppressed: VecDeque::new(),
    };
    let mut last_sequence = None;

    process_clipboard_notification(&mut reader, &mut last_sequence, &mut target, &mut sink, 1);
    assert_eq!(last_sequence, None);
    process_clipboard_notification(&mut reader, &mut last_sequence, &mut target, &mut sink, 2);

    assert_eq!(last_sequence, Some(44));
    assert_eq!(target.calls.load(Ordering::SeqCst), 2);
    assert_eq!(sink.count, 1);
}

#[test]
fn permanent_record_rejection_commits_sequence_without_emitting() {
    let mut target = FakeRecordTarget {
        outcomes: Mutex::new(VecDeque::from([ListenerRecordOutcome::PermanentReject])),
        calls: AtomicUsize::new(0),
    };
    let mut sink = CountingSink::default();
    let mut reader = FakeReader {
        sequences: VecDeque::from([9, 9]),
        values: VecDeque::from([Ok(Some("too-large-or-invalid".to_owned()))]),
        source: ClipboardSourceMetadata::default(),
        reads: 0,
        suppressed: VecDeque::new(),
    };
    let mut last_sequence = None;

    process_clipboard_notification(&mut reader, &mut last_sequence, &mut target, &mut sink, 1);

    assert_eq!(last_sequence, Some(9));
    assert_eq!(sink.count, 0);
}

#[test]
fn queued_internal_sequences_are_consumed_without_read_record_or_event() {
    let mut target = FakeRecordTarget {
        outcomes: Mutex::new(VecDeque::new()),
        calls: AtomicUsize::new(0),
    };
    let mut sink = CountingSink::default();
    let mut reader = FakeReader {
        sequences: VecDeque::from([70, 71]),
        values: VecDeque::new(),
        source: ClipboardSourceMetadata::default(),
        reads: 0,
        suppressed: VecDeque::from([70, 71]),
    };
    let mut last_sequence = None;

    process_clipboard_notification(&mut reader, &mut last_sequence, &mut target, &mut sink, 1);
    process_clipboard_notification(&mut reader, &mut last_sequence, &mut target, &mut sink, 2);

    assert_eq!(last_sequence, Some(71));
    assert_eq!(reader.reads, 0);
    assert_eq!(target.calls.load(Ordering::SeqCst), 0);
    assert!(reader.suppressed.is_empty());
    assert_eq!(sink.count, 0);
}

#[test]
fn suppression_queue_is_bounded_and_keeps_the_newest_sequences() {
    let mut manager = ClipboardListenerManager::new();
    for sequence in 1..=(MAX_SUPPRESSED_SEQUENCES as u32 + 5) {
        manager.suppress_sequence(sequence);
    }
    let sequences = manager.suppressed_sequences();
    assert_eq!(sequences.len(), MAX_SUPPRESSED_SEQUENCES);
    assert_eq!(sequences.first().copied(), Some(6));
    assert_eq!(
        sequences.last().copied(),
        Some(MAX_SUPPRESSED_SEQUENCES as u32 + 5)
    );
}

#[test]
fn manager_defaults_to_stopped_and_stop_is_idempotent_without_starting_os_listener() {
    let mut manager = ClipboardListenerManager::new();
    assert_eq!(manager.status(), ClipboardListenerStatus::Stopped);
    manager.stop().unwrap();
    manager.stop().unwrap();
    assert_eq!(manager.status(), ClipboardListenerStatus::Stopped);
}

#[test]
fn finished_message_thread_skips_stale_window_post() {
    assert!(!should_post_to_message_window(true));
    assert!(should_post_to_message_window(false));
}

#[test]
fn stable_sequence_rejects_a_changed_clipboard_and_trusts_any_known_sequence() {
    assert_eq!(stable_sequence(5, 5), Some(5));
    assert_eq!(stable_sequence(5, 6), None);
    assert_eq!(stable_sequence(0, 6), Some(6));
    assert_eq!(stable_sequence(5, 0), Some(5));
    assert_eq!(stable_sequence(0, 0), Some(0));
}

#[test]
fn suppressing_zero_or_a_known_sequence_changes_nothing_and_owned_clipboard_is_always_internal() {
    let mut manager = ClipboardListenerManager::new();
    manager.suppress_sequence(0);
    manager.suppress_sequence(3);
    manager.suppress_sequence(3);
    assert_eq!(manager.suppressed_sequences(), vec![3]);
    assert!(manager.consume_suppressed_sequence(9, true));
    assert_eq!(manager.suppressed_sequences(), vec![3]);
    assert!(!manager.consume_suppressed_sequence(9, false));
    assert!(manager.consume_suppressed_sequence(3, false));
    assert!(manager.suppressed_sequences().is_empty());
    assert!(!manager.consume_suppressed_sequence(3, false));
}

#[test]
fn own_write_is_recognised_exactly_once() {
    let mut manager = ClipboardListenerManager::new();
    manager.suppress_sequence(7);
    manager.suppress_sequence(7);
    manager.suppress_sequence(0);
    assert_eq!(manager.suppressed_sequences(), vec![7]);
    assert!(manager.consume_suppressed_sequence(7, false));
    assert!(!manager.consume_suppressed_sequence(7, false));
    assert!(manager.consume_suppressed_sequence(7, true));
}

#[test]
fn bitmap_dimensions_accept_only_positive_sizes_within_limits() {
    assert_eq!(bitmap_dimensions(2, 3), Some((2, 3)));
    assert_eq!(bitmap_dimensions(16_384, 1), Some((16_384, 1)));
    assert_eq!(bitmap_dimensions(0, 5), None);
    assert_eq!(bitmap_dimensions(5, -1), None);
    assert_eq!(bitmap_dimensions(16_385, 1), None);
    assert_eq!(bitmap_dimensions(8_000, 8_000), None);
}

#[test]
fn bitmap_pixels_swap_red_and_blue_and_fill_missing_alpha() {
    let rgba = bitmap_bgra_to_rgba(vec![1, 2, 3, 0, 10, 20, 30, 40]);
    assert_eq!(rgba, vec![3, 2, 1, 255, 30, 20, 10, 40]);
}

#[test]
fn bitmap_image_needs_every_row() {
    let image = bitmap_image_from_bgra(2, 1, vec![1, 2, 3, 0, 10, 20, 30, 40]).unwrap();
    assert_eq!(
        image,
        ClipboardImage { width: 2, height: 1, rgba: vec![3, 2, 1, 255, 30, 20, 10, 40] }
    );
    assert_eq!(bitmap_image_from_bgra(2, 2, vec![0; 8]), None);
}

#[test]
fn notification_falls_back_from_rejected_files_to_the_image_and_settles() {
    let mut sink = CountingSink::default();
    let files = ClipboardFiles { paths: vec!["C:\\a.txt".encode_utf16().collect()] };
    let image = ClipboardImage { width: 1, height: 1, rgba: vec![1, 2, 3, 255] };
    let mut fallback = FileTarget {
        files: AtomicUsize::new(0),
        images: AtomicUsize::new(0),
        texts: AtomicUsize::new(0),
        file_outcome: ListenerRecordOutcome::PermanentReject,
    };
    let mut reader = FileReader {
        sequences: VecDeque::from([12, 12]),
        files: Some(files),
        image: Some(image),
        text: Some("text fallback".to_owned()),
    };
    let mut last = None;
    process_clipboard_notification(&mut reader, &mut last, &mut fallback, &mut sink, 1);
    assert_eq!(fallback.files.load(Ordering::SeqCst), 1);
    assert_eq!(fallback.images.load(Ordering::SeqCst), 1);
    assert_eq!(fallback.texts.load(Ordering::SeqCst), 0);
    assert_eq!(last, Some(12));
    assert_eq!(sink.count, 1);
}

#[test]
fn encoded_png_decodes_back_to_the_same_pixels() {
    let rgba = vec![10, 20, 30, 40, 50, 60, 70, 255];
    let encoded = opendesktools::png_image::encode_png(2, 1, &rgba).unwrap();
    assert_ne!(encoded, rgba);
    let decoded = parse_png(&encoded).unwrap();
    assert_eq!(decoded, ClipboardImage { width: 2, height: 1, rgba });
    assert_eq!(
        opendesktools::png_image::encode_png(0, 1, &[]),
        Err(opendesktools::history::ImageError::Encode)
    );
    assert_eq!(
        opendesktools::png_image::encode_png(1, 1, &[1, 2, 3]),
        Err(opendesktools::history::ImageError::Encode)
    );
}

struct FileListApi {
    available: bool,
    open_failures: usize,
    block: Vec<u8>,
    opens: usize,
    closes: usize,
}

impl ClipboardApi for FileListApi {
    fn calls(&self) -> vstd::seq::Seq<ApiCall> {
        unreachable!()
    }

    fn is_unicode_text_available(&mut self) -> bool {
        false
    }

    fn open(&mut self) -> bool {
        self.opens += 1;
        self.opens > self.open_failures
    }

    fn close(&mut self) {
        self.closes += 1;
    }

    fn get_unicode_text_data(&mut self) -> Option<usize> {
        None
    }

    fn global_size(&mut self, _handle: usize) -> usize {
        self.block.len()
    }

    fn global_lock_units(&mut self, _handle: usize, _count: usize) -> Option<Vec<u16>> {
        None
    }

    fn global_lock_bytes(&mut self, _handle: usize, count: usize) -> Option<Vec<u8>> {
        Some(self.block[..count].to_vec())
    }

    fn global_unlock(&mut self, _handle: usize) {}

    fn is_format_available(&mut self, format: u32) -> bool {
        self.available && format == 15
    }

    fn get_format_data(&mut self, format: u32) -> Option<usize> {
        (format == 15).then_some(7)
    }

    fn png_format(&mut self) -> u32 {
        0
    }

    fn bitmap_image(&mut self) -> Result<Option<ClipboardImage>, ()> {
        Ok(None)
    }
}

#[test]
fn file_list_read_retries_a_busy_clipboard_and_parses_the_block() {
    let mut api = FileListApi {
        available: true,
        open_failures: 2,
        block: hdrop(&[r"C:\one.txt", r"D:\two.png"]),
        opens: 0,
        closes: 0,
    };
    let mut waits = 0;
    let files = read_files_with_retries(&mut api, || waits += 1).unwrap().unwrap();
    assert_eq!(files.paths.len(), 2);
    assert_eq!(files.paths[0], r"C:\one.txt".encode_utf16().collect::<Vec<_>>());
    assert_eq!((api.opens, api.closes, waits), (3, 1, 2));

    let mut absent = FileListApi { available: false, open_failures: 0, block: Vec::new(), opens: 0, closes: 0 };
    assert_eq!(read_files_with_retries(&mut absent, || {}), Ok(None));
    assert_eq!(absent.opens, 0);

    let mut busy = FileListApi { available: true, open_failures: 10, block: Vec::new(), opens: 0, closes: 0 };
    assert_eq!(read_files_with_retries(&mut busy, || {}), Err(()));
    assert_eq!((busy.opens, busy.closes), (OPEN_ATTEMPTS, 0));
}

struct NoFiles;

impl opendesktools::service::ClipboardFiles for NoFiles {
    fn calls(&self) -> vstd::seq::Seq<opendesktools::service::FileCall> {
        unreachable!()
    }

    fn store_rgba(
        &mut self,
        _width: u32,
        _height: u32,
        _rgba: &[u8],
    ) -> Result<opendesktools::service::StoredImage, opendesktools::history::ImageError> {
        Err(opendesktools::history::ImageError::Io)
    }

    fn read_image(&mut self, _reference: &str) -> Result<Vec<u8>, opendesktools::history::ImageError> {
        Err(opendesktools::history::ImageError::Missing)
    }

    fn decode_image(&mut self, _reference: &str) -> Result<ClipboardImage, opendesktools::history::ImageError> {
        Err(opendesktools::history::ImageError::Missing)
    }

    fn remove_image(&mut self, _reference: &str) {}

    fn read_source_icon(&mut self, _reference: &str) -> Option<Vec<u8>> {
        None
    }

    fn regular_file_size(&mut self, _path: &[u16]) -> Option<u64> {
        None
    }

    fn cache_source_icon(&mut self, _executable: &str) -> Option<String> {
        None
    }

    fn reconcile_images(&mut self, _references: &[String]) -> Vec<String> {
        Vec::new()
    }

    fn reconcile_source_icons(&mut self, _references: &[String]) -> Vec<String> {
        Vec::new()
    }

    fn remove_source_icons(&mut self, _references: &[String]) {}
}

struct ServiceTarget {
    service: opendesktools::service::ClipboardService<NoFiles>,
}

impl ServiceTarget {
    fn new() -> Self {
        ServiceTarget {
            service: opendesktools::service::ClipboardService::initialize(
                opendesktools::settings_store::SettingsStore::new(),
                NoFiles,
            ),
        }
    }

    fn newest_item(&mut self) -> opendesktools::history::ClipboardHistoryItem {
        self.service
            .query_history(opendesktools::service::ClipboardHistoryQuery {
                favorites_only: false,
                search: None,
                limit: 100,
            })
            .unwrap()
            .items
            .pop()
            .unwrap()
    }
}

impl ClipboardRecordTarget for ServiceTarget {
    fn recorded(&self) -> vstd::seq::Seq<RecordCall> {
        unreachable!()
    }

    fn record_listener_text(
        &mut self,
        text: String,
        captured_at_ms: u64,
        source: ClipboardSourceMetadata,
    ) -> ListenerRecordOutcome {
        opendesktools::listener::record_listener_text(&mut self.service, text, captured_at_ms, source)
    }

    fn record_listener_image(
        &mut self,
        image: ClipboardImage,
        captured_at_ms: u64,
        source: ClipboardSourceMetadata,
    ) -> ListenerRecordOutcome {
        opendesktools::listener::record_listener_image(&mut self.service, image, captured_at_ms, source)
    }

    fn record_listener_files(
        &mut self,
        files: ClipboardFiles,
        captured_at_ms: u64,
        source: ClipboardSourceMetadata,
    ) -> ListenerRecordOutcome {
        opendesktools::listener::record_listener_files(&mut self.service, files, captured_at_ms, source)
    }
}

#[test]
fn adapter_records_once_emits_only_after_retention_and_keeps_sources_unknown() {
    let mut service = ServiceTarget::new();
    let mut sink = CountingSink::default();
    let mut reader = FakeReader {
        sequences: VecDeque::from([10, 10, 10]),
        values: VecDeque::from([Ok(Some("captured".to_owned()))]),
        source: ClipboardSourceMetadata::default(),
        reads: 0,
        suppressed: VecDeque::new(),
    };
    let mut last_sequence = None;

    process_clipboard_notification(&mut reader, &mut last_sequence, &mut service, &mut sink, 123);
    process_clipboard_notification(&mut reader, &mut last_sequence, &mut service, &mut sink, 124);

    assert_eq!(reader.reads, 1);
    assert_eq!(sink.count, 1);
    let item = service.newest_item();
    assert_eq!(item.text_content.as_deref(), Some("captured"));
    assert_eq!(item.source_application, None);
    assert_eq!(item.source_process, None);
}

#[test]
fn resolved_source_is_persisted_without_any_full_executable_path() {
    let mut service = ServiceTarget::new();
    let mut sink = CountingSink::default();
    let mut reader = FakeReader {
        sequences: VecDeque::from([77, 77]),
        values: VecDeque::from([Ok(Some("with-source".to_owned()))]),
        source: ClipboardSourceMetadata {
            source_application: Some("Code".to_owned()),
            source_process: Some("Code.exe".to_owned()),
            ..ClipboardSourceMetadata::default()
        },
        reads: 0,
        suppressed: VecDeque::new(),
    };
    let mut last_sequence = None;

    process_clipboard_notification(&mut reader, &mut last_sequence, &mut service, &mut sink, 123);

    let item = service.newest_item();
    assert_eq!(item.source_application.as_deref(), Some("Code"));
    assert_eq!(item.source_process.as_deref(), Some("Code.exe"));
    assert!(!item.source_process.as_deref().unwrap().contains(['\\', '/']));
}
