use std::collections::VecDeque;

use opendesktools::clipboard::ClipboardWriteContent;
use opendesktools::hdrop::{parse_hdrop, MAX_CLIPBOARD_FILES};
use opendesktools::dib::parse_dib;
use opendesktools::listener::decode_null_terminated_utf16;
use opendesktools::writer::{
    formats_for_content, paths_to_hdrop, replace_current_formats_with_ops, rgba_to_dib_v5,
    transfer_global_bytes, ClipboardFormatBytes, ClipboardOps, ClipboardWriter, OpsCall,
    ClipboardWriterError, GlobalMemoryApi, SequenceSuppressor, CF_DIBV5_FORMAT, CF_HDROP_FORMAT, CF_UNICODETEXT_FORMAT,
};

#[derive(Default)]
struct RecordingSuppressor {
    sequences: Vec<u32>,
}

impl SequenceSuppressor for RecordingSuppressor {
    fn suppressed(&self) -> vstd::seq::Seq<u32> {
        unreachable!()
    }

    fn suppress(&mut self, sequence: u32) {
        self.sequences.push(sequence);
    }
}

#[derive(Default)]
struct FakeMemory {
    bytes: Vec<u8>,
    allocs: usize,
    unlocks: usize,
    frees: usize,
    set_result: bool,
    lock_result: bool,
}

impl GlobalMemoryApi for FakeMemory {
    fn allocate(&mut self, size: usize) -> Option<usize> {
        self.allocs += 1;
        self.bytes.resize(size, 0);
        Some(1)
    }
    fn lock_and_copy(&mut self, _handle: usize, bytes: &[u8]) -> bool {
        if self.lock_result {
            self.bytes.copy_from_slice(bytes);
        }
        self.lock_result
    }
    fn unlock(&mut self, _handle: usize) {
        self.unlocks += 1;
    }
    fn free(&mut self, _handle: usize) {
        self.frees += 1;
    }
    fn set_clipboard_data(&mut self, _format: u32, _handle: usize) -> bool {
        self.set_result
    }
}

#[test]
fn global_memory_ownership_transfers_only_after_successful_set() {
    let mut success = FakeMemory {
        set_result: true,
        lock_result: true,
        ..Default::default()
    };
    assert!(transfer_global_bytes(&mut success, 13, &[1, 2, 3]));
    assert_eq!((success.allocs, success.unlocks, success.frees), (1, 1, 0));
    assert_eq!(success.bytes, vec![1, 2, 3]);
    let mut failure = FakeMemory {
        set_result: false,
        lock_result: true,
        ..Default::default()
    };
    assert!(!transfer_global_bytes(&mut failure, 13, &[1]));
    assert_eq!((failure.unlocks, failure.frees), (1, 1));
    let mut lock_failure = FakeMemory {
        set_result: true,
        lock_result: false,
        ..Default::default()
    };
    assert!(!transfer_global_bytes(&mut lock_failure, 13, &[1]));
    assert_eq!((lock_failure.unlocks, lock_failure.frees), (0, 1));
}

#[derive(Default)]
struct FakeOps {
    opens: VecDeque<bool>,
    closes: usize,
    sequence: u32,
    formats: Vec<ClipboardFormatBytes>,
    unsupported_original_formats: Vec<u32>,
    emptied: usize,
    prepares_at_first_empty: Option<usize>,
    prepares: usize,
    sets: usize,
    prepare_fail_at: Option<usize>,
    set_fail_at: Vec<usize>,
    change_sequence_on_open: bool,
}

impl ClipboardOps for FakeOps {
    fn calls(&self) -> vstd::seq::Seq<OpsCall> {
        unreachable!()
    }
    type Prepared = ClipboardFormatBytes;
    fn open(&mut self) -> bool {
        if self.change_sequence_on_open {
            self.change_sequence_on_open = false;
            self.sequence += 1;
        }
        self.opens.pop_front().unwrap_or(true)
    }
    fn close(&mut self) {
        self.closes += 1;
    }
    fn sequence(&mut self) -> u32 {
        self.sequence
    }
    fn empty(&mut self) -> bool {
        self.emptied += 1;
        self.prepares_at_first_empty.get_or_insert(self.prepares);
        self.formats.clear();
        self.unsupported_original_formats.clear();
        true
    }
    fn prepare_bytes(
        &mut self,
        format: u32,
        bytes: &[u8],
    ) -> Result<Self::Prepared, ClipboardWriterError> {
        self.prepares += 1;
        if self.prepare_fail_at == Some(self.prepares) {
            return Err(ClipboardWriterError::WindowsApi("GlobalAlloc"));
        }
        Ok(ClipboardFormatBytes {
            format,
            bytes: bytes.to_vec(),
        })
    }
    fn set_prepared(&mut self, prepared: Self::Prepared) -> bool {
        self.sets += 1;
        if self.set_fail_at.contains(&self.sets) {
            self.sequence += 1;
            return false;
        }
        self.formats.push(prepared);
        self.sequence += 1;
        true
    }
}

fn format(format: u32, value: u8) -> ClipboardFormatBytes {
    ClipboardFormatBytes {
        format,
        bytes: vec![value],
    }
}

#[test]
fn replacement_ignores_unsupported_original_formats_and_is_fully_prepared_before_empty() {
    let replacement = vec![format(CF_UNICODETEXT_FORMAT, 65)];
    let mut ops = FakeOps {
        sequence: 10,
        formats: vec![format(0xc001, 9)],
        unsupported_original_formats: vec![2, 0xc002],
        ..Default::default()
    };
    let mut suppressed = RecordingSuppressor::default();

    assert_eq!(
        replace_current_formats_with_ops(&mut ops, &replacement, &mut suppressed).unwrap(),
        Some(11)
    );
    assert_eq!(ops.emptied, 1);
    assert_eq!(ops.prepares_at_first_empty, Some(replacement.len()));
    assert_eq!(ops.formats, replacement);
    assert!(ops.unsupported_original_formats.is_empty());
    assert_eq!(suppressed.sequences, vec![11]);
}

#[test]
fn text_and_rgba_generate_unicode_and_top_down_dibv5() {
    let text = formats_for_content(&ClipboardWriteContent::Text("A".to_owned())).unwrap();
    assert_eq!(
        text[0],
        ClipboardFormatBytes {
            format: CF_UNICODETEXT_FORMAT,
            bytes: vec![65, 0, 0, 0]
        }
    );
    let image = formats_for_content(&ClipboardWriteContent::Image {
        width: 1,
        height: 1,
        rgba: vec![1, 2, 3, 4],
    })
    .unwrap();
    assert_eq!(image[0].format, CF_DIBV5_FORMAT);
    assert_eq!(&image[0].bytes[8..12], &(-1_i32).to_le_bytes());
    assert_eq!(&image[0].bytes[124..], &[3, 2, 1, 4]);
}

#[test]
fn file_paths_generate_one_wide_dropfiles_payload_with_double_terminator() {
    let paths = vec![
        r"C:\tmp\notes.txt".encode_utf16().collect::<Vec<_>>(),
        r"D:\images\图.png".encode_utf16().collect::<Vec<_>>(),
    ];
    let formats = formats_for_content(&ClipboardWriteContent::Files {
        paths: paths.clone(),
    })
    .unwrap();
    assert_eq!(formats.len(), 1);
    assert_eq!(formats[0].format, CF_HDROP_FORMAT);
    let bytes = &formats[0].bytes;
    assert_eq!(u32::from_le_bytes(bytes[0..4].try_into().unwrap()), 20);
    assert_eq!(u32::from_le_bytes(bytes[16..20].try_into().unwrap()), 1);
    let units = bytes[20..]
        .chunks_exact(2)
        .map(|pair| u16::from_le_bytes([pair[0], pair[1]]))
        .collect::<Vec<_>>();
    assert_eq!(&units[units.len() - 2..], &[0, 0]);
    let rebuilt = units[..units.len() - 1]
        .split(|unit| *unit == 0)
        .filter(|path| !path.is_empty())
        .map(<[u16]>::to_vec)
        .collect::<Vec<_>>();
    assert_eq!(rebuilt, paths);
}

#[test]
fn file_drop_writer_rejects_empty_embedded_nul_and_path_count_bombs() {
    assert_eq!(paths_to_hdrop(&[]), Err(ClipboardWriterError::InvalidContent));
    assert_eq!(
        paths_to_hdrop(&[vec![b'C' as u16, 0, b'x' as u16]]),
        Err(ClipboardWriterError::InvalidContent)
    );
    let bomb = vec![vec![b'x' as u16]; MAX_CLIPBOARD_FILES + 1];
    assert_eq!(paths_to_hdrop(&bomb), Err(ClipboardWriterError::InvalidContent));
}

#[test]
fn allocation_failure_and_concurrent_change_do_not_mutate_clipboard() {
    let replacement = vec![format(CF_UNICODETEXT_FORMAT, 2)];
    let mut allocation_failure = FakeOps {
        sequence: 20,
        formats: vec![format(0xc001, 1)],
        prepare_fail_at: Some(1),
        ..Default::default()
    };
    let mut unused = RecordingSuppressor::default();
    assert!(replace_current_formats_with_ops(&mut allocation_failure, &replacement, &mut unused).is_err());
    assert!(unused.sequences.is_empty());
    assert_eq!(allocation_failure.emptied, 0);
    assert_eq!(allocation_failure.formats, vec![format(0xc001, 1)]);

    let mut changed = FakeOps {
        sequence: 20,
        formats: vec![format(0xc001, 1)],
        change_sequence_on_open: true,
        ..Default::default()
    };
    let mut rejected = RecordingSuppressor::default();
    assert_eq!(
        replace_current_formats_with_ops(&mut changed, &replacement, &mut rejected).unwrap(),
        None
    );
    assert!(rejected.sequences.is_empty(), "a rejected guarded write must not be suppressed");
    assert_eq!(changed.emptied, 0);
    assert_eq!(changed.formats, vec![format(0xc001, 1)]);
    assert_eq!(changed.prepares, replacement.len());
}

#[test]
fn set_clipboard_data_failure_is_explicit_and_suppresses_the_mutated_sequence() {
    let replacement = vec![format(CF_UNICODETEXT_FORMAT, 2)];
    let mut ops = FakeOps {
        sequence: 30,
        formats: vec![format(0xc001, 1)],
        set_fail_at: vec![1],
        ..Default::default()
    };
    let mut suppressed = RecordingSuppressor::default();
    assert_eq!(
        replace_current_formats_with_ops(&mut ops, &replacement, &mut suppressed),
        Err(ClipboardWriterError::WindowsApi("SetClipboardData"))
    );
    assert_eq!(ops.emptied, 1);
    assert_eq!(suppressed.sequences, vec![31]);
}

#[test]
fn written_file_list_parses_back_to_the_same_paths() {
    let paths = vec![
        "C:\\a.txt".encode_utf16().collect::<Vec<_>>(),
        "D:\\b\\c.png".encode_utf16().collect::<Vec<_>>(),
    ];
    let bytes = paths_to_hdrop(&paths).unwrap();
    assert_eq!(parse_hdrop(&bytes).unwrap().paths, paths);
}

#[test]
fn written_text_block_decodes_back_to_the_same_text() {
    let formats = formats_for_content(&ClipboardWriteContent::Text("héllo 😀".to_owned())).unwrap();
    let units = formats[0]
        .bytes
        .chunks_exact(2)
        .map(|pair| u16::from_le_bytes([pair[0], pair[1]]))
        .collect::<Vec<_>>();
    assert_eq!(decode_null_terminated_utf16(&units), Ok(Some("héllo 😀".to_owned())));
}

#[test]
fn written_dibv5_parses_back_to_the_same_pixels() {
    let rgba = vec![1, 2, 3, 4, 5, 6, 7, 8];
    let dib = rgba_to_dib_v5(2, 1, &rgba).unwrap();
    let image = parse_dib(dib).unwrap();
    assert_eq!((image.width, image.height), (2, 1));
    assert_eq!(image.rgba, rgba);
}

#[test]
fn dibv5_writer_rejects_empty_dimensions_and_mismatched_pixels() {
    assert_eq!(rgba_to_dib_v5(0, 1, &[]), Err(ClipboardWriterError::InvalidContent));
    assert_eq!(rgba_to_dib_v5(1, 1, &[1, 2, 3]), Err(ClipboardWriterError::InvalidContent));
    assert_eq!(
        rgba_to_dib_v5(0x8000_0000, 1, &[]),
        Err(ClipboardWriterError::InvalidContent)
    );
}

#[test]
fn writer_reports_busy_when_the_clipboard_changed_during_the_write() {
    let ops = FakeOps {
        sequence: 5,
        change_sequence_on_open: true,
        ..Default::default()
    };
    let mut writer = ClipboardWriter::new(ops);
    let content = ClipboardWriteContent::Text("x".to_owned());
    let mut suppressed = RecordingSuppressor::default();
    assert_eq!(writer.replace_current(&content, &mut suppressed), Err(ClipboardWriterError::Busy));
    let result = writer.transaction(|transaction| transaction.replace_current(&content, &mut suppressed));
    assert_eq!(result, Ok(Some(7)));
}
