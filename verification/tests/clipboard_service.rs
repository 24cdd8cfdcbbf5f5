use std::cell::RefCell;
use std::collections::HashMap;
use std::rc::Rc;

use opendesktools::clipboard::{
    ClipboardWriteContent,
    ClipboardContentKind, CLIPBOARD_HISTORY_CAPACITY, JS_MAX_SAFE_INTEGER, MAX_SEARCH_CHARS,
    MAX_SOURCE_APPLICATION_CHARS, MAX_SOURCE_PROCESS_CHARS, MAX_TEXT_BYTES,
};
use opendesktools::clipboard_commands::{
    clear_unfavorite, delete_item, get_history, set_favorite, update_text,
    ClipboardFavoriteInput, ClipboardHistoryQueryInput, ClipboardHistoryScopeInput,
    ClipboardItemIdInput, ClipboardMonitoringDto, ClipboardTextUpdateInput,
};
use opendesktools::dib::ClipboardImage;
use opendesktools::hdrop::ClipboardFiles as ListenerFiles;
use opendesktools::listener::{
    capture_outcome, record_listener_files, record_listener_image, record_listener_text,
    ClipboardListenerStatus, ClipboardSourceMetadata, ListenerRecordOutcome,
};
use opendesktools::history::{ClipboardError, ImageError};
use opendesktools::service::{
    validate_id, validate_optional_chars, validate_safe_integer,
    ClipboardCaptureMetadata, ClipboardFiles, FileCall, ClipboardHistoryQuery, ClipboardRecordResult,
    ClipboardService, StoredImage,
};
use opendesktools::settings::{ClipboardHistoryReuseStrategy, ClipboardSettings};
use opendesktools::settings_store::{SettingsStore, StorageError};

const PNG_SIGNATURE: [u8; 8] = [0x89, b'P', b'N', b'G', b'\r', b'\n', 0x1a, b'\n'];

#[derive(Default)]
struct FileState {
    images: HashMap<String, (u32, u32, Vec<u8>)>,
    files: HashMap<Vec<u16>, u64>,
    icons: HashMap<String, Vec<u8>>,
}

#[derive(Clone, Default)]
struct FakeFiles {
    state: Rc<RefCell<FileState>>,
}

impl FakeFiles {
    fn has_image(&self, reference: &str) -> bool {
        self.state.borrow().images.contains_key(reference)
    }

    fn forget_image(&self, reference: &str) {
        self.state.borrow_mut().images.remove(reference);
    }

    fn forget_icon(&self, reference: &str) {
        self.state.borrow_mut().icons.remove(reference);
    }

    fn add_orphan_image(&self, reference: &str) {
        self.state
            .borrow_mut()
            .images
            .insert(reference.to_owned(), (1, 1, vec![0, 0, 0, 0]));
    }

    fn add_file(&self, path: &str, size: u64) -> Vec<u16> {
        let units: Vec<u16> = path.encode_utf16().collect();
        self.state.borrow_mut().files.insert(units.clone(), size);
        units
    }
}

impl ClipboardFiles for FakeFiles {
    fn calls(&self) -> vstd::seq::Seq<FileCall> {
        unreachable!()
    }

    fn store_rgba(&mut self, width: u32, height: u32, rgba: &[u8]) -> Result<StoredImage, ImageError> {
        let name: String = rgba.iter().map(|byte| format!("{byte:02x}")).collect();
        let reference = format!("images/{width}x{height}-{name}.png");
        let mut state = self.state.borrow_mut();
        let newly_created = !state.images.contains_key(&reference);
        state
            .images
            .insert(reference.clone(), (width, height, rgba.to_vec()));
        Ok(StoredImage {
            reference,
            hash: rgba.to_vec(),
            byte_size: (PNG_SIGNATURE.len() + rgba.len()) as u64,
            newly_created,
        })
    }

    fn read_image(&mut self, reference: &str) -> Result<Vec<u8>, ImageError> {
        match self.state.borrow().images.get(reference) {
            Some((_, _, rgba)) => {
                let mut bytes = PNG_SIGNATURE.to_vec();
                bytes.extend_from_slice(rgba);
                Ok(bytes)
            }
            None => Err(ImageError::Missing),
        }
    }

    fn decode_image(&mut self, reference: &str) -> Result<ClipboardImage, ImageError> {
        match self.state.borrow().images.get(reference) {
            Some((width, height, rgba)) => Ok(ClipboardImage {
                width: *width,
                height: *height,
                rgba: rgba.clone(),
            }),
            None => Err(ImageError::Missing),
        }
    }

    fn remove_image(&mut self, reference: &str) {
        self.state.borrow_mut().images.remove(reference);
    }

    fn read_source_icon(&mut self, reference: &str) -> Option<Vec<u8>> {
        self.state.borrow().icons.get(reference).cloned()
    }

    fn cache_source_icon(&mut self, executable: &str) -> Option<String> {
        let file = executable.rsplit('\\').next().unwrap_or_default().to_ascii_lowercase();
        if file.is_empty() {
            return None;
        }
        let reference = format!("icons/{file}.png");
        self.state
            .borrow_mut()
            .icons
            .insert(reference.clone(), PNG_SIGNATURE.to_vec());
        Some(reference)
    }

    fn reconcile_images(&mut self, references: &[String]) -> Vec<String> {
        let mut state = self.state.borrow_mut();
        state.images.retain(|name, _| references.contains(name));
        references
            .iter()
            .filter(|reference| !state.images.contains_key(*reference))
            .cloned()
            .collect()
    }

    fn reconcile_source_icons(&mut self, references: &[String]) -> Vec<String> {
        let mut state = self.state.borrow_mut();
        state.icons.retain(|name, _| references.contains(name));
        references
            .iter()
            .filter(|reference| !state.icons.contains_key(*reference))
            .cloned()
            .collect()
    }

    fn remove_source_icons(&mut self, references: &[String]) {
        let mut state = self.state.borrow_mut();
        for reference in references {
            state.icons.remove(reference);
        }
    }

    fn regular_file_size(&mut self, path: &[u16]) -> Option<u64> {
        self.state.borrow().files.get(path).copied()
    }
}

fn service() -> (FakeFiles, ClipboardService<FakeFiles>) {
    let files = FakeFiles::default();
    let service = ClipboardService::initialize(SettingsStore::new(), files.clone());
    (files, service)
}

fn metadata(timestamp: u64) -> ClipboardCaptureMetadata {
    ClipboardCaptureMetadata {
        captured_at_ms: timestamp,
        source_application: None,
        source_process: None,
    }
}

fn all(limit: u32) -> ClipboardHistoryQuery {
    ClipboardHistoryQuery {
        favorites_only: false,
        search: None,
        limit,
    }
}

#[test]
fn text_is_recorded_with_real_metadata() {
    let (_files, mut service) = service();
    let recorded = service
        .record_text(
            "真实文本".to_owned(),
            ClipboardCaptureMetadata {
                captured_at_ms: 1_720_000_000_123,
                source_application: Some("Editor".to_owned()),
                source_process: Some("editor.exe".to_owned()),
            },
        )
        .unwrap();
    assert!(recorded.retained);

    let page = service.query_history(all(100)).unwrap();
    assert_eq!(page.total_count, 1);
    let item = &page.items[0];
    assert_eq!(item.kind, ClipboardContentKind::Text);
    assert_eq!(item.text_content.as_deref(), Some("真实文本"));
    assert_eq!(item.source_application.as_deref(), Some("Editor"));
    assert_eq!(item.source_process.as_deref(), Some("editor.exe"));
    assert_eq!(item.captured_at_ms, 1_720_000_000_123);
    assert_eq!(item.byte_size, "真实文本".len() as u64);
}

#[test]
fn duplicate_text_moves_to_latest_metadata_and_preserves_favorite() {
    let (_files, mut service) = service();
    let first = service
        .record_text("same".to_owned(), metadata(10))
        .unwrap()
        .item
        .unwrap();
    service.set_favorite(first.id, true).unwrap();

    let duplicate = service
        .record_text(
            "same".to_owned(),
            ClipboardCaptureMetadata {
                captured_at_ms: 30,
                source_application: Some("Latest".to_owned()),
                source_process: None,
            },
        )
        .unwrap()
        .item
        .unwrap();

    assert_eq!(duplicate.id, first.id);
    assert!(duplicate.is_favorite);
    assert_eq!(duplicate.captured_at_ms, 30);
    assert_eq!(duplicate.source_application.as_deref(), Some("Latest"));
    assert_eq!(service.query_history(all(100)).unwrap().total_count, 1);
}

#[test]
fn persisted_settings_apply_capacity_ignored_apps_reuse_and_sensitive_rules() {
    let (_files, mut service) = service();
    let settings = ClipboardSettings {
        retention_days: Some(7),
        max_items: 10,
        ignored_apps: vec!["notepad.exe".to_owned()],
        history_reuse_strategy: ClipboardHistoryReuseStrategy::Keep,
        sensitive_rules: vec!["(?i)password".to_owned()],
    };
    assert_eq!(service.update_settings(settings.clone()).unwrap(), 0);
    assert_eq!(service.settings().unwrap(), settings);

    let ignored = service
        .record_text(
            "from ignored app".to_owned(),
            ClipboardCaptureMetadata {
                captured_at_ms: 1,
                source_application: Some("Notepad".to_owned()),
                source_process: Some("NOTEPAD.EXE".to_owned()),
            },
        )
        .unwrap();
    assert!(!ignored.retained);
    assert!(service
        .record_text("my password".to_owned(), metadata(2))
        .unwrap()
        .item
        .is_none());

    let first = service.record_text("once".to_owned(), metadata(3)).unwrap();
    assert!(first.retained);
    let repeated = service.record_text("once".to_owned(), metadata(4)).unwrap();
    assert!(repeated.retained);
    assert_eq!(repeated.item.unwrap().id, first.item.unwrap().id);
    for index in 0_u64..10 {
        service
            .record_text(format!("item-{index}"), metadata(index + 10))
            .unwrap();
    }
    assert_eq!(service.query_history(all(100)).unwrap().items.len(), 10);
}

#[test]
fn reusing_an_existing_item_promotes_it_to_the_history_front() {
    let (_files, mut service) = service();
    let old = service
        .record_text("old".to_owned(), metadata(1))
        .unwrap()
        .item
        .unwrap();
    let newest = service
        .record_text("newest".to_owned(), metadata(2))
        .unwrap()
        .item
        .unwrap();

    service.apply_history_reuse(old.id).unwrap();

    let history = service.query_history(all(100)).unwrap();
    assert_eq!(history.items[0].id, old.id);
    assert_eq!(history.items[1].id, newest.id);
    assert!(history.items[0].captured_at_ms > newest.captured_at_ms);
}

#[test]
fn keeping_reused_history_items_preserves_their_existing_order() {
    let (_files, mut service) = service();
    service
        .update_settings(ClipboardSettings {
            history_reuse_strategy: ClipboardHistoryReuseStrategy::Keep,
            ..ClipboardSettings::default()
        })
        .unwrap();
    let old = service
        .record_text("old".to_owned(), metadata(1))
        .unwrap()
        .item
        .unwrap();
    let newest = service
        .record_text("newest".to_owned(), metadata(2))
        .unwrap()
        .item
        .unwrap();

    service.apply_history_reuse(old.id).unwrap();

    let history = service.query_history(all(100)).unwrap();
    assert_eq!(history.items[0].id, newest.id);
    assert_eq!(history.items[1].id, old.id);
}

#[test]
fn text_edit_is_revision_guarded_and_preserves_metadata_favorite_and_timestamp() {
    let (_files, mut service) = service();
    let id = service
        .record_text("before".to_owned(), metadata(77))
        .unwrap()
        .item
        .unwrap()
        .id;
    service.set_favorite(id, true).unwrap();

    let updated = service.update_text(id, "after".to_owned(), 1).unwrap();

    assert_eq!(updated.text_content.as_deref(), Some("after"));
    assert_eq!(updated.byte_size, 5);
    assert_eq!(updated.captured_at_ms, 77);
    assert!(updated.is_favorite);
    assert_eq!(updated.revision, 2);
    assert!(matches!(
        service.update_text(id, "stale".to_owned(), 1),
        Err(ClipboardError::RevisionConflict)
    ));
    assert_eq!(
        service.query_history(all(100)).unwrap().items[0]
            .text_content
            .as_deref(),
        Some("after")
    );
}

#[test]
fn text_edit_rejects_empty_oversized_image_and_duplicate_without_mutation() {
    let (_files, mut service) = service();
    let first = service
        .record_text("first".to_owned(), metadata(1))
        .unwrap()
        .item
        .unwrap();
    let second = service
        .record_text("second".to_owned(), metadata(2))
        .unwrap()
        .item
        .unwrap();
    let image = service
        .record_image(1, 1, vec![1, 2, 3, 255], metadata(3))
        .unwrap()
        .item
        .unwrap();

    assert!(matches!(
        service.update_text(first.id, String::new(), 1),
        Err(ClipboardError::EmptyText)
    ));
    assert!(matches!(
        service.update_text(first.id, "x".repeat(MAX_TEXT_BYTES + 1), 1),
        Err(ClipboardError::TextTooLarge)
    ));
    assert!(matches!(
        service.update_text(first.id, "second".to_owned(), 1),
        Err(ClipboardError::DuplicateText)
    ));
    assert!(matches!(
        service.update_text(image.id, "text".to_owned(), 1),
        Err(ClipboardError::NotFound)
    ));
    let items = service.query_history(all(100)).unwrap().items;
    assert_eq!(
        items
            .iter()
            .find(|item| item.id == first.id)
            .unwrap()
            .text_content
            .as_deref(),
        Some("first")
    );
    assert_eq!(
        items
            .iter()
            .find(|item| item.id == second.id)
            .unwrap()
            .revision,
        1
    );
}

#[test]
fn capacity_evicts_oldest_nonfavorite_and_never_evicts_favorites() {
    let (_files, mut service) = service();
    for index in 0..CLIPBOARD_HISTORY_CAPACITY {
        let item = service
            .record_text(format!("item-{index}"), metadata(u64::from(index)))
            .unwrap()
            .item
            .unwrap();
        if index == 0 {
            service.set_favorite(item.id, true).unwrap();
        }
    }

    let newest = service
        .record_text("newest".to_owned(), metadata(500))
        .unwrap();
    assert!(newest.retained);
    let page = service.query_history(all(100)).unwrap();
    assert_eq!(page.total_count, 100);
    assert!(page
        .items
        .iter()
        .any(|item| item.text_content.as_deref() == Some("item-0") && item.is_favorite));
    assert!(!page
        .items
        .iter()
        .any(|item| item.text_content.as_deref() == Some("item-1")));
    assert_eq!(page.items[0].text_content.as_deref(), Some("newest"));
}

#[test]
fn a_new_nonfavorite_reports_not_retained_when_favorites_fill_capacity() {
    let (_files, mut service) = service();
    for index in 0..CLIPBOARD_HISTORY_CAPACITY {
        let item = service
            .record_text(format!("favorite-{index}"), metadata(u64::from(index)))
            .unwrap()
            .item
            .unwrap();
        service.set_favorite(item.id, true).unwrap();
    }

    let result = service
        .record_text("cannot-fit".to_owned(), metadata(1_000))
        .unwrap();

    assert!(!result.retained);
    assert_eq!(result.item, None);
    let page = service.query_history(all(100)).unwrap();
    assert_eq!(page.total_count, 100);
    assert!(page.items.iter().all(|item| item.is_favorite));
}

#[test]
fn query_search_scope_limit_and_total_count_report_filtered_truth() {
    let (_files, mut service) = service();
    let alpha = service
        .record_text(
            "Alpha note".to_owned(),
            ClipboardCaptureMetadata {
                captured_at_ms: 10,
                source_application: Some("Notes".to_owned()),
                source_process: None,
            },
        )
        .unwrap()
        .item
        .unwrap();
    service.set_favorite(alpha.id, true).unwrap();
    service
        .record_text("Beta note".to_owned(), metadata(20))
        .unwrap();
    service
        .record_text(
            "Gamma".to_owned(),
            ClipboardCaptureMetadata {
                captured_at_ms: 30,
                source_application: None,
                source_process: Some("NOTES.EXE".to_owned()),
            },
        )
        .unwrap();

    let searched = service
        .query_history(ClipboardHistoryQuery {
            favorites_only: false,
            search: Some("note".to_owned()),
            limit: 1,
        })
        .unwrap();
    assert_eq!(searched.items.len(), 1);
    assert_eq!(searched.total_count, 3);

    let favorites = service
        .query_history(ClipboardHistoryQuery {
            favorites_only: true,
            search: None,
            limit: 100,
        })
        .unwrap();
    assert_eq!(favorites.total_count, 1);
    assert_eq!(favorites.items[0].id, alpha.id);
}

#[test]
fn favorite_delete_and_clear_mutations_return_persisted_results() {
    let (_files, mut service) = service();
    let kept = service
        .record_text("kept".to_owned(), metadata(10))
        .unwrap()
        .item
        .unwrap();
    let deleted = service
        .record_text("deleted".to_owned(), metadata(20))
        .unwrap()
        .item
        .unwrap();
    service.set_favorite(kept.id, true).unwrap();

    assert!(service.delete(deleted.id).unwrap());
    assert!(!service.delete(deleted.id).unwrap());
    service
        .record_text("cleared".to_owned(), metadata(30))
        .unwrap();
    assert_eq!(service.clear_unfavorite().unwrap(), 1);

    let page = service.query_history(all(100)).unwrap();
    assert_eq!(page.total_count, 1);
    assert_eq!(page.items[0].id, kept.id);
    assert!(page.items[0].is_favorite);
}

#[test]
fn image_is_recorded_as_png_and_duplicate_preserves_favorite() {
    let (_files, mut service) = service();
    let first = service
        .record_image(1, 1, vec![1, 2, 3, 255], metadata(10))
        .unwrap()
        .item
        .unwrap();
    assert_eq!(first.kind, ClipboardContentKind::Image);
    assert_eq!(first.text_content, None);
    assert!(service
        .image_bytes(first.id)
        .unwrap()
        .starts_with(b"\x89PNG\r\n\x1a\n"));
    service.set_favorite(first.id, true).unwrap();
    let duplicate = service
        .record_image(1, 1, vec![1, 2, 3, 255], metadata(20))
        .unwrap()
        .item
        .unwrap();
    assert_eq!(duplicate.id, first.id);
    assert!(duplicate.is_favorite);
    assert_eq!(duplicate.captured_at_ms, 20);
}

#[test]
fn image_files_are_removed_by_delete_clear_and_capacity_eviction() {
    let (files, mut service) = service();
    let deleted = service
        .record_image(1, 1, vec![1, 0, 0, 255], metadata(1))
        .unwrap()
        .item
        .unwrap();
    let deleted_path = deleted.file_path.clone().unwrap();
    assert!(files.has_image(&deleted_path));
    assert!(service.delete(deleted.id).unwrap());
    assert!(!files.has_image(&deleted_path));

    let cleared = service
        .record_image(1, 1, vec![2, 0, 0, 255], metadata(2))
        .unwrap()
        .item
        .unwrap();
    let cleared_path = cleared.file_path.clone().unwrap();
    assert_eq!(service.clear_unfavorite().unwrap(), 1);
    assert!(!files.has_image(&cleared_path));

    let evicted = service
        .record_image(1, 1, vec![3, 0, 0, 255], metadata(0))
        .unwrap()
        .item
        .unwrap();
    let evicted_path = evicted.file_path.clone().unwrap();
    for index in 0..CLIPBOARD_HISTORY_CAPACITY {
        service
            .record_text(format!("capacity-{index}"), metadata(u64::from(index) + 1))
            .unwrap();
    }
    assert!(!files.has_image(&evicted_path));
    assert_eq!(service.query_history(all(100)).unwrap().total_count, 100);
}

#[test]
fn file_drop_records_existing_files_and_rejects_missing_ones() {
    let (files, mut service) = service();
    let first = files.add_file("C:\\Docs\\a.txt", 3);
    let second = files.add_file("C:\\Docs\\b.png", 4);
    let item = service
        .record_files(vec![first.clone(), second.clone()], metadata(5))
        .unwrap()
        .item
        .unwrap();
    assert_eq!(item.kind, ClipboardContentKind::Files);
    assert_eq!(item.byte_size, 7);
    assert_eq!(item.file_paths, Some(vec![first, second]));

    let missing: Vec<u16> = "C:\\Docs\\missing.txt".encode_utf16().collect();
    assert!(service.record_files(vec![missing], metadata(6)).is_err());
    let relative: Vec<u16> = "notes.txt".encode_utf16().collect();
    assert!(matches!(
        service.record_files(vec![relative], metadata(7)),
        Err(ClipboardError::InvalidFiles)
    ));
    assert!(matches!(
        service.record_files(Vec::new(), metadata(8)),
        Err(ClipboardError::InvalidFiles)
    ));
    assert_eq!(service.query_history(all(100)).unwrap().total_count, 1);
}

#[test]
fn invalid_inputs_are_rejected_before_storage_changes() {
    let (_files, mut service) = service();

    assert!(matches!(
        service.record_text(String::new(), metadata(1)),
        Err(ClipboardError::EmptyText)
    ));
    assert!(matches!(
        service.record_text("value".to_owned(), metadata(JS_MAX_SAFE_INTEGER + 1)),
        Err(ClipboardError::NumericRange)
    ));
    for limit in [0, 101] {
        assert!(matches!(
            service.query_history(all(limit)),
            Err(ClipboardError::InvalidLimit)
        ));
    }
    assert_eq!(service.query_history(all(100)).unwrap().total_count, 0);
}

#[test]
fn exact_text_source_and_search_boundaries_use_utf8_bytes_and_unicode_scalar_chars() {
    let (_files, mut service) = service();
    let text = "a".repeat(MAX_TEXT_BYTES);
    let source_application = "界".repeat(MAX_SOURCE_APPLICATION_CHARS);
    let source_process = "🙂".repeat(MAX_SOURCE_PROCESS_CHARS);

    let recorded = service
        .record_text(
            text,
            ClipboardCaptureMetadata {
                captured_at_ms: JS_MAX_SAFE_INTEGER,
                source_application: Some(source_application.clone()),
                source_process: Some(source_process),
            },
        )
        .unwrap()
        .item
        .unwrap();

    assert_eq!(recorded.byte_size, MAX_TEXT_BYTES as u64);
    assert_eq!(
        recorded
            .source_application
            .as_deref()
            .unwrap()
            .chars()
            .count(),
        MAX_SOURCE_APPLICATION_CHARS
    );
    let result = service
        .query_history(ClipboardHistoryQuery {
            favorites_only: false,
            search: Some("界".repeat(MAX_SEARCH_CHARS)),
            limit: 100,
        })
        .unwrap();
    assert_eq!(result.total_count, 1);
}

#[test]
fn oversized_text_sources_and_search_are_rejected_before_sql() {
    let (_files, mut service) = service();

    assert!(matches!(
        service.record_text("a".repeat(MAX_TEXT_BYTES + 1), metadata(1)),
        Err(ClipboardError::TextTooLarge)
    ));
    assert!(matches!(
        service.record_text(
            "value".to_owned(),
            ClipboardCaptureMetadata {
                captured_at_ms: 1,
                source_application: Some("界".repeat(MAX_SOURCE_APPLICATION_CHARS + 1)),
                source_process: None,
            }
        ),
        Err(ClipboardError::SourceApplicationTooLong)
    ));
    assert!(matches!(
        service.record_text(
            "value".to_owned(),
            ClipboardCaptureMetadata {
                captured_at_ms: 1,
                source_application: None,
                source_process: Some("🙂".repeat(MAX_SOURCE_PROCESS_CHARS + 1)),
            }
        ),
        Err(ClipboardError::SourceProcessTooLong)
    ));
    assert!(matches!(
        service.query_history(ClipboardHistoryQuery {
            favorites_only: false,
            search: Some("界".repeat(MAX_SEARCH_CHARS + 1)),
            limit: 100,
        }),
        Err(ClipboardError::SearchTooLong)
    ));
    assert_eq!(service.query_history(all(100)).unwrap().total_count, 0);
}

#[test]
fn retention_removes_elapsed_nonfavorites_only() {
    let (_files, mut service) = service();
    service
        .update_settings(ClipboardSettings {
            retention_days: Some(7),
            ..ClipboardSettings::default()
        })
        .unwrap();
    let day: u64 = 86_400_000;
    let old = service
        .record_text("old".to_owned(), metadata(1))
        .unwrap()
        .item
        .unwrap();
    let favorite = service
        .record_text("favorite".to_owned(), metadata(2))
        .unwrap()
        .item
        .unwrap();
    service.set_favorite(favorite.id, true).unwrap();
    let fresh = service
        .record_text("fresh".to_owned(), metadata(10 * day))
        .unwrap()
        .item
        .unwrap();
    assert_eq!(service.apply_retention_at(10 * day + 10).unwrap(), 1);
    let ids: Vec<i64> = service
        .query_history(all(100))
        .unwrap()
        .items
        .iter()
        .map(|item| item.id)
        .collect();
    assert_eq!(ids, vec![fresh.id, favorite.id]);
    assert!(!ids.contains(&old.id));
}

#[test]
fn text_rows_are_keyed_by_the_sha256_of_their_utf8_bytes() {
    let (_files, mut service) = service();
    service.record_text("abc".to_owned(), metadata(1)).unwrap();
    let rows = service.rows();
    assert_eq!(rows.len(), 1);
    let hex: String = rows[0]
        .content_hash
        .iter()
        .map(|byte| format!("{byte:02x}"))
        .collect();
    assert_eq!(
        hex,
        "ba7816bf8f01cfea414140de5dae2223b00361a396177a9cb410ff61f20015ad"
    );
    assert_eq!(rows[0].raw.content_type, "text");
    assert_eq!(rows[0].raw.text_content.as_deref(), Some("abc"));
}

#[test]
fn file_lists_round_trip_through_their_json_column() {
    let (files, mut service) = service();
    let path = files.add_file("C:\\Data\\report.pdf", 9);
    let item = service
        .record_files(vec![path.clone()], metadata(4))
        .unwrap()
        .item
        .unwrap();
    let rows = service.rows();
    let expected_json = format!(
        "[[{}]]",
        path.iter().map(|unit| unit.to_string()).collect::<Vec<_>>().join(",")
    );
    assert_eq!(rows[0].raw.file_paths_json.as_deref(), Some(expected_json.as_str()));
    assert_eq!(item.file_paths, Some(vec![path]));
}

#[test]
fn startup_reconcile_removes_orphans_and_missing_image_rows() {
    let (files, mut service) = service();
    let kept = service
        .record_image(1, 1, vec![9, 8, 7, 255], metadata(1))
        .unwrap()
        .item
        .unwrap();
    let lost = service
        .record_image(1, 1, vec![1, 1, 1, 255], metadata(2))
        .unwrap()
        .item
        .unwrap();
    service.record_text("text stays".to_owned(), metadata(3)).unwrap();
    files.forget_image(lost.file_path.as_deref().unwrap());
    files.add_orphan_image("images/orphan.png");

    service.reconcile_images().unwrap();

    let ids: Vec<i64> = service
        .query_history(all(100))
        .unwrap()
        .items
        .iter()
        .map(|item| item.id)
        .collect();
    assert_eq!(ids.len(), 2);
    assert!(ids.contains(&kept.id));
    assert!(!ids.contains(&lost.id));
    assert!(!files.has_image("images/orphan.png"));
    assert!(files.has_image(kept.file_path.as_deref().unwrap()));
}

#[test]
fn source_icons_attach_only_when_cached_and_invalid_references_are_cleared() {
    let (files, mut service) = service();
    let item = service
        .record_text("with icon".to_owned(), metadata(1))
        .unwrap()
        .item
        .unwrap();
    let reference = service.cache_source_icon("C:\\Apps\\Editor.exe").unwrap();
    assert_eq!(reference, "icons/editor.exe.png");

    assert!(matches!(
        service.attach_source_icon(item.id, Some("icons/unknown.png")),
        Err(ClipboardError::SourceIcon)
    ));
    service.attach_source_icon(item.id, None).unwrap();
    assert_eq!(service.query_history(all(100)).unwrap().items[0].source_icon_path, None);

    service.attach_source_icon(item.id, Some(&reference)).unwrap();
    assert_eq!(
        service.query_history(all(100)).unwrap().items[0]
            .source_icon_path
            .as_deref(),
        Some("icons/editor.exe.png")
    );
    assert!(service.source_icon_bytes(item.id).unwrap().starts_with(b"\x89PNG"));

    service.reconcile_source_icons().unwrap();
    assert!(service.query_history(all(100)).unwrap().items[0].source_icon_path.is_some());

    files.forget_icon(&reference);
    service.reconcile_source_icons().unwrap();
    assert_eq!(service.query_history(all(100)).unwrap().items[0].source_icon_path, None);
}

fn record(service: &mut ClipboardService<FakeFiles>, text: &str, timestamp: u64) -> i64 {
    service
        .record_text(
            text.to_owned(),
            ClipboardCaptureMetadata {
                captured_at_ms: timestamp,
                source_application: Some("TestEditor".to_owned()),
                source_process: None,
            },
        )
        .unwrap()
        .item
        .unwrap()
        .id
}

fn all_input(limit: Option<u32>) -> ClipboardHistoryQueryInput {
    ClipboardHistoryQueryInput {
        scope: ClipboardHistoryScopeInput::All,
        search: None,
        limit,
    }
}

#[test]
fn stopped_listener_maps_to_paused_monitoring_without_blocking_history() {
    let (_files, mut service) = service();
    let page = get_history(
        &mut service,
        ClipboardListenerStatus::Stopped,
        false,
        false,
        all_input(Some(100)),
    )
    .unwrap();
    assert_eq!(page.monitoring, ClipboardMonitoringDto::Paused);
    assert_eq!(page.total_count, 0);
}

#[test]
fn browse_only_surface_contract_stays_active_until_backend_close_clears_it() {
    let (_files, mut service) = service();
    let active = get_history(
        &mut service,
        ClipboardListenerStatus::Stopped,
        false,
        true,
        all_input(Some(100)),
    )
    .unwrap();
    assert!(active.surface_active);
    assert!(!active.input_available);

    let closed = get_history(
        &mut service,
        ClipboardListenerStatus::Stopped,
        false,
        false,
        all_input(Some(100)),
    )
    .unwrap();
    assert!(!closed.surface_active);
    assert!(!closed.input_available);
}

#[test]
fn mutation_commands_return_persisted_truth_and_decimal_string_ids() {
    let (_files, mut service) = service();
    let id = record(&mut service, "favorite", 10);

    let favorite = set_favorite(
        &mut service,
        ClipboardFavoriteInput {
            id: id.to_string(),
            is_favorite: true,
        },
    )
    .unwrap();
    assert_eq!(favorite.id, id.to_string());
    assert!(favorite.is_favorite);

    assert_eq!(clear_unfavorite(&mut service).unwrap().deleted_count, 0);
    assert!(
        delete_item(&mut service, ClipboardItemIdInput { id: id.to_string() })
            .unwrap()
            .deleted
    );
    assert!(
        !delete_item(&mut service, ClipboardItemIdInput { id: id.to_string() })
            .unwrap()
            .deleted
    );
}

#[test]
fn text_edit_command_returns_persisted_revision_and_stable_conflict_codes() {
    let (_files, mut service) = service();
    let first = record(&mut service, "first", 10);
    let second = record(&mut service, "second", 20);

    let updated = update_text(
        &mut service,
        ClipboardTextUpdateInput {
            id: first.to_string(),
            text_content: "edited".to_owned(),
            expected_revision: 1,
        },
    )
    .unwrap();
    assert_eq!(updated.text_content.as_deref(), Some("edited"));
    assert_eq!(updated.revision, 2);

    let stale = update_text(
        &mut service,
        ClipboardTextUpdateInput {
            id: first.to_string(),
            text_content: "stale".to_owned(),
            expected_revision: 1,
        },
    )
    .unwrap_err();
    assert_eq!(stale.code, "clipboard_revision_conflict");
    assert!(stale.retryable);

    let duplicate = update_text(
        &mut service,
        ClipboardTextUpdateInput {
            id: first.to_string(),
            text_content: "second".to_owned(),
            expected_revision: 2,
        },
    )
    .unwrap_err();
    assert_eq!(duplicate.code, "clipboard_edit_duplicate");
    assert!(!duplicate.retryable);

    let empty = update_text(
        &mut service,
        ClipboardTextUpdateInput {
            id: second.to_string(),
            text_content: String::new(),
            expected_revision: 1,
        },
    )
    .unwrap_err();
    assert_eq!(empty.code, "clipboard_edit_empty");
    assert!(!empty.retryable);
}

#[test]
fn invalid_query_and_ids_return_non_retryable_safe_errors() {
    let (_files, mut service) = service();
    let query_error = get_history(
        &mut service,
        ClipboardListenerStatus::Stopped,
        false,
        false,
        all_input(Some(101)),
    )
    .unwrap_err();
    assert_eq!(query_error.code, "invalid_clipboard_history_query");
    assert!(!query_error.retryable);

    let search_error = get_history(
        &mut service,
        ClipboardListenerStatus::Stopped,
        false,
        false,
        ClipboardHistoryQueryInput {
            scope: ClipboardHistoryScopeInput::All,
            search: Some("界".repeat(MAX_SEARCH_CHARS + 1)),
            limit: Some(100),
        },
    )
    .unwrap_err();
    assert_eq!(search_error.code, "invalid_clipboard_history_query");
    assert_eq!(search_error.message, "Clipboard history query is invalid.");
    assert!(!search_error.retryable);

    for invalid_id in ["not-an-id", "01", "+1", "-1", "0", "9223372036854775808"] {
        let id_error = delete_item(
            &mut service,
            ClipboardItemIdInput {
                id: invalid_id.to_owned(),
            },
        )
        .unwrap_err();
        assert_eq!(id_error.code, "invalid_clipboard_item_id");
        assert!(!id_error.retryable);
    }
}

#[test]
fn history_command_reports_items_without_file_paths_and_default_settings() {
    let (_files, mut service) = service();
    service
        .update_settings(ClipboardSettings {
            retention_days: None,
            ..ClipboardSettings::default()
        })
        .unwrap();
    let id = record(&mut service, "hello", 1_720_000_000_123);
    let page = get_history(
        &mut service,
        ClipboardListenerStatus::Stopped,
        false,
        false,
        ClipboardHistoryQueryInput {
            scope: ClipboardHistoryScopeInput::All,
            search: None,
            limit: Some(10),
        },
    )
    .unwrap();
    assert_eq!(page.total_count, 1);
    let item = &page.items[0];
    assert_eq!(item.id, id.to_string());
    assert_eq!(item.kind, "text");
    assert_eq!(item.text_content.as_deref(), Some("hello"));
    assert_eq!(item.source_application.as_deref(), Some("TestEditor"));
    assert_eq!(item.captured_at_ms, 1_720_000_000_123);
    assert_eq!(item.byte_size, 5);
    assert!(!item.source_icon_available);
    assert_eq!(item.file_count, None);
    assert_eq!(item.display_category, "text");
    assert_eq!(page.settings.max_items, 100);
    assert_eq!(page.settings.history_reuse_strategy, "promote");
}

#[test]
fn validators_report_the_limit_that_was_broken() {
    assert_eq!(validate_safe_integer(JS_MAX_SAFE_INTEGER), Ok(()));
    assert_eq!(validate_safe_integer(JS_MAX_SAFE_INTEGER + 1), Err(ClipboardError::NumericRange));
    assert_eq!(validate_id(1), Ok(()));
    assert_eq!(validate_id(0), Err(ClipboardError::NotFound));
    assert_eq!(validate_id(-5), Err(ClipboardError::NotFound));
    assert_eq!(
        validate_optional_chars(Some("界界"), 1, ClipboardError::SourceProcessTooLong),
        Err(ClipboardError::SourceProcessTooLong)
    );
    assert_eq!(validate_optional_chars(Some("界"), 1, ClipboardError::SourceProcessTooLong), Ok(()));
    assert_eq!(validate_optional_chars(None, 0, ClipboardError::SourceProcessTooLong), Ok(()));
}

#[test]
fn history_lists_later_captures_first_and_breaks_ties_by_id() {
    let (_files, mut service) = service();
    let first = record(&mut service, "first", 5);
    let second = record(&mut service, "second", 5);
    let older = record(&mut service, "older", 3);
    let newest = record(&mut service, "newest", 9);
    let ids: Vec<i64> = service
        .query_history(all(100))
        .unwrap()
        .items
        .iter()
        .map(|item| item.id)
        .collect();
    assert_eq!(ids, vec![newest, second, first, older]);
}

fn source(executable: Option<&str>) -> ClipboardSourceMetadata {
    ClipboardSourceMetadata {
        source_application: Some("Editor".to_owned()),
        source_process: Some("editor.exe".to_owned()),
        source_executable_path: executable.map(str::to_owned),
    }
}

#[test]
fn capture_results_map_to_listener_outcomes() {
    let kept = Ok(ClipboardRecordResult { retained: true, item: None });
    assert_eq!(capture_outcome(&kept, false), ListenerRecordOutcome::Recorded { retained: true });
    let dropped = Ok(ClipboardRecordResult { retained: false, item: None });
    assert_eq!(capture_outcome(&dropped, true), ListenerRecordOutcome::Recorded { retained: false });
    let storage = Err(ClipboardError::Storage(StorageError::Unavailable));
    assert_eq!(capture_outcome(&storage, false), ListenerRecordOutcome::RetryableFailure);
    let image_io = Err(ClipboardError::Image(ImageError::Io));
    assert_eq!(capture_outcome(&image_io, true), ListenerRecordOutcome::RetryableFailure);
    assert_eq!(capture_outcome(&image_io, false), ListenerRecordOutcome::PermanentReject);
    assert_eq!(capture_outcome(&Err(ClipboardError::EmptyText), false), ListenerRecordOutcome::PermanentReject);
}

#[test]
fn listener_text_is_recorded_with_its_source_icon() {
    let (_files, mut service) = service();
    let outcome = record_listener_text(
        &mut service,
        "from listener".to_owned(),
        42,
        source(Some("C:\\Apps\\Editor.exe")),
    );
    assert_eq!(outcome, ListenerRecordOutcome::Recorded { retained: true });
    let page = service.query_history(all(10)).unwrap();
    assert_eq!(page.total_count, 1);
    let item = &page.items[0];
    assert_eq!(item.text_content.as_deref(), Some("from listener"));
    assert_eq!(item.captured_at_ms, 42);
    assert_eq!(item.source_application.as_deref(), Some("Editor"));
    assert_eq!(item.source_icon_path.as_deref(), Some("icons/editor.exe.png"));
}

#[test]
fn listener_rejects_empty_text_permanently() {
    let (_files, mut service) = service();
    let outcome = record_listener_text(&mut service, String::new(), 1, source(None));
    assert_eq!(outcome, ListenerRecordOutcome::PermanentReject);
    assert_eq!(service.query_history(all(10)).unwrap().total_count, 0);
}

#[test]
fn listener_records_images_and_files() {
    let (files, mut service) = service();
    let image = ClipboardImage { width: 1, height: 1, rgba: vec![1, 2, 3, 4] };
    let outcome = record_listener_image(&mut service, image, 5, source(None));
    assert_eq!(outcome, ListenerRecordOutcome::Recorded { retained: true });
    let path = files.add_file("C:\\data\\report.txt", 12);
    let outcome = record_listener_files(
        &mut service,
        ListenerFiles { paths: vec![path] },
        6,
        source(None),
    );
    assert_eq!(outcome, ListenerRecordOutcome::Recorded { retained: true });
    assert_eq!(service.query_history(all(10)).unwrap().total_count, 2);
    let missing = record_listener_files(
        &mut service,
        ListenerFiles { paths: vec!["C:\\gone.txt".encode_utf16().collect()] },
        7,
        source(None),
    );
    assert_eq!(missing, ListenerRecordOutcome::PermanentReject);
}

#[test]
fn recorded_file_list_is_written_back_as_the_same_paths() {
    let (files, mut service) = service();
    let first = files.add_file("C:\\data\\one.txt", 3);
    let second = files.add_file("D:\\two.png", 4);
    let recorded = service
        .record_files(vec![first.clone(), second.clone()], metadata(9))
        .unwrap();
    let id = recorded.item.unwrap().id;
    match service.content_for_write(id).unwrap() {
        ClipboardWriteContent::Files { paths } => assert_eq!(paths, vec![first, second]),
        other => panic!("expected a file list, got {other:?}"),
    }
}

#[test]
fn history_holding_the_largest_id_is_served_and_only_new_rows_fail() {
    let (_, mut seeded) = service();
    seeded.record_text("kept".to_owned(), metadata(1)).unwrap();
    let mut rows: Vec<_> = seeded.rows().iter().map(|row| opendesktools::service::HistoryRow {
        raw: opendesktools::history::RawClipboardHistoryItem {
            id: i64::MAX,
            content_type: row.raw.content_type.clone(),
            text_content: row.raw.text_content.clone(),
            file_path: row.raw.file_path.clone(),
            source_application: row.raw.source_application.clone(),
            source_process: row.raw.source_process.clone(),
            captured_at_ms: row.raw.captured_at_ms,
            byte_size: row.raw.byte_size,
            is_favorite: row.raw.is_favorite,
            content_revision: row.raw.content_revision,
            source_icon_path: row.raw.source_icon_path.clone(),
            file_paths_json: row.raw.file_paths_json.clone(),
        },
        content_hash: row.content_hash.clone(),
    }).collect();
    assert_eq!(rows.len(), 1);
    let restored = ClipboardService::try_initialize(SettingsStore::new(), rows.split_off(0), FakeFiles::default());
    let mut restored = match restored {
        Ok(service) => service,
        Err(_) => panic!("a history holding the largest id must load"),
    };
    assert_eq!(restored.rows().len(), 1);
    assert_eq!(restored.rows()[0].raw.id, i64::MAX);
    assert!(matches!(
        restored.record_text("new".to_owned(), metadata(2)),
        Err(ClipboardError::Storage(StorageError::Unavailable))
    ));
}

#[test]
fn history_isolates_corrupt_file_json_but_propagates_database_failures() {
    let (files, mut service) = service();
    let valid = service.record_text("still visible".to_owned(), metadata(10)).unwrap().item.unwrap();
    let source = files.add_file("C:\\Temp\\isolated.txt", 8);
    let corrupt = service.record_files(vec![source], metadata(20)).unwrap().item.unwrap();
    let rows: Vec<_> = service
        .rows()
        .iter()
        .map(|row| {
            let mut raw = opendesktools::history::RawClipboardHistoryItem {
                id: row.raw.id,
                content_type: row.raw.content_type.clone(),
                text_content: row.raw.text_content.clone(),
                file_path: row.raw.file_path.clone(),
                source_application: row.raw.source_application.clone(),
                source_process: row.raw.source_process.clone(),
                captured_at_ms: row.raw.captured_at_ms,
                byte_size: row.raw.byte_size,
                is_favorite: row.raw.is_favorite,
                content_revision: row.raw.content_revision,
                source_icon_path: row.raw.source_icon_path.clone(),
                file_paths_json: row.raw.file_paths_json.clone(),
            };
            if raw.id == corrupt.id {
                raw.file_paths_json = Some("{malformed".to_owned());
            }
            opendesktools::service::HistoryRow { raw, content_hash: row.content_hash.clone() }
        })
        .collect();
    let mut reloaded = match ClipboardService::try_initialize(SettingsStore::new(), rows, files.clone()) {
        Ok(service) => service,
        Err(_) => panic!("the history must load"),
    };

    let page = reloaded.query_history(all(100)).unwrap();
    assert_eq!(page.total_count, 1);
    assert_eq!(page.items.len(), 1);
    assert_eq!(page.items[0].id, valid.id);
    assert_eq!(reloaded.corrupt_history_row_observations(), 1);

    assert!(matches!(reloaded.query_history(all(0)), Err(ClipboardError::InvalidLimit)));
    assert_eq!(reloaded.corrupt_history_row_observations(), 1);
}
