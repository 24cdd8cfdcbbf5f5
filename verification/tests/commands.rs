use opendesktools::clipboard_commands::{
    action_dto, file_display_category, map_input_error, monitoring_dto, parse_id,
    sanitize_clipboard_preview_debug_detail, ClipboardMonitoringDto,
    MAX_CLIPBOARD_PREVIEW_DEBUG_DETAIL_BYTES,
};
use opendesktools::commands::capture::{
    capture_report, CaptureAction, CaptureActionResult, CaptureCommandErrorDto, map_pin_error, map_screenshot_error, PinImageError, ScreenshotError, ScreenshotServiceError,
};
use opendesktools::commands::general::{
    build_view_model, display_data_directory, elevated_autostart_error,
    tray_visibility_failure_message, GeneralBehavior,
};
use opendesktools::commands::hotkey::{
    build_system_hotkey_notice, map_validation_error, DisabledHotkeysOutcome,
    HotkeyBindingClassification, HotkeyRegistrationSnapshot, HotkeyRuntimeState, HotkeySnapshot,
    HotkeyValidationError,
};
use opendesktools::commands::overview;
use opendesktools::commands::qr::{
    conversion_dto, map_error as map_qr_error, QrConversionKind, QrConversionResult, QrError,
};
use opendesktools::controller::HotkeyActionId;
use opendesktools::input::{
    ClipboardActionKind, ClipboardActionOutcome, ClipboardInputError, SurfaceError,
};
use opendesktools::listener::ClipboardListenerStatus;
use opendesktools::startup::ApplicationStatus;
use opendesktools::writer::ClipboardWriterError;

#[test]
fn view_model_carries_every_general_preference() {
    let view_model = build_view_model(
        "1.2.3".to_owned(),
        GeneralBehavior {
            autostart_enabled: true,
            elevated_autostart_enabled: true,
            start_minimized: true,
            close_to_tray: false,
            tray_icon_visible: true,
            administrator_mode: true,
            crash_diagnostics_enabled: true,
        },
        r"C:\OpenDeskToolsTestData\com.opendesktools.app".to_owned(),
    );

    assert_eq!(view_model.version, "1.2.3");
    assert!(view_model.autostart_enabled);
    assert!(view_model.elevated_autostart_enabled);
    assert!(view_model.start_minimized);
    assert!(!view_model.close_to_tray);
    assert!(view_model.tray_icon_visible);
    assert!(view_model.administrator_mode);
    assert!(view_model.crash_diagnostics_enabled);
    assert_eq!(
        view_model.data_directory,
        r"C:\OpenDeskToolsTestData\com.opendesktools.app"
    );
}

#[test]
fn display_data_directory_strips_the_verbatim_prefix() {
    assert_eq!(
        display_data_directory(r"\\?\C:\OpenDeskToolsTestData\com.opendesktools.app"),
        r"C:\OpenDeskToolsTestData\com.opendesktools.app"
    );
    assert_eq!(display_data_directory("/var/tmp/odt"), "/var/tmp/odt");
}

#[test]
fn tray_visibility_failure_distinguishes_successful_and_failed_rollback() {
    let apply = "tray unavailable";
    assert!(
        tray_visibility_failure_message(apply, None).contains("保存状态已回滚"),
        "successful rollback must be explicit"
    );
    let rollback = "storage lock is poisoned";
    assert!(
        tray_visibility_failure_message(apply, Some(rollback)).contains("回滚失败"),
        "failed rollback must not be reported as a normal apply failure"
    );
}

fn win_v_snapshot(
    configured_enabled: bool,
    force_override_system: bool,
    action_available: bool,
    binding: &str,
) -> HotkeySnapshot {
    HotkeySnapshot {
        revision: 1,
        actions: vec![HotkeyRegistrationSnapshot {
            action_id: HotkeyActionId::ClipboardOpenPanel,
            binding: binding.to_owned(),
            configured_enabled,
            force_override_system,
            action_available,
            classification: HotkeyBindingClassification::SystemReserved,
            runtime_state: HotkeyRuntimeState::Registered,
            runtime_backend: None,
            detail: None,
        }],
    }
}

fn outcome(changed: bool, managed: &str) -> DisabledHotkeysOutcome {
    DisabledHotkeysOutcome {
        changed,
        managed_letters: managed.chars().collect(),
        registry_value: managed.to_owned(),
    }
}

#[test]
fn notice_emitted_only_when_registry_added_the_saved_win_letter() {
    let snapshot = win_v_snapshot(true, true, true, "Win+V");
    let notice = build_system_hotkey_notice(
        HotkeyActionId::ClipboardOpenPanel,
        &snapshot,
        Some(&outcome(true, "V")),
    )
    .expect("a changed registry with the managed letter should produce a notice");
    assert_eq!(notice.binding, "Win+V");
    assert_eq!(notice.letter, "V");
    assert!(notice.restart_required);
}

#[test]
fn notice_suppressed_when_registry_unchanged_or_letter_not_managed() {
    let snapshot = win_v_snapshot(true, true, true, "Win+V");
    assert!(build_system_hotkey_notice(
        HotkeyActionId::ClipboardOpenPanel,
        &snapshot,
        Some(&outcome(false, "V")),
    )
    .is_none());
    assert!(build_system_hotkey_notice(
        HotkeyActionId::ClipboardOpenPanel,
        &snapshot,
        Some(&outcome(true, "R")),
    )
    .is_none());
    assert!(
        build_system_hotkey_notice(HotkeyActionId::ClipboardOpenPanel, &snapshot, None).is_none()
    );
}

#[test]
fn notice_suppressed_for_disabled_unforced_or_non_win_letter_bindings() {
    let managed = outcome(true, "V");
    assert!(build_system_hotkey_notice(
        HotkeyActionId::ClipboardOpenPanel,
        &win_v_snapshot(false, true, true, "Win+V"),
        Some(&managed),
    )
    .is_none());
    assert!(build_system_hotkey_notice(
        HotkeyActionId::ClipboardOpenPanel,
        &win_v_snapshot(true, false, true, "Win+V"),
        Some(&managed),
    )
    .is_none());
    assert!(build_system_hotkey_notice(
        HotkeyActionId::ClipboardOpenPanel,
        &win_v_snapshot(true, true, true, "Win+Shift+S"),
        Some(&outcome(true, "")),
    )
    .is_none());
}

#[test]
fn notice_needs_the_saved_action_in_the_snapshot() {
    let snapshot = win_v_snapshot(true, true, true, "Win+V");
    assert!(build_system_hotkey_notice(
        HotkeyActionId::ScreenshotCapture,
        &snapshot,
        Some(&outcome(true, "V")),
    )
    .is_none());
}

#[test]
fn validation_errors_are_safe_stable_codes() {
    assert_eq!(
        map_validation_error(HotkeyValidationError::ForceRequired).code,
        "force_required"
    );
    assert_eq!(
        map_validation_error(HotkeyValidationError::Blocked).code,
        "blocked"
    );
    assert_eq!(
        map_validation_error(HotkeyValidationError::UnsupportedSequence).code,
        "unsupported_sequence"
    );
    assert_eq!(
        map_validation_error(HotkeyValidationError::UnknownAction("removed.action".to_owned())).code,
        "unknown_action"
    );
}

#[test]
fn conversion_messages_distinguish_internal_success_from_system_sync() {
    assert_eq!(
        conversion_dto(QrConversionResult {
            kind: QrConversionKind::TextToImage,
            system_clipboard_synced: false,
        })
        .message,
        "已生成二维码并保存到历史；系统剪贴板同步失败。"
    );
    assert_eq!(
        map_qr_error(QrError::NoLatestItem).code,
        "clipboard_history_empty"
    );
}

#[test]
fn capture_and_pin_errors_keep_stable_safe_messages() {
    assert_eq!(
        map_screenshot_error(ScreenshotServiceError::Screenshot(
            ScreenshotError::SessionAlreadyActive
        ))
        .code,
        "capture_busy"
    );
    assert_eq!(
        map_pin_error(&PinImageError::ImageUnavailable).code,
        "pin_image_unavailable"
    );
}

#[test]
fn clipboard_write_and_input_safety_failures_have_distinct_error_contracts() {
    let write = map_input_error(ClipboardInputError::Writer(ClipboardWriterError::WindowsApi(
        "SetClipboardData",
    )));
    assert_eq!(write.code, "clipboard_write_failed");
    assert!(write.retryable);
    assert!(write.message.contains("replacement began"));

    let cleanup = map_input_error(ClipboardInputError::InputCleanupDenied);
    assert_eq!(cleanup.code, "clipboard_input_cleanup_failed");
    assert!(!cleanup.retryable);
    assert!(cleanup.message.contains("synthetic input keys"));

    let attachment = map_input_error(ClipboardInputError::Surface(
        SurfaceError::InputAttachmentDenied,
    ));
    assert_eq!(attachment.code, "clipboard_input_denied");
    assert!(!attachment.retryable);
    assert!(attachment.message.contains("input thread"));

    let changed = map_input_error(ClipboardInputError::ClipboardChanged);
    assert_eq!(changed.code, "clipboard_operation_not_applied");
    assert!(changed.retryable);
    assert!(changed.message.contains("changed before"));
}

#[test]
fn action_outcome_reports_the_action_and_clipboard_update() {
    let copied = action_dto(ClipboardActionOutcome {
        action: ClipboardActionKind::Copied,
        clipboard_updated: true,
    });
    let input = action_dto(ClipboardActionOutcome {
        action: ClipboardActionKind::Input,
        clipboard_updated: true,
    });
    assert_eq!((copied.action, copied.clipboard_updated), ("copied", true));
    assert_eq!((input.action, input.clipboard_updated), ("input", true));
}

#[test]
fn preview_debug_surface_metrics_detail_is_bounded_and_single_line() {
    let detail = format!("line1\r\nline2\t\0{}", "界".repeat(2_000));
    let sanitized = sanitize_clipboard_preview_debug_detail(Some(detail)).unwrap();

    assert!(sanitized.starts_with("line1  line2  "));
    assert!(sanitized.len() <= MAX_CLIPBOARD_PREVIEW_DEBUG_DETAIL_BYTES, "detail exceeded the UTF-8 byte limit");
    assert!(sanitized.chars().all(|character| !character.is_control()));
    assert_eq!(sanitize_clipboard_preview_debug_detail(None), None);
}

#[test]
fn file_display_categories_are_safe() {
    assert_eq!(file_display_category(&["private-notes.txt".to_owned()]), "text");
    assert_eq!(file_display_category(&["photo.PNG".to_owned()]), "image");
    assert_eq!(file_display_category(&["archive.zip".to_owned()]), "files");
    assert_eq!(
        file_display_category(&["one.txt".to_owned(), "two.png".to_owned()]),
        "files"
    );
}

#[test]
fn listener_status_maps_to_monitoring_state() {
    assert_eq!(
        monitoring_dto(ClipboardListenerStatus::Stopped),
        ClipboardMonitoringDto::Paused
    );
    assert_eq!(
        monitoring_dto(ClipboardListenerStatus::Running),
        ClipboardMonitoringDto::Running
    );
    assert_eq!(
        monitoring_dto(ClipboardListenerStatus::Unavailable),
        ClipboardMonitoringDto::Unavailable
    );
}

#[test]
fn item_ids_are_canonical_positive_decimals() {
    assert_eq!(parse_id("42").unwrap(), 42);
    assert_eq!(parse_id("9223372036854775807").unwrap(), i64::MAX);
    for invalid_id in ["not-an-id", "01", "+1", "-1", "0", "9223372036854775808", ""] {
        let id_error = parse_id(invalid_id).unwrap_err();
        assert_eq!(id_error.code, "invalid_clipboard_item_id");
        assert!(!id_error.retryable);
    }
}

#[test]
fn overview_uses_runtime_state_and_legacy_ids() {
    let snapshot = win_v_snapshot(true, true, true, "Win+V");
    let view = overview::build_view_model(
        "9.8.7".to_owned(),
        ApplicationStatus::Running,
        true,
        Some(snapshot),
    );
    assert_eq!(view.version, "9.8.7");
    assert_eq!(view.service_state, "running");
    assert!(view.startup_enabled);
    let hotkeys = view.hotkeys.unwrap();
    assert_eq!(hotkeys.len(), 1);
    assert_eq!(hotkeys[0].id, "clipboardPanel");
    assert_eq!(hotkeys[0].binding.as_deref(), Some("Win+V"));
    assert_eq!(hotkeys[0].state.as_deref(), Some("normal"));
    assert!(view.statistics.is_none());
}

#[test]
fn elevated_autostart_failure_keeps_the_underlying_error() {
    let error = elevated_autostart_error("task scheduler denied");
    assert_eq!(error.code, "elevated_autostart_update_failed");
    assert_eq!(error.message, "管理员权限自启设置未生效：task scheduler denied");
}

#[test]
fn wide_strings_are_nul_terminated_utf16() {
    assert_eq!(opendesktools::text::wide("A界"), vec![0x41, 0x754c, 0]);
    assert_eq!(opendesktools::text::wide("🙂"), vec![0xd83d, 0xde42, 0]);
    assert_eq!(opendesktools::text::wide(""), vec![0]);
}

#[test]
fn screenshot_report_follows_the_action_and_the_history() {
    let (cancelled, notify) = capture_report(CaptureAction::Cancel, 3, 4, CaptureActionResult::Done, Ok(true));
    assert_eq!(cancelled.unwrap().status, "cancelled");
    assert!(!notify);
    let (saved, notify) = capture_report(CaptureAction::Save, 3, 4, CaptureActionResult::Done, Ok(true));
    let saved = saved.unwrap();
    assert_eq!((saved.status, saved.width, saved.height), ("saved", Some(3), Some(4)));
    assert!(notify);
    let (dismissed, _) =
        capture_report(CaptureAction::Save, 3, 4, CaptureActionResult::SaveCancelled, Ok(true));
    assert_eq!(dismissed.unwrap().message, "已取消保存截图。");
    let (failed, _) = capture_report(CaptureAction::Save, 3, 4, CaptureActionResult::SaveFailed, Ok(true));
    assert_eq!(failed.unwrap_err().code, "capture_save_failed");
    let error = CaptureCommandErrorDto { code: "x", message: "y", retryable: false };
    let (record_failed, notify) = capture_report(CaptureAction::Copy, 3, 4, CaptureActionResult::Done, Err(error));
    assert_eq!(record_failed, Err(error));
    assert!(!notify);
}
