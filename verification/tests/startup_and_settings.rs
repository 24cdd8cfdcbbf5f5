use opendesktools::controller::{
    request_route, should_broadcast_hotkey_action, ForcedSurfaceToggleError, HotkeyActionId,
    SurfaceRequest, SurfaceRequestRoute, SurfaceRequestSource,
};
use opendesktools::settings::{
    load, monitoring_enabled, parse_ignored_apps, parse_sensitive_rules, save,
    set_monitoring_enabled, ClipboardHistoryReuseStrategy, ClipboardSettings,
    ClipboardSettingsError,
};
use opendesktools::settings_store::SettingsStore;
use opendesktools::startup::{
    parse_data_dir_override, parse_with_build_mode, resolve_relative_data_root,
    ApplicationRuntimeError, DebugQaArgumentError, OPEN_CLIPBOARD_SURFACE_AFTER_MS,
    SCREENSHOT_PROBE,
};
use opendesktools::surface_window::ClipboardSurfaceCloseReason;

fn arguments(values: &[&str]) -> Vec<String> {
    values.iter().map(|value| value.to_string()).collect()
}

fn args(values: &[&str]) -> Vec<String> {
    std::iter::once("open-desk-tools.exe".to_owned())
        .chain(values.iter().map(|value| value.to_string()))
        .collect()
}

#[test]
fn data_directory_override_accepts_separate_and_equals_forms() {
    assert_eq!(
        parse_data_dir_override(&arguments(&["OpenDeskTools.exe", "--data-dir", "data"])).unwrap(),
        Some("data".to_owned())
    );
    assert_eq!(
        parse_data_dir_override(&arguments(&["OpenDeskTools.exe", "--data-dir=便携数据"])).unwrap(),
        Some("便携数据".to_owned())
    );
}

#[test]
fn data_directory_override_ignores_unrelated_arguments_and_preserves_default() {
    assert_eq!(
        parse_data_dir_override(&arguments(&["OpenDeskTools.exe", "--unrelated", "value"])).unwrap(),
        None
    );
}

#[test]
fn data_directory_override_rejects_missing_empty_and_duplicate_values() {
    for values in [
        vec!["OpenDeskTools.exe", "--data-dir"],
        vec!["OpenDeskTools.exe", "--data-dir="],
        vec!["OpenDeskTools.exe", "--data-dir", "--other"],
    ] {
        assert!(matches!(
            parse_data_dir_override(&arguments(&values)),
            Err(ApplicationRuntimeError::MissingDataDirectoryOverride)
        ));
    }

    assert!(matches!(
        parse_data_dir_override(&arguments(&[
            "OpenDeskTools.exe",
            "--data-dir",
            "first",
            "--data-dir=second"
        ])),
        Err(ApplicationRuntimeError::DuplicateDataDirectoryOverride)
    ));
}

#[test]
fn relative_data_directory_is_anchored_to_the_executable_directory() {
    let executable = "C:/Portable/OpenDeskTools/OpenDeskTools.exe";

    assert_eq!(
        resolve_relative_data_root(executable, "data").unwrap(),
        "C:/Portable/OpenDeskTools/data"
    );
}

#[test]
fn absolute_data_directory_override_does_not_depend_on_the_executable_directory() {
    let absolute = "/tmp/portable-data";
    assert_eq!(
        parse_data_dir_override(&[
            "OpenDeskTools.exe".to_owned(),
            format!("--data-dir={absolute}")
        ])
        .unwrap(),
        Some(absolute.to_owned())
    );
}

#[test]
fn root_relative_override_is_rejected_as_ambiguous() {
    let executable = "/opt/OpenDeskTools/OpenDeskTools";
    assert!(matches!(
        resolve_relative_data_root(executable, "/data"),
        Err(ApplicationRuntimeError::AmbiguousDataDirectoryOverride(path)) if path == "/data"
    ));
}

#[test]
fn debug_build_accepts_separate_and_equals_delay_forms() {
    assert_eq!(
        parse_with_build_mode(&args(&[OPEN_CLIPBOARD_SURFACE_AFTER_MS, "125"]), true)
            .unwrap()
            .open_clipboard_surface_after_ms,
        Some(125)
    );
    assert_eq!(
        parse_with_build_mode(&args(&["--qa-open-clipboard-surface-after-ms=0"]), true)
            .unwrap()
            .open_clipboard_surface_after_ms,
        Some(0)
    );
}

#[test]
fn screenshot_probe_is_explicit_debug_only_and_unique() {
    assert!(
        parse_with_build_mode(&args(&[SCREENSHOT_PROBE]), true)
            .unwrap()
            .screenshot_probe
    );
    assert_eq!(
        parse_with_build_mode(&args(&[SCREENSHOT_PROBE]), false),
        Err(DebugQaArgumentError::UnavailableInRelease)
    );
    assert_eq!(
        parse_with_build_mode(&args(&[SCREENSHOT_PROBE, SCREENSHOT_PROBE]), true),
        Err(DebugQaArgumentError::DuplicateScreenshotProbe)
    );
}

#[test]
fn release_build_rejects_the_qa_argument() {
    assert_eq!(
        parse_with_build_mode(&args(&[OPEN_CLIPBOARD_SURFACE_AFTER_MS, "10"]), false),
        Err(DebugQaArgumentError::UnavailableInRelease)
    );
    assert_eq!(
        parse_with_build_mode(&args(&["--qa-open-clipboard-surface-after-ms=10"]), false),
        Err(DebugQaArgumentError::UnavailableInRelease)
    );
}

#[test]
fn debug_delay_rejects_missing_duplicate_invalid_and_excessive_values() {
    assert_eq!(
        parse_with_build_mode(&args(&[OPEN_CLIPBOARD_SURFACE_AFTER_MS]), true),
        Err(DebugQaArgumentError::MissingDelay)
    );
    assert_eq!(
        parse_with_build_mode(
            &args(&[
                OPEN_CLIPBOARD_SURFACE_AFTER_MS,
                "1",
                OPEN_CLIPBOARD_SURFACE_AFTER_MS,
                "2"
            ]),
            true
        ),
        Err(DebugQaArgumentError::DuplicateDelay)
    );
    for value in ["-1", "abc", "300001"] {
        assert_eq!(
            parse_with_build_mode(&args(&[OPEN_CLIPBOARD_SURFACE_AFTER_MS, value]), true),
            Err(DebugQaArgumentError::InvalidDelay)
        );
    }
}

#[test]
fn native_hotkey_actions_do_not_broadcast_main_navigation_events() {
    assert!(!should_broadcast_hotkey_action(HotkeyActionId::ClipboardOpenPanel));
    assert!(!should_broadcast_hotkey_action(HotkeyActionId::ScreenshotCapture));
    assert!(!should_broadcast_hotkey_action(HotkeyActionId::ClipboardPinImage));
    for action in [HotkeyActionId::ClipboardQrConvert, HotkeyActionId::LauncherOpen] {
        assert!(should_broadcast_hotkey_action(action));
    }
}

#[test]
fn ordinary_toggle_and_debug_open_share_one_request_router() {
    assert_eq!(
        request_route(false, SurfaceRequest::Toggle, SurfaceRequestSource::OrdinaryHotkey),
        SurfaceRequestRoute::Open
    );
    assert_eq!(
        request_route(true, SurfaceRequest::Toggle, SurfaceRequestSource::OrdinaryHotkey),
        SurfaceRequestRoute::Close(ClipboardSurfaceCloseReason::HotkeyToggle)
    );
    assert_eq!(
        request_route(false, SurfaceRequest::Open, SurfaceRequestSource::DebugQa),
        SurfaceRequestRoute::Open
    );
    assert_eq!(
        request_route(true, SurfaceRequest::Open, SurfaceRequestSource::DebugQa),
        SurfaceRequestRoute::KeepOpen
    );
}

#[test]
fn forced_toggle_error_preserves_stage_specific_user_messages() {
    assert_eq!(
        ForcedSurfaceToggleError::Close("x".to_owned()).user_message(),
        "关闭剪贴板面板失败：x"
    );
    assert_eq!(
        ForcedSurfaceToggleError::Initialize("x".to_owned()).user_message(),
        "初始化剪贴板面板失败：x"
    );
    assert_eq!(
        ForcedSurfaceToggleError::Show("x".to_owned()).user_message(),
        "显示剪贴板面板失败：x"
    );
}

#[test]
fn monitoring_defaults_to_enabled_and_persists() {
    let mut storage = SettingsStore::new();
    assert!(monitoring_enabled(&storage).unwrap());
    set_monitoring_enabled(&mut storage, false).unwrap();
    assert!(!monitoring_enabled(&storage).unwrap());
}

#[test]
fn settings_round_trip_with_normalized_processes_and_regexes() {
    let mut storage = SettingsStore::new();
    let settings = ClipboardSettings {
        retention_days: Some(90),
        max_items: 300,
        ignored_apps: parse_ignored_apps("Notepad.EXE, chrome.exe").unwrap(),
        history_reuse_strategy: ClipboardHistoryReuseStrategy::Keep,
        sensitive_rules: parse_sensitive_rules("password\n\\btoken\\b").unwrap(),
    };
    save(&mut storage, &settings).unwrap();
    assert_eq!(load(&storage).unwrap(), settings);
}

#[test]
fn ignored_apps_are_lowercased_sorted_and_deduplicated() {
    assert_eq!(
        parse_ignored_apps("Notepad.EXE, chrome.exe\nnotepad.exe").unwrap(),
        vec!["chrome.exe".to_owned(), "notepad.exe".to_owned()]
    );
    assert!(parse_ignored_apps("notepad").is_err());
}

#[test]
fn invalid_regex_rules_are_rejected() {
    assert!(parse_sensitive_rules("(unclosed").is_err());
    assert_eq!(
        parse_sensitive_rules("  password  \n\n").unwrap(),
        vec!["password".to_owned()]
    );
}

#[test]
fn invalid_settings_are_not_saved() {
    let mut storage = SettingsStore::new();
    let settings = ClipboardSettings {
        max_items: 5,
        ..ClipboardSettings::default()
    };
    assert!(matches!(
        save(&mut storage, &settings),
        Err(ClipboardSettingsError::InvalidMaxItems)
    ));
    assert_eq!(load(&storage).unwrap(), ClipboardSettings::default());
}

#[test]
fn drive_relative_and_root_relative_overrides_are_rejected_as_ambiguous() {
    let windows = std::path::MAIN_SEPARATOR == '\\';
    let (executable, overrides): (&str, Vec<&str>) = if windows {
        (r"C:\Portable\OpenDeskTools\OpenDeskTools.exe", vec![r"\data", r"C:data"])
    } else {
        ("/opt/Portable/OpenDeskTools/OpenDeskTools", vec!["/data"])
    };
    for path in overrides {
        assert!(matches!(
            resolve_relative_data_root(executable, path),
            Err(ApplicationRuntimeError::AmbiguousDataDirectoryOverride(_))
        ));
    }
}
