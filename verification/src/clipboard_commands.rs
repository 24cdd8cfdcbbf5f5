//! What the clipboard history commands answer: their inputs, the data sent
//! back, and the stable error codes every failure maps to.
use vstd::prelude::*;

use crate::clipboard::{content_kind_name, ClipboardContentKind};
use crate::decimal::{digit_value, digits_value, is_digit, render_signed, signed_decimal};
use crate::history::{
    content_shape_ok, file_names, file_names_of, opt_text, opt_unit_lists, unit_lists, ClipboardError,
    ClipboardHistoryItem, ImageError,
};
use crate::input::{ClipboardInputCoordinator, InputApi, InputSurface};
use crate::service::{
    after_retention, answers, favorites, history_at, id_index, ClipboardFiles, ClipboardHistoryPage, ClipboardHistoryQuery, StoredRow,
    ClipboardService,
};
use crate::settings::{parse_ignored_apps, ignored_apps_result};
use crate::text_lists::{join_lines, join_with_newlines};
use crate::writer::{ClipboardOps, SequenceSuppressor};
use crate::input::{ClipboardActionKind, ClipboardActionOutcome, ClipboardInputError, SurfaceError};
use crate::listener::ClipboardListenerStatus;
use crate::settings::{settings_error, strategy_name, ClipboardHistoryReuseStrategy, ClipboardSettings, SettingsModel};
use crate::text::{chars_of, str_equal, string_from_chars};
use crate::text_lists::{ascii_lower, lower_ascii, string_views};
use crate::writer::ClipboardWriterError;

verus! {

/// Items a history page holds when the query names no limit.
pub const DEFAULT_HISTORY_LIMIT: u32 = 100;
/// Largest preview trace detail, in UTF-8 bytes.
pub const MAX_CLIPBOARD_PREVIEW_DEBUG_DETAIL_BYTES: usize = 4_096;

/// Which items a history query asks for.
#[derive(Debug, Clone, Copy, PartialEq, Eq, Structural)]
pub enum ClipboardHistoryScopeInput {
    All,
    Favorites,
}

/// A history query as the frontend sends it.
#[derive(Debug, Clone, PartialEq, Eq)]
pub struct ClipboardHistoryQueryInput {
    pub scope: ClipboardHistoryScopeInput,
    pub search: Option<String>,
    pub limit: Option<u32>,
}

/// A favorite toggle.
#[derive(Debug, Clone, PartialEq, Eq)]
pub struct ClipboardFavoriteInput {
    pub id: String,
    pub is_favorite: bool,
}

/// An item id as the frontend sends it: decimal text.
#[derive(Debug, Clone, PartialEq, Eq)]
pub struct ClipboardItemIdInput {
    pub id: String,
}

/// A monitoring switch.
#[derive(Debug, Clone, Copy, PartialEq, Eq, Structural)]
pub struct ClipboardMonitoringInput {
    pub enabled: bool,
}

/// The reuse strategy as the frontend names it.
#[derive(Debug, Clone, Copy, PartialEq, Eq, Structural)]
pub enum ClipboardHistoryReuseStrategyInput {
    Promote,
    Keep,
}

/// New history preferences as the frontend sends them.
#[derive(Debug, Clone, PartialEq, Eq)]
pub struct ClipboardSettingsInput {
    pub retention_days: Option<u16>,
    pub max_items: u32,
    pub ignored_apps: Vec<String>,
    pub history_reuse_strategy: ClipboardHistoryReuseStrategyInput,
    pub sensitive_rules: Vec<String>,
}

/// A text edit.
#[derive(Debug, Clone, PartialEq, Eq)]
pub struct ClipboardTextUpdateInput {
    pub id: String,
    pub text_content: String,
    pub expected_revision: u64,
}

/// Preview events the frontend traces.
#[derive(Debug, Clone, Copy, PartialEq, Eq, Structural)]
pub enum ClipboardPreviewDebugEventInput {
    OpenRequested,
    OpenResolved,
    OpenFailed,
    CloseScheduled,
    CloseCanceled,
    CloseFired,
    CloseRequested,
    CloseResolved,
    CloseFailed,
    HoverInside,
    HoverOutside,
    WindowBlurIgnored,
    SurfaceMetrics,
}

impl ClipboardPreviewDebugEventInput {
    /// The event's name in traces.
    pub fn as_str(self) -> (name: &'static str)
        ensures
            name@ == match self {
                ClipboardPreviewDebugEventInput::OpenRequested => "open_requested"@,
                ClipboardPreviewDebugEventInput::OpenResolved => "open_resolved"@,
                ClipboardPreviewDebugEventInput::OpenFailed => "open_failed"@,
                ClipboardPreviewDebugEventInput::CloseScheduled => "close_scheduled"@,
                ClipboardPreviewDebugEventInput::CloseCanceled => "close_canceled"@,
                ClipboardPreviewDebugEventInput::CloseFired => "close_fired"@,
                ClipboardPreviewDebugEventInput::CloseRequested => "close_requested"@,
                ClipboardPreviewDebugEventInput::CloseResolved => "close_resolved"@,
                ClipboardPreviewDebugEventInput::CloseFailed => "close_failed"@,
                ClipboardPreviewDebugEventInput::HoverInside => "hover_inside"@,
                ClipboardPreviewDebugEventInput::HoverOutside => "hover_outside"@,
                ClipboardPreviewDebugEventInput::WindowBlurIgnored => "window_blur_ignored"@,
                ClipboardPreviewDebugEventInput::SurfaceMetrics => "surface_metrics"@,
            },
    {
        match self {
            ClipboardPreviewDebugEventInput::OpenRequested => "open_requested",
            ClipboardPreviewDebugEventInput::OpenResolved => "open_resolved",
            ClipboardPreviewDebugEventInput::OpenFailed => "open_failed",
            ClipboardPreviewDebugEventInput::CloseScheduled => "close_scheduled",
            ClipboardPreviewDebugEventInput::CloseCanceled => "close_canceled",
            ClipboardPreviewDebugEventInput::CloseFired => "close_fired",
            ClipboardPreviewDebugEventInput::CloseRequested => "close_requested",
            ClipboardPreviewDebugEventInput::CloseResolved => "close_resolved",
            ClipboardPreviewDebugEventInput::CloseFailed => "close_failed",
            ClipboardPreviewDebugEventInput::HoverInside => "hover_inside",
            ClipboardPreviewDebugEventInput::HoverOutside => "hover_outside",
            ClipboardPreviewDebugEventInput::WindowBlurIgnored => "window_blur_ignored",
            ClipboardPreviewDebugEventInput::SurfaceMetrics => "surface_metrics",
        }
    }
}

/// A history item as the frontend sees it: no file paths, only file names.
#[derive(Debug, Clone, PartialEq, Eq)]
pub struct ClipboardHistoryItemDto {
    pub id: String,
    pub kind: &'static str,
    pub text_content: Option<String>,
    pub source_application: Option<String>,
    pub source_process: Option<String>,
    pub captured_at_ms: u64,
    pub byte_size: u64,
    pub is_favorite: bool,
    pub revision: u64,
    pub source_icon_available: bool,
    pub file_count: Option<u32>,
    pub file_names: Option<Vec<String>>,
    pub display_category: &'static str,
}

/// History preferences as the frontend sees them.
#[derive(Debug, Clone, PartialEq, Eq)]
pub struct ClipboardSettingsDto {
    pub retention_days: Option<u16>,
    pub max_items: u32,
    pub ignored_apps: Vec<String>,
    pub history_reuse_strategy: &'static str,
    pub sensitive_rules: Vec<String>,
}

/// Whether monitoring runs.
#[derive(Debug, Clone, Copy, PartialEq, Eq, Structural)]
pub enum ClipboardMonitoringDto {
    Running,
    Paused,
    Unavailable,
}

/// A page of history with the state the history view shows beside it.
#[derive(Debug, PartialEq, Eq)]
pub struct ClipboardHistoryPageDto {
    pub items: Vec<ClipboardHistoryItemDto>,
    pub total_count: u64,
    pub monitoring: ClipboardMonitoringDto,
    pub input_available: bool,
    pub surface_active: bool,
    pub settings: ClipboardSettingsDto,
}

/// Saved preferences and how many items they removed.
#[derive(Debug, Clone, PartialEq, Eq)]
pub struct ClipboardSettingsUpdateDto {
    pub settings: ClipboardSettingsDto,
    pub removed_count: u64,
}

/// Whether a delete removed an item.
#[derive(Debug, Clone, Copy, PartialEq, Eq, Structural)]
pub struct ClipboardDeleteResultDto {
    pub deleted: bool,
}

/// How many items a clear removed.
#[derive(Debug, Clone, Copy, PartialEq, Eq, Structural)]
pub struct ClipboardClearResultDto {
    pub deleted_count: u64,
}

/// What a copy or paste did.
#[derive(Debug, Clone, Copy, PartialEq, Eq)]
pub struct ClipboardActionResultDto {
    pub action: &'static str,
    pub clipboard_updated: bool,
}

/// What closing the surface did.
#[derive(Debug, Clone, Copy, PartialEq, Eq, Structural)]
pub struct ClipboardSurfaceCloseResultDto {
    pub closed: bool,
    pub input_available: bool,
}

/// A failure as the frontend sees it: a stable code, a safe message, and
/// whether retrying may help.
#[derive(Debug, Clone, Copy, PartialEq, Eq)]
pub struct ClipboardCommandErrorDto {
    pub code: &'static str,
    pub message: &'static str,
    pub retryable: bool,
}

impl ClipboardCommandErrorDto {
    /// The error as values.
    pub open spec fn contract(&self) -> (Seq<char>, Seq<char>, bool) {
        (self.code@, self.message@, self.retryable)
    }
}

/// The error for a failed clipboard write.
pub open spec fn write_unavailable_contract() -> (Seq<char>, Seq<char>, bool) {
    ("clipboard_write_unavailable"@, "Clipboard writing is temporarily unavailable."@, true)
}

/// The error for a content row the history view cannot show.
pub open spec fn content_unavailable_contract() -> (Seq<char>, Seq<char>, bool) {
    ("clipboard_content_unavailable"@, "This clipboard content is unavailable."@, false)
}

/// The error for an id that is not canonical decimal text.
pub open spec fn invalid_id_contract() -> (Seq<char>, Seq<char>, bool) {
    ("invalid_clipboard_item_id"@, "Clipboard history item id is invalid."@, false)
}

/// The error for an unavailable history.
pub open spec fn history_unavailable_contract() -> (Seq<char>, Seq<char>, bool) {
    ("clipboard_history_unavailable"@, "Clipboard history is temporarily unavailable."@, true)
}

/// The error for an unavailable source icon.
pub open spec fn source_icon_unavailable_contract() -> (Seq<char>, Seq<char>, bool) {
    ("clipboard_source_icon_unavailable"@, "Source application icon is unavailable."@, false)
}

/// The error for a failed clipboard write.
pub fn window_unavailable_error() -> (dto: ClipboardCommandErrorDto)
    ensures
        dto.contract() == write_unavailable_contract(),
{
    ClipboardCommandErrorDto {
        code: "clipboard_write_unavailable",
        message: "Clipboard writing is temporarily unavailable.",
        retryable: true,
    }
}

/// The error for a surface underlay color that is not `#RRGGBB`.
pub fn invalid_surface_underlay_color_error() -> (dto: ClipboardCommandErrorDto)
    ensures
        dto.contract() == (
            "invalid_clipboard_surface_underlay_color"@,
            "Clipboard surface underlay color must use #RRGGBB format."@,
            false,
        ),
{
    ClipboardCommandErrorDto {
        code: "invalid_clipboard_surface_underlay_color",
        message: "Clipboard surface underlay color must use #RRGGBB format.",
        retryable: false,
    }
}

/// The error for a surface background that could not be set.
pub fn surface_underlay_unavailable_error() -> (dto: ClipboardCommandErrorDto)
    ensures
        dto.contract() == (
            "clipboard_surface_underlay_unavailable"@,
            "Clipboard surface background is temporarily unavailable."@,
            true,
        ),
{
    ClipboardCommandErrorDto {
        code: "clipboard_surface_underlay_unavailable",
        message: "Clipboard surface background is temporarily unavailable.",
        retryable: true,
    }
}

/// The error for a content row the history view cannot show.
pub fn clipboard_content_unavailable_error() -> (dto: ClipboardCommandErrorDto)
    ensures
        dto.contract() == content_unavailable_contract(),
{
    ClipboardCommandErrorDto {
        code: "clipboard_content_unavailable",
        message: "This clipboard content is unavailable.",
        retryable: false,
    }
}

/// The error for a monitoring switch that did not apply.
pub fn monitoring_unavailable_error() -> (dto: ClipboardCommandErrorDto)
    ensures
        dto.contract() == ("clipboard_monitoring_unavailable"@, "剪贴板监控状态未能更新，请重试。"@, true),
{
    ClipboardCommandErrorDto {
        code: "clipboard_monitoring_unavailable",
        message: "剪贴板监控状态未能更新，请重试。",
        retryable: true,
    }
}

/// The error for an unavailable source icon.
pub fn source_icon_unavailable_error() -> (dto: ClipboardCommandErrorDto)
    ensures
        dto.contract() == source_icon_unavailable_contract(),
{
    ClipboardCommandErrorDto {
        code: "clipboard_source_icon_unavailable",
        message: "Source application icon is unavailable.",
        retryable: false,
    }
}

/// The error each history failure maps to.
pub open spec fn clipboard_error_contract(error: ClipboardError) -> (Seq<char>, Seq<char>, bool) {
    match error {
        ClipboardError::InvalidLimit | ClipboardError::SearchTooLong => (
            "invalid_clipboard_history_query"@,
            "Clipboard history query is invalid."@,
            false,
        ),
        ClipboardError::NotFound => ("clipboard_item_not_found"@, "Clipboard history item was not found."@, false),
        ClipboardError::EmptyText => ("clipboard_edit_empty"@, "Clipboard text must not be empty."@, false),
        ClipboardError::DuplicateText => (
            "clipboard_edit_duplicate"@,
            "The same text already exists in clipboard history."@,
            false,
        ),
        ClipboardError::RevisionConflict => (
            "clipboard_revision_conflict"@,
            "Clipboard history changed; reload and retry."@,
            true,
        ),
        ClipboardError::TextTooLarge | ClipboardError::InvalidFiles | ClipboardError::SourceApplicationTooLong
        | ClipboardError::SourceProcessTooLong | ClipboardError::NumericRange => (
            "invalid_clipboard_content"@,
            "Clipboard content is invalid."@,
            false,
        ),
        ClipboardError::FilesUnavailable => (
            "clipboard_files_unavailable"@,
            "One or more clipboard files are no longer available."@,
            false,
        ),
        ClipboardError::Settings(_) => ("invalid_clipboard_settings"@, "Clipboard settings are invalid."@, false),
        ClipboardError::Image(ImageError::TooLarge) => (
            "clipboard_image_too_large"@,
            "Clipboard image exceeds the supported size."@,
            false,
        ),
        ClipboardError::Image(ImageError::Missing) | ClipboardError::Image(ImageError::Corrupt)
        | ClipboardError::Image(ImageError::InvalidReference) | ClipboardError::Image(ImageError::InvalidImage) => (
            "clipboard_image_unavailable"@,
            "Clipboard image is unavailable."@,
            false,
        ),
        ClipboardError::SourceIcon => source_icon_unavailable_contract(),
        _ => history_unavailable_contract(),
    }
}

/// The frontend error for a history failure.
pub fn map_error(error: ClipboardError) -> (dto: ClipboardCommandErrorDto)
    ensures
        dto.contract() == clipboard_error_contract(error),
{
    match error {
        ClipboardError::InvalidLimit | ClipboardError::SearchTooLong => ClipboardCommandErrorDto {
            code: "invalid_clipboard_history_query",
            message: "Clipboard history query is invalid.",
            retryable: false,
        },
        ClipboardError::NotFound => ClipboardCommandErrorDto {
            code: "clipboard_item_not_found",
            message: "Clipboard history item was not found.",
            retryable: false,
        },
        ClipboardError::EmptyText => ClipboardCommandErrorDto {
            code: "clipboard_edit_empty",
            message: "Clipboard text must not be empty.",
            retryable: false,
        },
        ClipboardError::DuplicateText => ClipboardCommandErrorDto {
            code: "clipboard_edit_duplicate",
            message: "The same text already exists in clipboard history.",
            retryable: false,
        },
        ClipboardError::RevisionConflict => ClipboardCommandErrorDto {
            code: "clipboard_revision_conflict",
            message: "Clipboard history changed; reload and retry.",
            retryable: true,
        },
        ClipboardError::TextTooLarge | ClipboardError::InvalidFiles | ClipboardError::SourceApplicationTooLong
        | ClipboardError::SourceProcessTooLong | ClipboardError::NumericRange => ClipboardCommandErrorDto {
            code: "invalid_clipboard_content",
            message: "Clipboard content is invalid.",
            retryable: false,
        },
        ClipboardError::FilesUnavailable => ClipboardCommandErrorDto {
            code: "clipboard_files_unavailable",
            message: "One or more clipboard files are no longer available.",
            retryable: false,
        },
        ClipboardError::Settings(_) => ClipboardCommandErrorDto {
            code: "invalid_clipboard_settings",
            message: "Clipboard settings are invalid.",
            retryable: false,
        },
        ClipboardError::Image(ImageError::TooLarge) => ClipboardCommandErrorDto {
            code: "clipboard_image_too_large",
            message: "Clipboard image exceeds the supported size.",
            retryable: false,
        },
        ClipboardError::Image(ImageError::Missing) | ClipboardError::Image(ImageError::Corrupt)
        | ClipboardError::Image(ImageError::InvalidReference) | ClipboardError::Image(ImageError::InvalidImage) => {
            ClipboardCommandErrorDto {
                code: "clipboard_image_unavailable",
                message: "Clipboard image is unavailable.",
                retryable: false,
            }
        },
        ClipboardError::SourceIcon => source_icon_unavailable_error(),
        _ => ClipboardCommandErrorDto {
            code: "clipboard_history_unavailable",
            message: "Clipboard history is temporarily unavailable.",
            retryable: true,
        },
    }
}

/// The error each surface failure maps to.
pub open spec fn surface_error_contract(error: SurfaceError) -> (Seq<char>, Seq<char>, bool) {
    match error {
        SurfaceError::FocusDenied => (
            "clipboard_target_focus_denied"@,
            "Windows did not allow the target application to receive focus."@,
            true,
        ),
        SurfaceError::InputAttachmentDenied => (
            "clipboard_input_denied"@,
            "Windows did not allow access to the target input thread."@,
            false,
        ),
        SurfaceError::TargetUnavailable => (
            "clipboard_target_unavailable"@,
            "The original target application is no longer available."@,
            false,
        ),
        _ => write_unavailable_contract(),
    }
}

/// The frontend error for a surface failure.
pub fn map_surface_error(error: SurfaceError) -> (dto: ClipboardCommandErrorDto)
    ensures
        dto.contract() == surface_error_contract(error),
{
    match error {
        SurfaceError::FocusDenied => ClipboardCommandErrorDto {
            code: "clipboard_target_focus_denied",
            message: "Windows did not allow the target application to receive focus.",
            retryable: true,
        },
        SurfaceError::InputAttachmentDenied => ClipboardCommandErrorDto {
            code: "clipboard_input_denied",
            message: "Windows did not allow access to the target input thread.",
            retryable: false,
        },
        SurfaceError::TargetUnavailable => ClipboardCommandErrorDto {
            code: "clipboard_target_unavailable",
            message: "The original target application is no longer available.",
            retryable: false,
        },
        SurfaceError::LockPoisoned | SurfaceError::UnsupportedPlatform => window_unavailable_error(),
    }
}

/// The error each copy or paste failure maps to.
pub open spec fn input_error_contract(error: ClipboardInputError) -> (Seq<char>, Seq<char>, bool) {
    match error {
        ClipboardInputError::Clipboard(inner) => clipboard_error_contract(inner),
        ClipboardInputError::Surface(inner) => surface_error_contract(inner),
        ClipboardInputError::Writer(ClipboardWriterError::WindowsApi(name)) => if name@ == "SetClipboardData"@ {
            (
                "clipboard_write_failed"@,
                "Windows rejected the selected clipboard data after replacement began."@,
                true,
            )
        } else {
            write_unavailable_contract()
        },
        ClipboardInputError::InputCleanupDenied => (
            "clipboard_input_cleanup_failed"@,
            "Windows did not release the synthetic input keys safely."@,
            false,
        ),
        ClipboardInputError::ModifierPressed | ClipboardInputError::InputDenied => (
            "clipboard_input_denied"@,
            "Windows did not allow input to the target application."@,
            false,
        ),
        ClipboardInputError::ClipboardChanged => (
            "clipboard_operation_not_applied"@,
            "The clipboard changed before the selected history item could be written."@,
            true,
        ),
        ClipboardInputError::Writer(_) => write_unavailable_contract(),
    }
}

/// The frontend error for a copy or paste failure.
pub fn map_input_error(error: ClipboardInputError) -> (dto: ClipboardCommandErrorDto)
    ensures
        dto.contract() == input_error_contract(error),
{
    match error {
        ClipboardInputError::Clipboard(inner) => map_error(inner),
        ClipboardInputError::Surface(inner) => map_surface_error(inner),
        ClipboardInputError::Writer(ClipboardWriterError::WindowsApi(name)) => {
            if str_equal(name, "SetClipboardData") {
                ClipboardCommandErrorDto {
                    code: "clipboard_write_failed",
                    message: "Windows rejected the selected clipboard data after replacement began.",
                    retryable: true,
                }
            } else {
                window_unavailable_error()
            }
        },
        ClipboardInputError::InputCleanupDenied => ClipboardCommandErrorDto {
            code: "clipboard_input_cleanup_failed",
            message: "Windows did not release the synthetic input keys safely.",
            retryable: false,
        },
        ClipboardInputError::ModifierPressed | ClipboardInputError::InputDenied => ClipboardCommandErrorDto {
            code: "clipboard_input_denied",
            message: "Windows did not allow input to the target application.",
            retryable: false,
        },
        ClipboardInputError::ClipboardChanged => ClipboardCommandErrorDto {
            code: "clipboard_operation_not_applied",
            message: "The clipboard changed before the selected history item could be written.",
            retryable: true,
        },
        ClipboardInputError::Writer(_) => window_unavailable_error(),
    }
}

/// What a copy or paste reports.
pub fn action_dto(outcome: ClipboardActionOutcome) -> (dto: ClipboardActionResultDto)
    ensures
        dto.action@ == match outcome.action {
            ClipboardActionKind::Copied => "copied"@,
            ClipboardActionKind::Input => "input"@,
        },
        dto.clipboard_updated == outcome.clipboard_updated,
{
    ClipboardActionResultDto {
        action: match outcome.action {
            ClipboardActionKind::Copied => "copied",
            ClipboardActionKind::Input => "input",
        },
        clipboard_updated: outcome.clipboard_updated,
    }
}

/// What the listener status shows as: a stopped listener is paused.
pub fn monitoring_dto(status: ClipboardListenerStatus) -> (dto: ClipboardMonitoringDto)
    ensures
        dto == match status {
            ClipboardListenerStatus::Running => ClipboardMonitoringDto::Running,
            ClipboardListenerStatus::Stopped => ClipboardMonitoringDto::Paused,
            ClipboardListenerStatus::Unavailable => ClipboardMonitoringDto::Unavailable,
        },
{
    match status {
        ClipboardListenerStatus::Running => ClipboardMonitoringDto::Running,
        ClipboardListenerStatus::Stopped => ClipboardMonitoringDto::Paused,
        ClipboardListenerStatus::Unavailable => ClipboardMonitoringDto::Unavailable,
    }
}

/// The preferences as the frontend sees them.
pub fn settings_dto(settings: ClipboardSettings) -> (dto: ClipboardSettingsDto)
    ensures
        dto.retention_days == settings.retention_days,
        dto.max_items == settings.max_items,
        string_views(dto.ignored_apps@) == string_views(settings.ignored_apps@),
        dto.history_reuse_strategy@ == strategy_name(settings.history_reuse_strategy),
        string_views(dto.sensitive_rules@) == string_views(settings.sensitive_rules@),
{
    ClipboardSettingsDto {
        retention_days: settings.retention_days,
        max_items: settings.max_items,
        ignored_apps: settings.ignored_apps,
        history_reuse_strategy: settings.history_reuse_strategy.as_str(),
        sensitive_rules: settings.sensitive_rules,
    }
}

/// The id canonical decimal text spells: a digit from 1 to 9, then ASCII
/// digits, at most `i64::MAX`.
pub open spec fn canonical_id(text: Seq<char>) -> Option<int> {
    if text.len() > 0 && '1' <= text[0] <= '9' && (forall|i: int| 0 <= i < text.len() ==> is_digit(#[trigger] text[i]))
        && digits_value(text) <= i64::MAX {
        Some(digits_value(text))
    } else {
        None
    }
}

proof fn lemma_digits_prefix_grows(digits: Seq<char>, k: int)
    requires
        0 <= k <= digits.len(),
        forall|i: int| 0 <= i < digits.len() ==> is_digit(#[trigger] digits[i]),
    ensures
        digits_value(digits.subrange(0, k)) <= digits_value(digits),
    decreases digits.len() - k,
{
    if k < digits.len() {
        lemma_digits_prefix_grows(digits, k + 1);
        let longer = digits.subrange(0, k + 1);
        assert(longer.drop_last() =~= digits.subrange(0, k));
        assert(is_digit(longer.last()));
        assert(digits_value(longer.drop_last()) >= 0) by {
            lemma_digits_nonnegative(longer.drop_last());
        }
    } else {
        assert(digits.subrange(0, k) =~= digits);
    }
}

proof fn lemma_digits_nonnegative(digits: Seq<char>)
    requires
        forall|i: int| 0 <= i < digits.len() ==> is_digit(#[trigger] digits[i]),
    ensures
        digits_value(digits) >= 0,
    decreases digits.len(),
{
    if digits.len() > 0 {
        let front = digits.drop_last();
        assert forall|i: int| 0 <= i < front.len() implies is_digit(#[trigger] front[i]) by {
            assert(front[i] == digits[i]);
        }
        lemma_digits_nonnegative(front);
        assert(is_digit(digits[digits.len() - 1]));
    }
}

/// Reads an item id: canonical decimal text (no sign, no leading zero)
/// within `i64`.
pub fn parse_id(value: &str) -> (result: Result<i64, ClipboardCommandErrorDto>)
    ensures
        match canonical_id(value@) {
            Some(id) => result == Ok::<i64, ClipboardCommandErrorDto>(id as i64),
            None => result matches Err(dto) && dto.contract() == invalid_id_contract(),
        },
        result matches Ok(id) ==> id > 0,
{
    let invalid = ClipboardCommandErrorDto {
        code: "invalid_clipboard_item_id",
        message: "Clipboard history item id is invalid.",
        retryable: false,
    };
    let chars = chars_of(value);
    if chars.len() == 0 || !('1' <= chars[0] && chars[0] <= '9') {
        return Err(invalid);
    }
    let mut id: u64 = 0;
    let mut i: usize = 0;
    while i < chars.len()
        invariant
            i <= chars@.len(),
            chars@ == value@,
            chars@.len() > 0,
            '1' <= chars@[0] <= '9',
            invalid.contract() == invalid_id_contract(),
            forall|k: int| 0 <= k < i ==> is_digit(#[trigger] chars@[k]),
            id == digits_value(chars@.subrange(0, i as int)),
            id <= i64::MAX,
            i > 0 ==> id > 0,
        decreases chars.len() - i,
    {
        let c = chars[i];
        let ghost prefix = chars@.subrange(0, i + 1);
        assert(prefix.drop_last() =~= chars@.subrange(0, i as int));
        let code = c as u32;
        if !(48 <= code && code <= 57) {
            assert(!is_digit(chars@[i as int]));
            return Err(invalid);
        }
        let d = (code - 48) as u64;
        assert(digit_value(c) == d);
        if id > (9_223_372_036_854_775_807u64 - d) / 10 {
            proof {
                assert(id * 10 + d > i64::MAX) by (nonlinear_arith)
                    requires
                        id > (9_223_372_036_854_775_807u64 - d) / 10,
                        d <= 9,
                ;
                assert(digits_value(prefix) == id * 10 + d);
                if forall|k: int| 0 <= k < chars@.len() ==> is_digit(#[trigger] chars@[k]) {
                    lemma_digits_prefix_grows(chars@, i + 1);
                }
            }
            return Err(invalid);
        }
        proof {
            assert(id * 10 + d <= i64::MAX) by (nonlinear_arith)
                requires
                    id <= (9_223_372_036_854_775_807u64 - d) / 10,
                    d <= 9,
            ;
        }
        id = id * 10 + d;
        i += 1;
    }
    assert(chars@.subrange(0, chars@.len() as int) =~= chars@);
    Ok(id as i64)
}

/// The extension after the last `.` of a name, ASCII-lowercased.
pub open spec fn lowered_extension(name: Seq<char>) -> Option<Seq<char>> {
    if exists|i: int| 0 <= i < name.len() && name[i] == '.' {
        let dot = choose|i: int| 0 <= i < name.len() && name[i] == '.' && forall|j: int| i < j < name.len() ==> name[j] != '.';
        Some(lower_ascii(name.subrange(dot + 1, name.len() as int)))
    } else {
        None
    }
}

/// Extensions shown as text.
pub open spec fn is_text_extension(ext: Seq<char>) -> bool {
    ext == "txt"@ || ext == "md"@ || ext == "log"@ || ext == "csv"@ || ext == "json"@ || ext == "xml"@ || ext
        == "yaml"@ || ext == "yml"@
}

/// Extensions shown as images.
pub open spec fn is_image_extension(ext: Seq<char>) -> bool {
    ext == "png"@ || ext == "jpg"@ || ext == "jpeg"@ || ext == "gif"@ || ext == "bmp"@ || ext == "webp"@ || ext
        == "tif"@ || ext == "tiff"@ || ext == "ico"@
}

/// How a file list is shown: a single text or image file by its
/// extension, anything else as files.
pub open spec fn display_category_of(names: Seq<Seq<char>>) -> Seq<char> {
    if names.len() != 1 {
        "files"@
    } else {
        match lowered_extension(names[0]) {
            Some(ext) => if is_text_extension(ext) {
                "text"@
            } else if is_image_extension(ext) {
                "image"@
            } else {
                "files"@
            },
            None => "files"@,
        }
    }
}

/// The lowercased extension of a name.
fn extension_of(name: &str) -> (result: Option<String>)
    ensures
        match lowered_extension(name@) {
            Some(ext) => result matches Some(text) && text@ == ext,
            None => result is None,
        },
{
    let chars = chars_of(name);
    let mut i: usize = chars.len();
    while i > 0
        invariant
            i <= chars@.len(),
            chars@ == name@,
            forall|j: int| i <= j < chars@.len() ==> chars@[j] != '.',
        decreases i,
    {
        if chars[i - 1] == '.' {
            let dot = i - 1;
            proof {
                let d = choose|k: int| 0 <= k < name@.len() && name@[k] == '.' && forall|j: int| k < j < name@.len() ==> name@[j] != '.';
                assert(0 <= d < name@.len() && name@[d] == '.' && forall|j: int| d < j < name@.len() ==> name@[j] != '.') by {
                    assert(name@[dot as int] == '.');
                }
                if d < dot {
                    assert(name@[dot as int] != '.');
                } else if d > dot {
                    assert(name@[d] != '.');
                }
            }
            let mut ext: Vec<char> = Vec::new();
            let mut k: usize = i;
            while k < chars.len()
                invariant
                    i <= k <= chars@.len(),
                    ext@ == lower_ascii(chars@.subrange(i as int, k as int)),
                decreases chars.len() - k,
            {
                let c = chars[k];
                let lowered = if 'A' <= c && c <= 'Z' { ((c as u32 + 32) as u8) as char } else { c };
                assert(lowered == ascii_lower(c));
                ext.push(lowered);
                assert(ext@ =~= lower_ascii(chars@.subrange(i as int, k + 1)));
                k += 1;
            }
            return Some(string_from_chars(&ext));
        }
        i -= 1;
    }
    None
}

/// How a file list is shown.
pub fn file_display_category(names: &[String]) -> (category: &'static str)
    ensures
        category@ == display_category_of(string_views(names@)),
{
    if names.len() != 1 {
        return "files";
    }
    assert(string_views(names@)[0] == names@[0]@);
    match extension_of(names[0].as_str()) {
        None => "files",
        Some(ext) => {
            let e = ext.as_str();
            if str_equal(e, "txt") || str_equal(e, "md") || str_equal(e, "log") || str_equal(e, "csv") || str_equal(
                e,
                "json",
            ) || str_equal(e, "xml") || str_equal(e, "yaml") || str_equal(e, "yml") {
                "text"
            } else if str_equal(e, "png") || str_equal(e, "jpg") || str_equal(e, "jpeg") || str_equal(e, "gif")
                || str_equal(e, "bmp") || str_equal(e, "webp") || str_equal(e, "tif") || str_equal(e, "tiff")
                || str_equal(e, "ico") {
                "image"
            } else {
                "files"
            }
        },
    }
}


/// Whether an item's content columns fit its kind.
pub open spec fn item_shape_ok(item: ClipboardHistoryItem) -> bool {
    content_shape_ok(item.kind, opt_text(item.text_content), opt_text(item.file_path), opt_unit_lists(item.file_paths))
}

/// Whether `dto` shows `item` with the given file summary.
pub open spec fn shows_item(
    dto: ClipboardHistoryItemDto,
    item: ClipboardHistoryItem,
    names: Option<Seq<Seq<char>>>,
    category: Seq<char>,
) -> bool {
    &&& dto.id@ == signed_decimal(item.id as int)
    &&& dto.kind@ == content_kind_name(item.kind)
    &&& opt_text(dto.text_content) == opt_text(item.text_content)
    &&& opt_text(dto.source_application) == opt_text(item.source_application)
    &&& opt_text(dto.source_process) == opt_text(item.source_process)
    &&& dto.captured_at_ms == item.captured_at_ms
    &&& dto.byte_size == item.byte_size
    &&& dto.is_favorite == item.is_favorite
    &&& dto.revision == item.revision
    &&& dto.source_icon_available == (item.source_icon_path is Some)
    &&& match names {
        Some(list) => dto.file_count == Some(list.len() as u32) && (dto.file_names matches Some(found) && string_views(
            found@,
        ) == list),
        None => dto.file_count is None && dto.file_names is None,
    }
    &&& dto.display_category@ == category
}

/// A history item as the frontend sees it: the file list is shown by file
/// names, count and a display category, never by paths; an item whose
/// columns do not fit its kind is refused.
pub fn item_dto(item: ClipboardHistoryItem) -> (result: Result<ClipboardHistoryItemDto, ClipboardCommandErrorDto>)
    ensures
        if !item_shape_ok(item) {
            result matches Err(dto) && dto.contract() == (
                "clipboard_content_unavailable"@,
                "This clipboard content type is not available yet."@,
                false,
            )
        } else if item.kind == ClipboardContentKind::Files {
            match file_names_of(item.file_paths->0@.map_values(|p: Vec<u16>| p@)) {
                None => result matches Err(dto) && dto.contract() == content_unavailable_contract(),
                Some(names) => result matches Ok(dto) && shows_item(dto, item, Some(names), display_category_of(names)),
            }
        } else {
            result matches Ok(dto) && shows_item(dto, item, None, content_kind_name(item.kind))
        },
{
    let shape_is_valid = match item.kind {
        ClipboardContentKind::Text => item.text_content.is_some() && item.file_path.is_none() && item.file_paths.is_none(),
        ClipboardContentKind::Image => item.text_content.is_none() && item.file_path.is_some() && item.file_paths.is_none(),
        ClipboardContentKind::Files => item.text_content.is_none() && item.file_path.is_none() && match &item.file_paths {
            Some(paths) => paths.len() > 0,
            None => false,
        },
    };
    if !shape_is_valid {
        return Err(
            ClipboardCommandErrorDto {
                code: "clipboard_content_unavailable",
                message: "This clipboard content type is not available yet.",
                retryable: false,
            },
        );
    }
    let id = render_signed(item.id);
    let kind = item.kind.as_str();
    let source_icon_available = item.source_icon_path.is_some();
    match item.kind {
        ClipboardContentKind::Files => {
            let paths = match &item.file_paths {
                Some(paths) => paths,
                None => {
                    return Err(clipboard_content_unavailable_error());
                },
            };
            assert(paths@.map_values(|p: Vec<u16>| p@) =~= unit_lists(paths@));
            let names = match file_names(paths.as_slice()) {
                Ok(names) => names,
                Err(_) => {
                    return Err(clipboard_content_unavailable_error());
                },
            };
            proof {
                let expected = file_names_of(unit_lists(paths@))->0;
                assert(string_views(names@) =~= expected);
            }
            let count = names.len() as u32;
            let category = file_display_category(names.as_slice());
            Ok(
                ClipboardHistoryItemDto {
                    id,
                    kind,
                    text_content: item.text_content,
                    source_application: item.source_application,
                    source_process: item.source_process,
                    captured_at_ms: item.captured_at_ms,
                    byte_size: item.byte_size,
                    is_favorite: item.is_favorite,
                    revision: item.revision,
                    source_icon_available,
                    file_count: Some(count),
                    file_names: Some(names),
                    display_category: category,
                },
            )
        },
        _ => {
            let category = kind;
            Ok(
                ClipboardHistoryItemDto {
                    id,
                    kind,
                    text_content: item.text_content,
                    source_application: item.source_application,
                    source_process: item.source_process,
                    captured_at_ms: item.captured_at_ms,
                    byte_size: item.byte_size,
                    is_favorite: item.is_favorite,
                    revision: item.revision,
                    source_icon_available,
                    file_count: None,
                    file_names: None,
                    display_category: category,
                },
            )
        },
    }
}

/// Whether `c` is a control character (general category Cc).
pub open spec fn is_control_char(c: char) -> bool {
    (c as u32) <= 0x1F || (0x7F <= (c as u32) <= 0x9F)
}

/// How many bytes `c` takes in UTF-8.
pub open spec fn utf8_width(c: char) -> int {
    if (c as u32) < 0x80 {
        1
    } else if (c as u32) < 0x800 {
        2
    } else if (c as u32) < 0x10000 {
        3
    } else {
        4
    }
}

/// A trace detail character: control characters become spaces.
pub open spec fn cleaned(c: char) -> char {
    if is_control_char(c) { ' ' } else { c }
}

/// The cleaned characters of `chars` that fit in `budget` UTF-8 bytes,
/// stopping at the first that does not.
pub open spec fn fitted_detail(chars: Seq<char>, budget: int) -> Seq<char>
    decreases chars.len(),
{
    if chars.len() == 0 {
        Seq::empty()
    } else if utf8_width(cleaned(chars[0])) > budget {
        Seq::empty()
    } else {
        seq![cleaned(chars[0])] + fitted_detail(chars.drop_first(), budget - utf8_width(cleaned(chars[0])))
    }
}

/// A preview trace detail made safe for one log line: control characters
/// become spaces and the text is cut to 4096 UTF-8 bytes.
#[verifier::loop_isolation(false)]
pub fn sanitize_clipboard_preview_debug_detail(detail: Option<String>) -> (result: Option<String>)
    ensures
        match detail {
            None => result is None,
            Some(text) => result matches Some(clean) && clean@ == fitted_detail(
                text@,
                MAX_CLIPBOARD_PREVIEW_DEBUG_DETAIL_BYTES as int,
            ),
        },
{
    match detail {
        None => None,
        Some(text) => {
            let chars = chars_of(text.as_str());
            let mut out: Vec<char> = Vec::new();
            let mut used: usize = 0;
            let mut i: usize = 0;
            assert(chars@.subrange(0, chars@.len() as int) =~= chars@);
            while i < chars.len()
                invariant
                    i <= chars@.len(),
                    chars@ == text@,
                    used <= MAX_CLIPBOARD_PREVIEW_DEBUG_DETAIL_BYTES,
                    fitted_detail(text@, MAX_CLIPBOARD_PREVIEW_DEBUG_DETAIL_BYTES as int) == out@ + fitted_detail(
                        chars@.subrange(i as int, chars@.len() as int),
                        MAX_CLIPBOARD_PREVIEW_DEBUG_DETAIL_BYTES - used,
                    ),
                decreases chars.len() - i,
            {
                let ghost rest = chars@.subrange(i as int, chars@.len() as int);
                assert(rest.drop_first() =~= chars@.subrange(i + 1, chars@.len() as int));
                let c = chars[i];
                let code = c as u32;
                let character = if code <= 0x1F || (0x7F <= code && code <= 0x9F) { ' ' } else { c };
                let width: usize = if (character as u32) < 0x80 {
                    1
                } else if (character as u32) < 0x800 {
                    2
                } else if (character as u32) < 0x10000 {
                    3
                } else {
                    4
                };
                assert(character == cleaned(rest[0]));
                assert(width == utf8_width(character));
                if used + width > MAX_CLIPBOARD_PREVIEW_DEBUG_DETAIL_BYTES {
                    assert(out@ + Seq::<char>::empty() =~= out@);
                    return Some(string_from_chars(&out));
                }
                let ghost before = out@;
                out.push(character);
                used = used + width;
                assert(before + (seq![character] + fitted_detail(rest.drop_first(), MAX_CLIPBOARD_PREVIEW_DEBUG_DETAIL_BYTES - used))
                    =~= out@ + fitted_detail(rest.drop_first(), MAX_CLIPBOARD_PREVIEW_DEBUG_DETAIL_BYTES - used));
                i += 1;
            }
            assert(out@ + Seq::<char>::empty() =~= out@);
            Some(string_from_chars(&out))
        },
    }
}

/// The history query a frontend query asks for (100 items by default).
pub fn history_query(input: ClipboardHistoryQueryInput) -> (query: ClipboardHistoryQuery)
    ensures
        query.favorites_only == (input.scope == ClipboardHistoryScopeInput::Favorites),
        query.search == input.search,
        query.limit == match input.limit {
            Some(limit) => limit,
            None => DEFAULT_HISTORY_LIMIT,
        },
{
    ClipboardHistoryQuery {
        favorites_only: match input.scope {
            ClipboardHistoryScopeInput::Favorites => true,
            ClipboardHistoryScopeInput::All => false,
        },
        search: input.search,
        limit: match input.limit {
            Some(limit) => limit,
            None => DEFAULT_HISTORY_LIMIT,
        },
    }
}

/// The preferences frontend input asks for: the process names normalized
/// as stored ones are.
pub fn settings_from_input(input: ClipboardSettingsInput) -> (result: Result<ClipboardSettings, ClipboardCommandErrorDto>)
    ensures
        match ignored_apps_result(join_lines(string_views(input.ignored_apps@))) {
            Err(error) => result matches Err(dto) && dto.contract() == clipboard_error_contract(
                ClipboardError::Settings(error),
            ),
            Ok(apps) => result matches Ok(settings) && settings.retention_days == input.retention_days
                && settings.max_items == input.max_items && string_views(settings.ignored_apps@) == apps
                && settings.history_reuse_strategy == match input.history_reuse_strategy {
                ClipboardHistoryReuseStrategyInput::Promote => ClipboardHistoryReuseStrategy::Promote,
                ClipboardHistoryReuseStrategyInput::Keep => ClipboardHistoryReuseStrategy::Keep,
            } && string_views(settings.sensitive_rules@) == string_views(input.sensitive_rules@),
        },
{
    let joined = join_with_newlines(&input.ignored_apps);
    assert(string_views(input.ignored_apps@) =~= Seq::new(input.ignored_apps@.len(), |i: int| input.ignored_apps@[i]@));
    let ignored_apps = match parse_ignored_apps(joined.as_str()) {
        Ok(apps) => apps,
        Err(error) => {
            return Err(map_error(ClipboardError::Settings(error)));
        },
    };
    Ok(
        ClipboardSettings {
            retention_days: input.retention_days,
            max_items: input.max_items,
            ignored_apps,
            history_reuse_strategy: match input.history_reuse_strategy {
                ClipboardHistoryReuseStrategyInput::Promote => ClipboardHistoryReuseStrategy::Promote,
                ClipboardHistoryReuseStrategyInput::Keep => ClipboardHistoryReuseStrategy::Keep,
            },
            sensitive_rules: input.sensitive_rules,
        },
    )
}


// ---------------------------------------------------------------------------
// Commands.

/// Whether the frontend can show `item`: its fields fit its kind and, for a
/// file list, every path has a file name.
pub open spec fn item_shows(item: ClipboardHistoryItem) -> bool {
    &&& item_shape_ok(item)
    &&& item.kind == ClipboardContentKind::Files ==> file_names_of(item.file_paths->0@.map_values(|p: Vec<u16>| p@)) is Some
}

/// Whether `result` is the history view of the service page `page`: the
/// items in order as the frontend sees them, or the error of the first item
/// it cannot show.
pub open spec fn shows_page(
    result: Result<ClipboardHistoryPageDto, ClipboardCommandErrorDto>,
    page: ClipboardHistoryPage,
) -> bool {
    if forall|k: int| 0 <= k < page.items@.len() ==> #[trigger] item_shows(page.items@[k]) {
        result matches Ok(dto) && dto.total_count == page.total_count && dto.items@.len() == page.items@.len()
    } else {
        result is Err
    }
}

/// Whether `result` is the history view of the service's `answer`: its
/// error, or the page as the frontend sees it.
pub open spec fn answered_by(
    result: Result<ClipboardHistoryPageDto, ClipboardCommandErrorDto>,
    answer: Result<ClipboardHistoryPage, ClipboardError>,
) -> bool {
    match answer {
        Err(error) => result matches Err(dto) && dto.contract() == clipboard_error_contract(error),
        Ok(page) => shows_page(result, page),
    }
}

/// The service query that history view input asks for.
pub open spec fn query_of(input: ClipboardHistoryQueryInput) -> ClipboardHistoryQuery {
    ClipboardHistoryQuery {
        favorites_only: input.scope == ClipboardHistoryScopeInput::Favorites,
        search: input.search,
        limit: match input.limit {
            Some(limit) => limit,
            None => DEFAULT_HISTORY_LIMIT,
        },
    }
}

/// Whether `result` answers the history view `input`: for some clock
/// reading, the view of what the service answers on the rows `before` with
/// preferences `settings`, leaving the rows `after`.
pub open spec fn views_history(
    result: Result<ClipboardHistoryPageDto, ClipboardCommandErrorDto>,
    input: ClipboardHistoryQueryInput,
    before: Seq<StoredRow>,
    settings: SettingsModel,
    after: Seq<StoredRow>,
) -> bool {
    exists|answer: Result<ClipboardHistoryPage, ClipboardError>, now: u64|
        #[trigger] history_at(before, settings, query_of(input), now, answer, after) && answered_by(result, answer)
}

/// Answers the history view: the page of items as the frontend sees them,
/// with the monitoring, input and surface state and the preferences.
#[verifier::loop_isolation(false)]
pub fn get_history<F: ClipboardFiles>(
    service: &mut ClipboardService<F>,
    status: ClipboardListenerStatus,
    input_available: bool,
    surface_active: bool,
    input: ClipboardHistoryQueryInput,
) -> (result: Result<ClipboardHistoryPageDto, ClipboardCommandErrorDto>)
    requires
        old(service).wf(),
    ensures
        final(service).wf(),
        final(service).preferences() == old(service).preferences(),
        result matches Ok(page) ==> {
            &&& page.monitoring == monitoring_dto_of(status)
            &&& page.input_available == input_available
            &&& page.surface_active == surface_active
            &&& page.settings.retention_days == old(service).preferences().retention_days
            &&& page.settings.max_items == old(service).preferences().max_items
        },
        views_history(result, input, old(service).table(), old(service).preferences(), final(service).table()),
{
    let query = history_query(input);
    let ghost original = input;
    assert(query == query_of(original));
    let ghost before = service.table();
    let ghost settings_before = service.preferences();
    let answer = service.history(query);
    let ghost answered = answer;
    let ghost now = choose|now: u64|
        #[trigger] history_at(before, settings_before, query, now, answer, service.table());
    let page = match answer {
        Ok(page) => page,
        Err(error) => {
            let result = Err(map_error(error));
            proof {
                assert(answered_by(result, answered));
                assert(history_at(before, settings_before, query_of(original), now, answered, service.table()));
            }
            return result;
        },
    };
    let ghost all_items = page.items@;
    let settings = match service.settings() {
        Ok(settings) => settings,
        Err(error) => {
            return Err(map_error(error));
        },
    };
    let mut remaining = page.items;
    let mut items: Vec<ClipboardHistoryItemDto> = Vec::new();
    while remaining.len() > 0
        invariant
            items@.len() + remaining@.len() == all_items.len(),
            remaining@ == all_items.subrange(items@.len() as int, all_items.len() as int),
            forall|k: int| 0 <= k < items@.len() ==> #[trigger] item_shows(all_items[k]),
        decreases remaining.len(),
    {
        let ghost done = items@.len();
        let item = remaining.remove(0);
        assert(item == all_items[done as int]);
        match item_dto(item) {
            Ok(dto) => items.push(dto),
            Err(error) => {
                assert(!item_shows(all_items[done as int]));
                let result = Err(error);
                assert(answered_by(result, answered));
                assert(history_at(before, settings_before, query_of(original), now, answered, service.table()));
                return result;
            },
        }
        assert(remaining@ =~= all_items.subrange(items@.len() as int, all_items.len() as int));
    }
    let result = Ok(
        ClipboardHistoryPageDto {
            items,
            total_count: page.total_count,
            monitoring: monitoring_dto(status),
            input_available,
            surface_active,
            settings: settings_dto(settings),
        },
    );
    assert(answered_by(result, answered));
    assert(history_at(before, settings_before, query_of(original), now, answered, service.table()));
    result
}

/// What a listener status shows as.
pub open spec fn monitoring_dto_of(status: ClipboardListenerStatus) -> ClipboardMonitoringDto {
    match status {
        ClipboardListenerStatus::Running => ClipboardMonitoringDto::Running,
        ClipboardListenerStatus::Stopped => ClipboardMonitoringDto::Paused,
        ClipboardListenerStatus::Unavailable => ClipboardMonitoringDto::Unavailable,
    }
}

/// The preferences that settings input asks for, once its ignored apps
/// normalized to `apps`.
pub open spec fn input_model(input: ClipboardSettingsInput, apps: Seq<Seq<char>>) -> SettingsModel {
    SettingsModel {
        retention_days: input.retention_days,
        max_items: input.max_items,
        ignored_apps: apps,
        history_reuse_strategy: match input.history_reuse_strategy {
            ClipboardHistoryReuseStrategyInput::Promote => ClipboardHistoryReuseStrategy::Promote,
            ClipboardHistoryReuseStrategyInput::Keep => ClipboardHistoryReuseStrategy::Keep,
        },
        sensitive_rules: string_views(input.sensitive_rules@),
    }
}

/// Saves new preferences from the settings view and reports them with how
/// many items they removed.
pub fn update_clipboard_settings<F: ClipboardFiles>(service: &mut ClipboardService<F>, input: ClipboardSettingsInput) -> (result: Result<
    ClipboardSettingsUpdateDto,
    ClipboardCommandErrorDto,
>)
    requires
        old(service).wf(),
    ensures
        final(service).wf(),
        result matches Ok(dto) ==> {
            &&& dto.settings.retention_days == input.retention_days
            &&& dto.settings.max_items == input.max_items
            &&& final(service).preferences().retention_days == input.retention_days
            &&& final(service).preferences().max_items == input.max_items
        },
        result is Err ==> final(service).table() == old(service).table() || exists|now: u64| #[trigger] after_retention(
            old(service).table(),
            input.retention_days,
            input.max_items,
            now,
        ) is Err,
        match ignored_apps_result(join_lines(string_views(input.ignored_apps@))) {
            Err(error) => result matches Err(dto) && dto.contract() == clipboard_error_contract(
                ClipboardError::Settings(error),
            ) && final(service).table() == old(service).table() && final(service).preferences() == old(
                service,
            ).preferences(),
            Ok(apps) => match settings_error(input_model(input, apps)) {
                Some(error) => result matches Err(dto) && dto.contract() == clipboard_error_contract(
                    ClipboardError::Settings(error),
                ) && final(service).table() == old(service).table() && final(service).preferences() == old(
                    service,
                ).preferences(),
                None => final(service).preferences() == input_model(input, apps) && exists|now: u64|
                    match #[trigger] after_retention(old(service).table(), input.retention_days, input.max_items, now) {
                        Err(error) => result matches Err(dto) && dto.contract() == clipboard_error_contract(error)
                            && final(service).table() == old(service).table(),
                        Ok(rows) => final(service).table() == rows && (result matches Ok(dto) && dto.removed_count == (
                        old(service).table().len() - rows.len()) as u64),
                    },
            },
        },
{
    let settings = match settings_from_input(input) {
        Ok(settings) => settings,
        Err(error) => {
            return Err(error);
        },
    };
    let saved = crate::service::copy_settings(&settings);
    let removed_count = match service.update_settings(saved) {
        Ok(count) => count,
        Err(error) => {
            return Err(map_error(error));
        },
    };
    Ok(ClipboardSettingsUpdateDto { settings: settings_dto(settings), removed_count })
}

/// Marks an item as a favorite or not and returns it as the frontend sees it.
pub fn set_favorite<F: ClipboardFiles>(service: &mut ClipboardService<F>, input: ClipboardFavoriteInput) -> (result: Result<
    ClipboardHistoryItemDto,
    ClipboardCommandErrorDto,
>)
    requires
        old(service).wf(),
    ensures
        final(service).wf(),
        canonical_id(input.id@) is None ==> (result matches Err(dto) && dto.contract() == invalid_id_contract())
            && final(service).table() == old(service).table(),
        result matches Ok(dto) ==> dto.is_favorite == input.is_favorite,
{
    let id = match parse_id(input.id.as_str()) {
        Ok(id) => id,
        Err(error) => {
            return Err(error);
        },
    };
    match service.set_favorite(id, input.is_favorite) {
        Ok(item) => {
            proof {
                let i = id_index(old(service).table(), id)->0;
                assert(item.is_favorite == input.is_favorite);
            }
            item_dto(item)
        },
        Err(error) => Err(map_error(error)),
    }
}

/// Edits an item's text and returns it as the frontend sees it.
pub fn update_text<F: ClipboardFiles>(service: &mut ClipboardService<F>, input: ClipboardTextUpdateInput) -> (result: Result<
    ClipboardHistoryItemDto,
    ClipboardCommandErrorDto,
>)
    requires
        old(service).wf(),
    ensures
        final(service).wf(),
        canonical_id(input.id@) is None ==> (result matches Err(dto) && dto.contract() == invalid_id_contract())
            && final(service).table() == old(service).table(),
        result matches Ok(dto) ==> opt_text(dto.text_content) == Some(input.text_content@),
{
    let id = match parse_id(input.id.as_str()) {
        Ok(id) => id,
        Err(error) => {
            return Err(error);
        },
    };
    match service.update_text(id, input.text_content, input.expected_revision) {
        Ok(item) => item_dto(item),
        Err(error) => Err(map_error(error)),
    }
}

/// Deletes an item.
pub fn delete_item<F: ClipboardFiles>(service: &mut ClipboardService<F>, input: ClipboardItemIdInput) -> (result: Result<
    ClipboardDeleteResultDto,
    ClipboardCommandErrorDto,
>)
    requires
        old(service).wf(),
    ensures
        final(service).wf(),
        match canonical_id(input.id@) {
            None => (result matches Err(dto) && dto.contract() == invalid_id_contract()) && final(service).table()
                == old(service).table(),
            Some(id) => match id_index(old(service).table(), id as i64) {
                None => result == Ok::<ClipboardDeleteResultDto, ClipboardCommandErrorDto>(
                    ClipboardDeleteResultDto { deleted: false },
                ) && final(service).table() == old(service).table(),
                Some(i) => result == Ok::<ClipboardDeleteResultDto, ClipboardCommandErrorDto>(
                    ClipboardDeleteResultDto { deleted: true },
                ) && final(service).table() == old(service).table().remove(i),
            },
        },
{
    let id = match parse_id(input.id.as_str()) {
        Ok(id) => id,
        Err(error) => {
            return Err(error);
        },
    };
    match service.delete(id) {
        Ok(deleted) => Ok(ClipboardDeleteResultDto { deleted }),
        Err(error) => Err(map_error(error)),
    }
}

/// Deletes every item that is not a favorite.
pub fn clear_unfavorite<F: ClipboardFiles>(service: &mut ClipboardService<F>) -> (result: Result<
    ClipboardClearResultDto,
    ClipboardCommandErrorDto,
>)
    requires
        old(service).wf(),
    ensures
        final(service).wf(),
        final(service).table() == favorites(old(service).table()),
        result == Ok::<ClipboardClearResultDto, ClipboardCommandErrorDto>(
            ClipboardClearResultDto {
                deleted_count: (old(service).table().len() - favorites(old(service).table()).len()) as u64,
            },
        ),
{
    match service.clear_unfavorite() {
        Ok(deleted_count) => Ok(ClipboardClearResultDto { deleted_count }),
        Err(error) => Err(map_error(error)),
    }
}

/// The encoded bytes of an image item.
pub fn get_image<F: ClipboardFiles>(service: &mut ClipboardService<F>, input: ClipboardItemIdInput) -> (result: Result<
    Vec<u8>,
    ClipboardCommandErrorDto,
>)
    requires
        old(service).wf(),
    ensures
        final(service).wf(),
        final(service).table() == old(service).table(),
        canonical_id(input.id@) is None ==> (result matches Err(dto) && dto.contract() == invalid_id_contract()),
        canonical_id(input.id@) is Some ==> (result matches Err(dto) ==> exists|error: ClipboardError| dto.contract()
            == #[trigger] clipboard_error_contract(error)),
{
    let id = match parse_id(input.id.as_str()) {
        Ok(id) => id,
        Err(error) => {
            return Err(error);
        },
    };
    match service.image_bytes(id) {
        Ok(bytes) => Ok(bytes),
        Err(error) => {
            let dto = map_error(error);
            assert(dto.contract() == clipboard_error_contract(error));
            Err(dto)
        },
    }
}

/// The bytes of an item's source icon.
pub fn get_source_icon<F: ClipboardFiles>(service: &mut ClipboardService<F>, input: ClipboardItemIdInput) -> (result: Result<
    Vec<u8>,
    ClipboardCommandErrorDto,
>)
    requires
        old(service).wf(),
    ensures
        final(service).wf(),
        final(service).table() == old(service).table(),
        canonical_id(input.id@) is None ==> (result matches Err(dto) && dto.contract() == invalid_id_contract()),
        canonical_id(input.id@) is Some ==> (result matches Err(dto) ==> dto.contract()
            == source_icon_unavailable_contract()),
{
    let id = match parse_id(input.id.as_str()) {
        Ok(id) => id,
        Err(error) => {
            return Err(error);
        },
    };
    match service.source_icon_bytes(id) {
        Ok(bytes) => Ok(bytes),
        Err(_) => Err(source_icon_unavailable_error()),
    }
}

/// Copies an item to the clipboard and applies the reuse preference.
pub fn copy_clipboard_history_item<F: ClipboardFiles, O: ClipboardOps, S: InputSurface, A: InputApi, G: SequenceSuppressor>(
    coordinator: &mut ClipboardInputCoordinator<F, O, S, A>,
    input: ClipboardItemIdInput,
    owner_window: usize,
    suppress: &mut G,
) -> (result: Result<ClipboardActionResultDto, ClipboardCommandErrorDto>)
    requires
        old(coordinator).service().wf(),
    ensures
        final(coordinator).service().wf(),
        canonical_id(input.id@) is None ==> (result matches Err(dto) && dto.contract() == invalid_id_contract()),
        result matches Ok(dto) ==> dto.action@ == "copied"@ && dto.clipboard_updated,
{
    let id = match parse_id(input.id.as_str()) {
        Ok(id) => id,
        Err(error) => {
            return Err(error);
        },
    };
    let outcome = match coordinator.copy(id, owner_window, suppress) {
        Ok(outcome) => outcome,
        Err(error) => {
            return Err(map_input_error(error));
        },
    };
    match coordinator.clipboard_mut().apply_history_reuse(id) {
        Ok(()) => {},
        Err(error) => {
            return Err(map_error(error));
        },
    }
    Ok(action_dto(outcome))
}

/// Pastes an item into the target application and applies the reuse
/// preference.
pub fn input_clipboard_history_item<F: ClipboardFiles, O: ClipboardOps, S: InputSurface, A: InputApi, G: SequenceSuppressor>(
    coordinator: &mut ClipboardInputCoordinator<F, O, S, A>,
    input: ClipboardItemIdInput,
    owner_window: usize,
    suppress: &mut G,
) -> (result: Result<ClipboardActionResultDto, ClipboardCommandErrorDto>)
    requires
        old(coordinator).service().wf(),
    ensures
        final(coordinator).service().wf(),
        canonical_id(input.id@) is None ==> (result matches Err(dto) && dto.contract() == invalid_id_contract()),
        result matches Ok(dto) ==> dto.action@ == "input"@ && dto.clipboard_updated,
{
    let id = match parse_id(input.id.as_str()) {
        Ok(id) => id,
        Err(error) => {
            return Err(error);
        },
    };
    let outcome = match coordinator.input(id, owner_window, suppress) {
        Ok(outcome) => outcome,
        Err(error) => {
            return Err(map_input_error(error));
        },
    };
    match coordinator.clipboard_mut().apply_history_reuse(id) {
        Ok(()) => {},
        Err(error) => {
            return Err(map_error(error));
        },
    }
    Ok(action_dto(outcome))
}

} // verus!
