//! Screenshot and pinned-image commands: their results and the stable codes
//! of their failures.
use vstd::prelude::*;

use crate::commands::qr::QrError;
use crate::history::ClipboardError;
use crate::writer::ClipboardWriterError;

verus! {

/// A screenshot as the frontend sees it.
#[derive(Debug, Clone, Copy, PartialEq, Eq)]
pub struct ScreenshotCaptureDto {
    pub status: &'static str,
    pub width: Option<u32>,
    pub height: Option<u32>,
    pub message: &'static str,
}

/// A pinned image as the frontend sees it.
#[derive(Debug, Clone, PartialEq, Eq)]
pub struct PinImageDto {
    pub pin_id: String,
    pub width: u32,
    pub height: u32,
    pub message: &'static str,
}

/// A capture failure as the frontend sees it.
#[derive(Debug, Clone, Copy, PartialEq, Eq)]
pub struct CaptureCommandErrorDto {
    pub code: &'static str,
    pub message: &'static str,
    pub retryable: bool,
}

impl CaptureCommandErrorDto {
    /// The error as values.
    pub open spec fn contract(&self) -> (Seq<char>, Seq<char>, bool) {
        (self.code@, self.message@, self.retryable)
    }
}

/// Why the screenshot session failed.
#[derive(Debug, Clone, Copy, PartialEq, Eq, Structural)]
pub enum ScreenshotError {
    SessionAlreadyActive,
    Unavailable,
}

/// Why a screenshot step failed.
#[derive(Debug, Clone, Copy, PartialEq, Eq)]
pub enum ScreenshotServiceError {
    Screenshot(ScreenshotError),
    Writer(ClipboardWriterError),
    Clipboard(ClipboardError),
}

/// Why pinning an image failed.
#[derive(Debug, Clone, PartialEq, Eq)]
pub enum PinImageError {
    ImageUnavailable,
    Clipboard(ClipboardError),
    NativeSurface(String),
}

/// What the user chose for a selection.
#[derive(Debug, Clone, Copy, PartialEq, Eq, Structural)]
pub enum CaptureAction {
    Copy,
    Finish,
    Save,
    Pin,
    DecodeQr,
    Cancel,
}

/// The frontend error for a failed screenshot step.
pub fn map_screenshot_error(error: ScreenshotServiceError) -> (dto: CaptureCommandErrorDto)
    ensures
        dto.contract() == match error {
            ScreenshotServiceError::Screenshot(ScreenshotError::SessionAlreadyActive) => (
                "capture_busy"@,
                "已有截图选区正在进行。"@,
                false,
            ),
            ScreenshotServiceError::Writer(_) => ("capture_clipboard_failed"@, "截图已生成，但系统剪贴板写入失败。"@, true),
            ScreenshotServiceError::Clipboard(_) => ("capture_history_failed"@, "截图未能保存到内置历史，请重试。"@, true),
            ScreenshotServiceError::Screenshot(_) => (
                "capture_unavailable"@,
                "当前桌面暂时无法完成区域截图，请重试。"@,
                true,
            ),
        },
{
    match error {
        ScreenshotServiceError::Screenshot(ScreenshotError::SessionAlreadyActive) => CaptureCommandErrorDto {
            code: "capture_busy",
            message: "已有截图选区正在进行。",
            retryable: false,
        },
        ScreenshotServiceError::Writer(_) => CaptureCommandErrorDto {
            code: "capture_clipboard_failed",
            message: "截图已生成，但系统剪贴板写入失败。",
            retryable: true,
        },
        ScreenshotServiceError::Clipboard(_) => CaptureCommandErrorDto {
            code: "capture_history_failed",
            message: "截图未能保存到内置历史，请重试。",
            retryable: true,
        },
        ScreenshotServiceError::Screenshot(_) => CaptureCommandErrorDto {
            code: "capture_unavailable",
            message: "当前桌面暂时无法完成区域截图，请重试。",
            retryable: true,
        },
    }
}

/// The frontend error for a QR decode of a selection.
pub fn map_capture_qr_error(error: QrError) -> (dto: CaptureCommandErrorDto)
    ensures
        dto.contract() == match error {
            QrError::UnreadableImage | QrError::NonTextPayload => (
                "capture_qr_unreadable"@,
                "选区中没有识别到可用二维码，请调整选区后重试。"@,
                false,
            ),
            QrError::Clipboard(_) => ("capture_qr_history_failed"@, "二维码已识别，但结果未能保存，请重试。"@, true),
            _ => ("capture_qr_failed"@, "当前选区无法识别为二维码。"@, false),
        },
{
    match error {
        QrError::UnreadableImage | QrError::NonTextPayload => CaptureCommandErrorDto {
            code: "capture_qr_unreadable",
            message: "选区中没有识别到可用二维码，请调整选区后重试。",
            retryable: false,
        },
        QrError::Clipboard(_) => CaptureCommandErrorDto {
            code: "capture_qr_history_failed",
            message: "二维码已识别，但结果未能保存，请重试。",
            retryable: true,
        },
        _ => CaptureCommandErrorDto {
            code: "capture_qr_failed",
            message: "当前选区无法识别为二维码。",
            retryable: false,
        },
    }
}

/// The frontend error for a failed pin.
pub fn map_pin_error(error: &PinImageError) -> (dto: CaptureCommandErrorDto)
    ensures
        dto.contract() == match *error {
            PinImageError::ImageUnavailable => ("pin_image_unavailable"@, "剪贴板历史中没有可贴出的图片或文字。"@, false),
            PinImageError::Clipboard(_) => ("pin_image_history_failed"@, "读取剪贴板内容失败，请稍后重试。"@, true),
            PinImageError::NativeSurface(_) => ("pin_image_surface_failed"@, "贴图窗口暂时不可用，请稍后重试。"@, true),
        },
{
    match error {
        PinImageError::ImageUnavailable => CaptureCommandErrorDto {
            code: "pin_image_unavailable",
            message: "剪贴板历史中没有可贴出的图片或文字。",
            retryable: false,
        },
        PinImageError::Clipboard(_) => CaptureCommandErrorDto {
            code: "pin_image_history_failed",
            message: "读取剪贴板内容失败，请稍后重试。",
            retryable: true,
        },
        PinImageError::NativeSurface(_) => CaptureCommandErrorDto {
            code: "pin_image_surface_failed",
            message: "贴图窗口暂时不可用，请稍后重试。",
            retryable: true,
        },
    }
}

/// The error when the background task ended unexpectedly.
pub fn internal_command_error() -> (dto: CaptureCommandErrorDto)
    ensures
        dto.contract() == ("capture_worker_failed"@, "后台任务意外结束，请重试。"@, true),
{
    CaptureCommandErrorDto { code: "capture_worker_failed", message: "后台任务意外结束，请重试。", retryable: true }
}

/// A cancelled screenshot.
pub fn cancelled_capture(message: &'static str) -> (dto: ScreenshotCaptureDto)
    ensures
        dto.status@ == "cancelled"@,
        dto.width is None,
        dto.height is None,
        dto.message@ == message@,
{
    ScreenshotCaptureDto { status: "cancelled", width: None, height: None, message }
}

/// The status and message a completed screenshot action reports; `None`
/// for a cancel.
pub fn capture_action_outcome(action: CaptureAction) -> (outcome: Option<(&'static str, &'static str)>)
    ensures
        match action {
            CaptureAction::Copy | CaptureAction::Finish => outcome matches Some((status, message)) && status@ == "copied"@
                && message@ == "截图已保存到内置历史并复制到系统剪贴板。"@,
            CaptureAction::Save => outcome matches Some((status, message)) && status@ == "saved"@ && message@
                == "截图已保存为 PNG，并加入内置历史。"@,
            CaptureAction::Pin => outcome matches Some((status, message)) && status@ == "pinned"@ && message@
                == "截图已贴到屏幕，并加入内置历史。"@,
            CaptureAction::DecodeQr => outcome matches Some((status, message)) && status@ == "qrDecoded"@ && message@
                == "已识别截图中的二维码并复制结果。"@,
            CaptureAction::Cancel => outcome is None,
        },
{
    match action {
        CaptureAction::Copy | CaptureAction::Finish => Some(("copied", "截图已保存到内置历史并复制到系统剪贴板。")),
        CaptureAction::Save => Some(("saved", "截图已保存为 PNG，并加入内置历史。")),
        CaptureAction::Pin => Some(("pinned", "截图已贴到屏幕，并加入内置历史。")),
        CaptureAction::DecodeQr => Some(("qrDecoded", "已识别截图中的二维码并复制结果。")),
        CaptureAction::Cancel => None,
    }
}

/// How the chosen action on a selection went.
#[derive(Debug, Clone, Copy, PartialEq, Eq)]
pub enum CaptureActionResult {
    /// The action was carried out.
    Done,
    /// The save dialog was dismissed.
    SaveCancelled,
    /// Writing the PNG file failed.
    SaveFailed,
    /// The action failed with this error.
    Failed(CaptureCommandErrorDto),
}

/// The error of a failed screenshot save.
pub open spec fn save_failed_contract() -> (Seq<char>, Seq<char>, bool) {
    ("capture_save_failed"@, "截图保存失败，请检查目标位置后重试。"@, true)
}

/// What a screenshot of `width` by `height` pixels reports once its action
/// `performed` as given and, for a carried-out action, the history answered
/// `recorded` (whether the image was kept). The flag says whether the
/// history's listeners must be told.
pub fn capture_report(
    action: CaptureAction,
    width: u32,
    height: u32,
    performed: CaptureActionResult,
    recorded: Result<bool, CaptureCommandErrorDto>,
) -> (report: (Result<ScreenshotCaptureDto, CaptureCommandErrorDto>, bool))
    ensures
        action == CaptureAction::Cancel ==> !report.1 && (report.0 matches Ok(dto) && dto.status@ == "cancelled"@
            && dto.width is None && dto.height is None && dto.message@ == "已取消截图。"@),
        action != CaptureAction::Cancel ==> match performed {
            CaptureActionResult::SaveCancelled => !report.1 && (report.0 matches Ok(dto) && dto.status@
                == "cancelled"@ && dto.width is None && dto.height is None && dto.message@ == "已取消保存截图。"@),
            CaptureActionResult::SaveFailed => !report.1 && (report.0 matches Err(error) && error.contract()
                == save_failed_contract()),
            CaptureActionResult::Failed(error) => !report.1 && report.0 == Err::<
                ScreenshotCaptureDto,
                CaptureCommandErrorDto,
            >(error),
            CaptureActionResult::Done => match recorded {
                Err(error) => !report.1 && report.0 == Err::<ScreenshotCaptureDto, CaptureCommandErrorDto>(error),
                Ok(retained) => report.1 == retained && (report.0 matches Ok(dto) && dto.width == Some(width)
                    && dto.height == Some(height) && capture_action_outcome_spec(action) == Some(
                    (dto.status@, dto.message@),
                )),
            },
        },
{
    let (status, message) = match capture_action_outcome(action) {
        Some(outcome) => outcome,
        None => {
            return (Ok(cancelled_capture("已取消截图。")), false);
        },
    };
    match performed {
        CaptureActionResult::SaveCancelled => (Ok(cancelled_capture("已取消保存截图。")), false),
        CaptureActionResult::SaveFailed => (
            Err(
                CaptureCommandErrorDto {
                    code: "capture_save_failed",
                    message: "截图保存失败，请检查目标位置后重试。",
                    retryable: true,
                },
            ),
            false,
        ),
        CaptureActionResult::Failed(error) => (Err(error), false),
        CaptureActionResult::Done => match recorded {
            Err(error) => (Err(error), false),
            Ok(retained) => (
                Ok(ScreenshotCaptureDto { status, width: Some(width), height: Some(height), message }),
                retained,
            ),
        },
    }
}

/// The status and message a completed screenshot action reports.
pub open spec fn capture_action_outcome_spec(action: CaptureAction) -> Option<(Seq<char>, Seq<char>)> {
    match action {
        CaptureAction::Copy | CaptureAction::Finish => Some(("copied"@, "截图已保存到内置历史并复制到系统剪贴板。"@)),
        CaptureAction::Save => Some(("saved"@, "截图已保存为 PNG，并加入内置历史。"@)),
        CaptureAction::Pin => Some(("pinned"@, "截图已贴到屏幕，并加入内置历史。"@)),
        CaptureAction::DecodeQr => Some(("qrDecoded"@, "已识别截图中的二维码并复制结果。"@)),
        CaptureAction::Cancel => None,
    }
}

} // verus!
