//! QR conversion results and the stable codes of their failures.
use vstd::prelude::*;

use crate::history::ClipboardError;

verus! {

/// Which way a QR conversion went.
#[derive(Debug, Clone, Copy, PartialEq, Eq, Structural)]
pub enum QrConversionKind {
    TextToImage,
    ImageToText,
}

/// What a QR conversion did.
#[derive(Debug, Clone, Copy, PartialEq, Eq, Structural)]
pub struct QrConversionResult {
    pub kind: QrConversionKind,
    pub system_clipboard_synced: bool,
}

/// Why a QR conversion failed.
#[derive(Debug, Clone, Copy, PartialEq, Eq)]
pub enum QrError {
    NoLatestItem,
    UnsupportedContent,
    EmptyText,
    TextTooLarge,
    UnreadableImage,
    NonTextPayload,
    Clipboard(ClipboardError),
}

/// A QR conversion as the frontend sees it.
#[derive(Debug, Clone, Copy, PartialEq, Eq)]
pub struct QrConversionDto {
    pub kind: QrConversionKind,
    pub system_clipboard_synced: bool,
    pub message: &'static str,
}

/// A QR failure as the frontend sees it.
#[derive(Debug, Clone, Copy, PartialEq, Eq)]
pub struct QrCommandErrorDto {
    pub code: &'static str,
    pub message: &'static str,
    pub retryable: bool,
}

/// A QR conversion with its message: which way it went, and whether the
/// system clipboard was synced too.
pub fn conversion_dto(result: QrConversionResult) -> (dto: QrConversionDto)
    ensures
        dto.kind == result.kind,
        dto.system_clipboard_synced == result.system_clipboard_synced,
        dto.message@ == match (result.kind, result.system_clipboard_synced) {
            (QrConversionKind::TextToImage, true) => "已从最新内部文本生成二维码。"@,
            (QrConversionKind::TextToImage, false) => "已生成二维码并保存到历史；系统剪贴板同步失败。"@,
            (QrConversionKind::ImageToText, true) => "已识别最新内部图片中的二维码。"@,
            (QrConversionKind::ImageToText, false) => "已识别二维码并保存到历史；系统剪贴板同步失败。"@,
        },
{
    let message = match (result.kind, result.system_clipboard_synced) {
        (QrConversionKind::TextToImage, true) => "已从最新内部文本生成二维码。",
        (QrConversionKind::TextToImage, false) => "已生成二维码并保存到历史；系统剪贴板同步失败。",
        (QrConversionKind::ImageToText, true) => "已识别最新内部图片中的二维码。",
        (QrConversionKind::ImageToText, false) => "已识别二维码并保存到历史；系统剪贴板同步失败。",
    };
    QrConversionDto { kind: result.kind, system_clipboard_synced: result.system_clipboard_synced, message }
}

/// The frontend error for a failed QR conversion.
pub fn map_error(error: QrError) -> (dto: QrCommandErrorDto)
    ensures
        (dto.code@, dto.message@, dto.retryable) == match error {
            QrError::NoLatestItem => ("clipboard_history_empty"@, "内置剪贴板没有可转换的最新记录。"@, false),
            QrError::UnsupportedContent => ("qr_unsupported_content"@, "最新记录不是文本或图片，无法转换二维码。"@, false),
            QrError::EmptyText => ("qr_empty_text"@, "最新文本为空，无法生成二维码。"@, false),
            QrError::TextTooLarge => ("qr_text_too_large"@, "最新文本过长，无法生成二维码。"@, false),
            QrError::UnreadableImage | QrError::NonTextPayload => ("qr_image_unreadable"@, "最新图片中未识别到可用二维码。"@, false),
            QrError::Clipboard(_) => ("qr_history_unavailable"@, "二维码结果未能保存到内置剪贴板，请重试。"@, true),
        },
{
    match error {
        QrError::NoLatestItem => QrCommandErrorDto {
            code: "clipboard_history_empty",
            message: "内置剪贴板没有可转换的最新记录。",
            retryable: false,
        },
        QrError::UnsupportedContent => QrCommandErrorDto {
            code: "qr_unsupported_content",
            message: "最新记录不是文本或图片，无法转换二维码。",
            retryable: false,
        },
        QrError::EmptyText => QrCommandErrorDto {
            code: "qr_empty_text",
            message: "最新文本为空，无法生成二维码。",
            retryable: false,
        },
        QrError::TextTooLarge => QrCommandErrorDto {
            code: "qr_text_too_large",
            message: "最新文本过长，无法生成二维码。",
            retryable: false,
        },
        QrError::UnreadableImage | QrError::NonTextPayload => QrCommandErrorDto {
            code: "qr_image_unreadable",
            message: "最新图片中未识别到可用二维码。",
            retryable: false,
        },
        QrError::Clipboard(_) => QrCommandErrorDto {
            code: "qr_history_unavailable",
            message: "二维码结果未能保存到内置剪贴板，请重试。",
            retryable: true,
        },
    }
}

} // verus!
