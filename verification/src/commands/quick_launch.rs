//! Quick launch commands: their inputs and the stable codes of their
//! failures.
use vstd::prelude::*;


verus! {

/// A program path.
#[derive(Debug, Clone, PartialEq, Eq)]
pub struct PathInput {
    pub path: String,
}

/// A program to pin, with where it was found.
#[derive(Debug, Clone, PartialEq, Eq)]
pub struct PinInput {
    pub path: String,
    pub source: Option<String>,
}

/// A visibility switch for a program.
#[derive(Debug, Clone, PartialEq, Eq)]
pub struct VisibilityInput {
    pub path: String,
    pub visible: bool,
}

/// Moves one program before another.
#[derive(Debug, Clone, PartialEq, Eq)]
pub struct ReorderInput {
    pub active_path: String,
    pub over_path: String,
}

/// Tool menu preferences.
#[derive(Debug, Clone, PartialEq, Eq)]
pub struct ToolMenuPreferencesInput<P> {
    pub preferences: P,
}

/// A quick launch failure.
#[derive(Debug, Clone, PartialEq, Eq)]
pub struct QuickLaunchCommandError {
    pub code: &'static str,
    pub message: String,
}

/// Why a quick launch operation failed.
#[derive(Debug, Clone, PartialEq, Eq)]
pub enum QuickLaunchError {
    InvalidPath,
    AlreadyPinned,
    NotPinned,
    Unavailable,
    LaunchFailed,
    Storage(String),
    Icon(String),
    DiscoveryState,
}

/// The frontend error for a failed quick launch operation.
pub fn map_error(error: &QuickLaunchError) -> (result: QuickLaunchCommandError)
    ensures
        (result.code@, result.message@) == match *error {
            QuickLaunchError::InvalidPath => ("quick_launch_invalid_path"@, "所选文件不是可启动的程序或快捷方式。"@),
            QuickLaunchError::AlreadyPinned => ("quick_launch_already_pinned"@, "该程序已固定。"@),
            QuickLaunchError::NotPinned => ("quick_launch_not_pinned"@, "该程序已不在固定列表中。"@),
            QuickLaunchError::Unavailable => ("quick_launch_unavailable"@, "该程序或图标当前不可用。"@),
            QuickLaunchError::LaunchFailed => ("quick_launch_launch_failed"@, "无法启动该程序，请检查目标是否仍存在。"@),
            _ => ("quick_launch_operation_failed"@, "快速启动操作未完成，请重试。"@),
        },
{
    let (code, message): (&'static str, &'static str) = match error {
        QuickLaunchError::InvalidPath => ("quick_launch_invalid_path", "所选文件不是可启动的程序或快捷方式。"),
        QuickLaunchError::AlreadyPinned => ("quick_launch_already_pinned", "该程序已固定。"),
        QuickLaunchError::NotPinned => ("quick_launch_not_pinned", "该程序已不在固定列表中。"),
        QuickLaunchError::Unavailable => ("quick_launch_unavailable", "该程序或图标当前不可用。"),
        QuickLaunchError::LaunchFailed => ("quick_launch_launch_failed", "无法启动该程序，请检查目标是否仍存在。"),
        QuickLaunchError::Storage(_) | QuickLaunchError::Icon(_) | QuickLaunchError::DiscoveryState => (
            "quick_launch_operation_failed",
            "快速启动操作未完成，请重试。",
        ),
    };
    QuickLaunchCommandError { code, message: message.to_owned() }
}

} // verus!
