//! The decisions behind hotkeys: which handler an action runs, whether the
//! main window hears of it, how a surface request is routed, and the
//! messages a failed forced toggle shows.
use vstd::prelude::*;

use crate::surface_window::ClipboardSurfaceCloseReason;
use crate::text::concat;

verus! {


/// Why a forced surface toggle failed, with the underlying error text.
#[derive(Debug, Clone, PartialEq, Eq)]
pub enum ForcedSurfaceToggleError {
    Close(String),
    Initialize(String),
    Show(String),
}

impl ForcedSurfaceToggleError {
    /// The message shown to the user: the failed stage, then the error.
    pub fn user_message(&self) -> (message: String)
        ensures
            message@ == match self {
                ForcedSurfaceToggleError::Close(error) => "关闭剪贴板面板失败："@ + error@,
                ForcedSurfaceToggleError::Initialize(error) => "初始化剪贴板面板失败："@ + error@,
                ForcedSurfaceToggleError::Show(error) => "显示剪贴板面板失败："@ + error@,
            },
    {
        match self {
            ForcedSurfaceToggleError::Close(error) => concat("关闭剪贴板面板失败：", error.as_str()),
            ForcedSurfaceToggleError::Initialize(error) => concat("初始化剪贴板面板失败：", error.as_str()),
            ForcedSurfaceToggleError::Show(error) => concat("显示剪贴板面板失败：", error.as_str()),
        }
    }
}

/// What a surface request asks for.
#[derive(Debug, Clone, Copy, PartialEq, Eq, Structural)]
pub enum SurfaceRequest {
    Toggle,
    Open,
}

/// Where a surface request came from.
#[derive(Debug, Clone, Copy, PartialEq, Eq, Structural)]
pub enum SurfaceRequestSource {
    OrdinaryHotkey,
    DebugQa,
}

impl SurfaceRequestSource {
    /// The source's name in traces.
    pub fn as_str(self) -> (name: &'static str)
        ensures
            name@ == match self {
                SurfaceRequestSource::OrdinaryHotkey => "ordinary_hotkey"@,
                SurfaceRequestSource::DebugQa => "debug_qa"@,
            },
    {
        match self {
            SurfaceRequestSource::OrdinaryHotkey => "ordinary_hotkey",
            SurfaceRequestSource::DebugQa => "debug_qa",
        }
    }
}

/// What a surface request does.
#[derive(Debug, Clone, Copy, PartialEq, Eq, Structural)]
pub enum SurfaceRequestRoute {
    Open,
    KeepOpen,
    Close(ClipboardSurfaceCloseReason),
}

/// The route of a request: a hidden surface opens; a visible one closes on
/// a toggle (for the reason its source gives) and stays open on an open.
pub open spec fn route_of(visible: bool, request: SurfaceRequest, source: SurfaceRequestSource) -> SurfaceRequestRoute {
    if !visible {
        SurfaceRequestRoute::Open
    } else {
        match request {
            SurfaceRequest::Toggle => SurfaceRequestRoute::Close(
                match source {
                    SurfaceRequestSource::OrdinaryHotkey => ClipboardSurfaceCloseReason::HotkeyToggle,
                    SurfaceRequestSource::DebugQa => ClipboardSurfaceCloseReason::DebugQaReset,
                },
            ),
            SurfaceRequest::Open => SurfaceRequestRoute::KeepOpen,
        }
    }
}

/// Routes a surface request.
pub fn request_route(visible: bool, request: SurfaceRequest, source: SurfaceRequestSource) -> (route: SurfaceRequestRoute)
    ensures
        route == route_of(visible, request, source),
{
    if !visible {
        return SurfaceRequestRoute::Open;
    }
    match request {
        SurfaceRequest::Toggle => SurfaceRequestRoute::Close(
            match source {
                SurfaceRequestSource::OrdinaryHotkey => ClipboardSurfaceCloseReason::HotkeyToggle,
                SurfaceRequestSource::DebugQa => ClipboardSurfaceCloseReason::DebugQaReset,
            },
        ),
        SurfaceRequest::Open => SurfaceRequestRoute::KeepOpen,
    }
}

/// The foreground window a forced toggle captures: it needs the window,
/// its process and the application's own main window.
pub fn forced_candidate(
    foreground_window: Option<usize>,
    foreground_process_id: Option<u32>,
    own_window: Option<usize>,
) -> (candidate: Option<(usize, u32, usize)>)
    ensures
        candidate == match (foreground_window, foreground_process_id, own_window) {
            (Some(window), Some(process), Some(own)) => Some((window, process, own)),
            _ => None::<(usize, u32, usize)>,
        },
{
    match (foreground_window, foreground_process_id, own_window) {
        (Some(window), Some(process), Some(own)) => Some((window, process, own)),
        _ => None,
    }
}

/// The actions a hotkey can trigger.
#[derive(Debug, Clone, Copy, PartialEq, Eq, Structural)]
pub enum HotkeyActionId {
    ClipboardOpenPanel,
    ClipboardQrConvert,
    ScreenshotCapture,
    ClipboardPinImage,
    LauncherOpen,
}

/// Whether a hotkey went down or up.
#[derive(Debug, Clone, Copy, PartialEq, Eq, Structural)]
pub enum HotkeyActionPhase {
    Pressed,
    Released,
}

/// The handler a hotkey event runs.
#[derive(Debug, Clone, Copy, PartialEq, Eq, Structural)]
pub enum HotkeyRoute {
    ClipboardPanel,
    QrConversion,
    ScreenshotCapture,
    PinLatestImage,
    ToolMenu,
    Nothing,
}

/// The handler of a hotkey event: the panel, QR conversion, screenshot and
/// pin run when their key goes down; the tool menu hears both phases.
pub open spec fn route_for_action(action: HotkeyActionId, phase: HotkeyActionPhase) -> HotkeyRoute {
    match action {
        HotkeyActionId::LauncherOpen => HotkeyRoute::ToolMenu,
        _ => if phase == HotkeyActionPhase::Released {
            HotkeyRoute::Nothing
        } else {
            match action {
                HotkeyActionId::ClipboardOpenPanel => HotkeyRoute::ClipboardPanel,
                HotkeyActionId::ClipboardQrConvert => HotkeyRoute::QrConversion,
                HotkeyActionId::ScreenshotCapture => HotkeyRoute::ScreenshotCapture,
                _ => HotkeyRoute::PinLatestImage,
            }
        },
    }
}

/// The handler of a hotkey event.
pub fn route_action(action: HotkeyActionId, phase: HotkeyActionPhase) -> (route: HotkeyRoute)
    ensures
        route == route_for_action(action, phase),
{
    match (action, phase) {
        (HotkeyActionId::LauncherOpen, _) => HotkeyRoute::ToolMenu,
        (_, HotkeyActionPhase::Released) => HotkeyRoute::Nothing,
        (HotkeyActionId::ClipboardOpenPanel, HotkeyActionPhase::Pressed) => HotkeyRoute::ClipboardPanel,
        (HotkeyActionId::ClipboardQrConvert, HotkeyActionPhase::Pressed) => HotkeyRoute::QrConversion,
        (HotkeyActionId::ScreenshotCapture, HotkeyActionPhase::Pressed) => HotkeyRoute::ScreenshotCapture,
        (HotkeyActionId::ClipboardPinImage, HotkeyActionPhase::Pressed) => HotkeyRoute::PinLatestImage,
    }
}

/// Whether the main window hears of a hotkey action: not of the actions
/// handled natively (the panel, screenshot and pin).
pub fn should_broadcast_hotkey_action(action: HotkeyActionId) -> (broadcast: bool)
    ensures
        broadcast == !(action == HotkeyActionId::ClipboardOpenPanel || action == HotkeyActionId::ScreenshotCapture
            || action == HotkeyActionId::ClipboardPinImage),
{
    match action {
        HotkeyActionId::ClipboardOpenPanel | HotkeyActionId::ScreenshotCapture | HotkeyActionId::ClipboardPinImage => false,
        HotkeyActionId::ClipboardQrConvert | HotkeyActionId::LauncherOpen => true,
    }
}

/// What a tool menu action reports: success, or for the forced backend a
/// failure naming the window operation (the standard backend only logs it).
pub fn tool_menu_outcome(forced: bool, error: Option<&str>) -> (result: Result<(), String>)
    ensures
        match error {
            None => result is Ok,
            Some(detail) => if forced {
                result matches Err(message) && message@ == "工具盘窗口操作失败："@ + detail@
            } else {
                result is Ok
            },
        },
{
    match error {
        None => Ok(()),
        Some(detail) => {
            if forced {
                Err(concat("工具盘窗口操作失败：", detail))
            } else {
                Ok(())
            }
        },
    }
}

/// The detail recorded when a forced hotkey is disabled after a failure:
/// whether the system shortcut came back or the application must restart.
pub fn forced_failure_detail(reason: &str, unregistered: bool) -> (detail: String)
    ensures
        detail@ == reason@ + if unregistered {
            "。强制覆盖已停止，系统快捷键已恢复；请重试或重启应用。"@
        } else {
            "。强制覆盖后端未能正常停止，请立即退出并重启应用。"@
        },
{
    if unregistered {
        concat(reason, "。强制覆盖已停止，系统快捷键已恢复；请重试或重启应用。")
    } else {
        concat(reason, "。强制覆盖后端未能正常停止，请立即退出并重启应用。")
    }
}

} // verus!
