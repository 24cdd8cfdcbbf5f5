//! General settings: the page view model, the data directory as shown, and
//! the messages of failed changes.
use vstd::prelude::*;

use crate::text::{concat, has_prefix, strip_prefix};

verus! {

/// The general settings page.
#[derive(Debug, Clone, PartialEq, Eq)]
pub struct GeneralViewModel {
    pub version: String,
    pub autostart_enabled: bool,
    pub elevated_autostart_enabled: bool,
    pub start_minimized: bool,
    pub close_to_tray: bool,
    pub tray_icon_visible: bool,
    pub administrator_mode: bool,
    pub crash_diagnostics_enabled: bool,
    pub data_directory: String,
}

/// Where data was copied, and that a restart is needed.
#[derive(Debug, Clone, PartialEq, Eq)]
pub struct DataDirectoryMigrationResult {
    pub data_directory: String,
    pub restart_required: bool,
}

/// A general settings failure: a stable code and a message.
#[derive(Debug, Clone, PartialEq, Eq)]
pub struct GeneralCommandError {
    pub code: &'static str,
    pub message: String,
}

/// The behavior switches the general page shows.
#[derive(Debug, Clone, Copy, PartialEq, Eq, Structural)]
pub struct GeneralBehavior {
    pub autostart_enabled: bool,
    pub elevated_autostart_enabled: bool,
    pub start_minimized: bool,
    pub close_to_tray: bool,
    pub tray_icon_visible: bool,
    pub administrator_mode: bool,
    pub crash_diagnostics_enabled: bool,
}

/// The general page for a version, the behavior switches and the data
/// directory.
pub fn build_view_model(version: String, behavior: GeneralBehavior, data_directory: String) -> (model: GeneralViewModel)
    ensures
        model.version@ == version@,
        model.autostart_enabled == behavior.autostart_enabled,
        model.elevated_autostart_enabled == behavior.elevated_autostart_enabled,
        model.start_minimized == behavior.start_minimized,
        model.close_to_tray == behavior.close_to_tray,
        model.tray_icon_visible == behavior.tray_icon_visible,
        model.administrator_mode == behavior.administrator_mode,
        model.crash_diagnostics_enabled == behavior.crash_diagnostics_enabled,
        model.data_directory@ == data_directory@,
{
    GeneralViewModel {
        version,
        autostart_enabled: behavior.autostart_enabled,
        elevated_autostart_enabled: behavior.elevated_autostart_enabled,
        start_minimized: behavior.start_minimized,
        close_to_tray: behavior.close_to_tray,
        tray_icon_visible: behavior.tray_icon_visible,
        administrator_mode: behavior.administrator_mode,
        crash_diagnostics_enabled: behavior.crash_diagnostics_enabled,
        data_directory,
    }
}

/// The Windows verbatim path prefix `\\?\`.
pub const VERBATIM_PREFIX: &'static str = "\\\\?\\";

/// A data directory as shown: without the verbatim prefix.
pub fn display_data_directory(path: &str) -> (shown: String)
    ensures
        shown@ == if has_prefix(path@, VERBATIM_PREFIX@) {
            path@.subrange(VERBATIM_PREFIX@.len() as int, path@.len() as int)
        } else {
            path@
        },
{
    match strip_prefix(path, VERBATIM_PREFIX) {
        Some(rest) => rest,
        None => path.to_owned(),
    }
}

/// The message for a tray icon change that did not apply: whether saving
/// the old value back worked or not.
pub fn tray_visibility_failure_message(apply: &str, rollback: Option<&str>) -> (message: String)
    ensures
        message@ == match rollback {
            None => "托盘图标设置未生效，保存状态已回滚："@ + apply@,
            Some(error) => "托盘图标设置未生效，且保存状态回滚失败；请重启应用后检查设置：应用错误="@ + apply@
                + "；回滚错误="@ + error@,
        },
{
    match rollback {
        None => concat("托盘图标设置未生效，保存状态已回滚：", apply),
        Some(error) => {
            let head = concat("托盘图标设置未生效，且保存状态回滚失败；请重启应用后检查设置：应用错误=", apply);
            let middle = concat(head.as_str(), "；回滚错误=");
            concat(middle.as_str(), error)
        },
    }
}

/// The message for an elevated autostart change that did not apply:
/// whether ordinary autostart was restored or not.
pub fn elevated_autostart_failure_message(apply: &str, rollback: Option<&str>) -> (message: String)
    ensures
        message@ == match rollback {
            None => "管理员权限自启设置未生效，普通自启状态已恢复："@ + apply@,
            Some(error) => "管理员权限自启设置未生效，且普通自启状态恢复失败；请重启应用后检查设置：授权错误="@
                + apply@ + "；回滚错误="@ + error@,
        },
{
    match rollback {
        None => concat("管理员权限自启设置未生效，普通自启状态已恢复：", apply),
        Some(error) => {
            let head = concat("管理员权限自启设置未生效，且普通自启状态恢复失败；请重启应用后检查设置：授权错误=", apply);
            let middle = concat(head.as_str(), "；回滚错误=");
            concat(middle.as_str(), error)
        },
    }
}

/// The error for a general setting whose change failed: a stable code and
/// the failure after a fixed explanation.
pub fn general_setting_error(code: &'static str, explanation: &str, error: &str) -> (result: GeneralCommandError)
    ensures
        result.code@ == code@,
        result.message@ == explanation@ + error@,
{
    GeneralCommandError { code, message: concat(explanation, error) }
}

/// The error for an elevated autostart change that did not apply.
pub fn elevated_autostart_error(error: &str) -> (result: GeneralCommandError)
    ensures
        result.code@ == "elevated_autostart_update_failed"@,
        result.message@ == "管理员权限自启设置未生效："@ + error@,
{
    GeneralCommandError { code: "elevated_autostart_update_failed", message: concat("管理员权限自启设置未生效：", error) }
}

/// The error when the general settings backend is unavailable.
pub fn general_runtime_unavailable() -> (result: GeneralCommandError)
    ensures
        result.code@ == "general_runtime_unavailable"@,
        result.message@ == "常规设置后台暂时不可用，请重启应用后重试。"@,
{
    GeneralCommandError { code: "general_runtime_unavailable", message: "常规设置后台暂时不可用，请重启应用后重试。".to_owned() }
}

/// The error when elevated autostart is asked for while ordinary autostart
/// is off.
pub fn elevated_autostart_requires_autostart() -> (result: GeneralCommandError)
    ensures
        result.code@ == "elevated_autostart_requires_autostart"@,
        result.message@ == "请先开启“开机自启动”，再启用管理员权限启动。"@,
{
    GeneralCommandError {
        code: "elevated_autostart_requires_autostart",
        message: "请先开启“开机自启动”，再启用管理员权限启动。".to_owned(),
    }
}

} // verus!
