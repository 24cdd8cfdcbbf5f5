//! Hotkey commands: bindings and their runtime state, the Explorer restart
//! notice, and the stable codes of hotkey and capture failures.
use vstd::prelude::*;

use crate::controller::HotkeyActionId;
use crate::text::{chars_of, str_equal, string_from_chars};

verus! {

/// How a binding relates to Windows.
#[derive(Debug, Clone, Copy, PartialEq, Eq, Structural)]
pub enum HotkeyBindingClassification {
    Ordinary,
    SystemReserved,
    Blocked,
    UnsupportedSequence,
}

/// Whether a hotkey is registered.
#[derive(Debug, Clone, Copy, PartialEq, Eq, Structural)]
pub enum HotkeyRuntimeState {
    Registered,
    Conflict,
    Disabled,
    Unavailable,
    Degraded,
}

/// One action's binding and state.
#[derive(Debug, Clone, PartialEq, Eq)]
pub struct HotkeyRegistrationSnapshot {
    pub action_id: HotkeyActionId,
    pub binding: String,
    pub configured_enabled: bool,
    pub force_override_system: bool,
    pub action_available: bool,
    pub classification: HotkeyBindingClassification,
    pub runtime_state: HotkeyRuntimeState,
    pub runtime_backend: Option<String>,
    pub detail: Option<String>,
}

/// Every action's binding and state, with the settings revision.
#[derive(Debug, Clone, PartialEq, Eq)]
pub struct HotkeySnapshot {
    pub revision: u64,
    pub actions: Vec<HotkeyRegistrationSnapshot>,
}

/// What syncing the system's disabled hotkeys did.
#[derive(Debug, Clone, PartialEq, Eq)]
pub struct DisabledHotkeysOutcome {
    pub changed: bool,
    pub managed_letters: Vec<char>,
    pub registry_value: String,
}

/// A binding change request.
#[derive(Debug, Clone, PartialEq, Eq)]
pub struct UpdateHotkeyBindingPatch {
    pub action_id: String,
    pub expected_revision: u64,
    pub binding: String,
    pub force_override_system: bool,
}

/// An enable switch request.
#[derive(Debug, Clone, PartialEq, Eq)]
pub struct UpdateHotkeyEnabledPatch {
    pub action_id: String,
    pub expected_revision: u64,
    pub enabled: bool,
}

/// How a binding was classified, for the binding editor.
#[derive(Debug, Clone, PartialEq, Eq)]
pub struct HotkeyBindingClassificationResponse {
    pub binding: String,
    pub normalized_binding: String,
    pub classification: HotkeyBindingClassification,
    pub message: String,
    pub force_override_allowed: bool,
}

/// The notice that Explorer must restart for a new `Win+letter` binding.
#[derive(Debug, Clone, PartialEq, Eq)]
pub struct SystemHotkeyNotice {
    pub binding: String,
    pub letter: String,
    pub restart_required: bool,
}

/// A saved binding with the notice it needs.
#[derive(Debug, Clone, PartialEq, Eq)]
pub struct UpdateHotkeyBindingResponse {
    pub snapshot: HotkeySnapshot,
    pub system_hotkey_notice: Option<SystemHotkeyNotice>,
}

/// A hotkey settings failure.
#[derive(Debug, Clone, PartialEq, Eq)]
pub struct HotkeyCommandError {
    pub code: &'static str,
    pub message: String,
    pub actual_revision: Option<u64>,
}

/// A hotkey capture failure.
#[derive(Debug, Clone, PartialEq, Eq)]
pub struct HotkeyCaptureCommandError {
    pub code: &'static str,
    pub message: String,
}

/// The letter of a bare `Win+<letter>` binding (an ASCII capital).
pub open spec fn win_letter_of(binding: Seq<char>) -> Option<char> {
    if binding.len() == 5 && binding.subrange(0, 4) == "Win+"@ && 'A' <= binding[4] <= 'Z' {
        Some(binding[4])
    } else {
        None
    }
}

/// The letter of a bare `Win+<letter>` binding.
pub fn win_single_letter(binding: &str) -> (letter: Option<char>)
    ensures
        letter == win_letter_of(binding@),
{
    let chars = chars_of(binding);
    proof {
        reveal_strlit("Win+");
    }
    if chars.len() == 5 && chars[0] == 'W' && chars[1] == 'i' && chars[2] == 'n' && chars[3] == '+' && 'A' <= chars[4]
        && chars[4] <= 'Z' {
        assert(chars@.subrange(0, 4) =~= "Win+"@);
        Some(chars[4])
    } else {
        proof {
            if chars@.len() == 5 && chars@.subrange(0, 4) == "Win+"@ {
                assert(chars@.subrange(0, 4)[0] == 'W');
                assert(chars@.subrange(0, 4)[1] == 'i');
                assert(chars@.subrange(0, 4)[2] == 'n');
                assert(chars@.subrange(0, 4)[3] == '+');
            }
        }
        None
    }
}

/// The first action of the snapshot with `action_id`, if any.
pub open spec fn action_index(actions: Seq<HotkeyRegistrationSnapshot>, action_id: HotkeyActionId) -> Option<int> {
    if exists|i: int| 0 <= i < actions.len() && #[trigger] actions[i].action_id == action_id {
        Some(
            choose|i: int|
                0 <= i < actions.len() && #[trigger] actions[i].action_id == action_id && forall|j: int|
                    0 <= j < i ==> actions[j].action_id != action_id,
        )
    } else {
        None
    }
}

/// Whether saving `action_id` needs an Explorer restart notice, and for
/// which binding and letter: only when the sync changed the registry and
/// the action is enabled, forced, available and bound to a bare
/// `Win+letter` that the sync manages.
pub open spec fn notice_for(
    action_id: HotkeyActionId,
    actions: Seq<HotkeyRegistrationSnapshot>,
    outcome: Option<DisabledHotkeysOutcome>,
) -> Option<(Seq<char>, char)> {
    match outcome {
        None => None,
        Some(result) => if !result.changed {
            None
        } else {
            match action_index(actions, action_id) {
                None => None,
                Some(i) => {
                    let action = actions[i];
                    if !action.configured_enabled || !action.force_override_system || !action.action_available {
                        None
                    } else {
                        match win_letter_of(action.binding@) {
                            None => None,
                            Some(letter) => if result.managed_letters@.contains(letter) {
                                Some((action.binding@, letter))
                            } else {
                                None
                            },
                        }
                    }
                },
            }
        },
    }
}

/// The sync outcome behind an optional borrow.
pub open spec fn owned_outcome(outcome: Option<&DisabledHotkeysOutcome>) -> Option<DisabledHotkeysOutcome> {
    match outcome {
        Some(result) => Some(*result),
        None => None,
    }
}

/// The Explorer restart notice for a saved binding, when one is needed.
pub fn build_system_hotkey_notice(
    action_id: HotkeyActionId,
    snapshot: &HotkeySnapshot,
    outcome: Option<&DisabledHotkeysOutcome>,
) -> (notice: Option<SystemHotkeyNotice>)
    ensures
        match notice_for(action_id, snapshot.actions@, owned_outcome(outcome)) {
            None => notice is None,
            Some((binding, letter)) => notice matches Some(n) && n.binding@ == binding && n.letter@ == seq![letter]
                && n.restart_required,
        },
{
    let result = match outcome {
        None => {
            return None;
        },
        Some(result) => result,
    };
    if !result.changed {
        return None;
    }
    let mut i: usize = 0;
    while i < snapshot.actions.len() && snapshot.actions[i].action_id != action_id
        invariant
            i <= snapshot.actions@.len(),
            forall|j: int| 0 <= j < i ==> snapshot.actions@[j].action_id != action_id,
        decreases snapshot.actions.len() - i,
    {
        i += 1;
    }
    if i == snapshot.actions.len() {
        return None;
    }
    proof {
        let k = choose|k: int|
            0 <= k < snapshot.actions@.len() && #[trigger] snapshot.actions@[k].action_id == action_id && forall|j: int|
                0 <= j < k ==> snapshot.actions@[j].action_id != action_id;
        assert(0 <= i < snapshot.actions@.len() && snapshot.actions@[i as int].action_id == action_id && forall|j: int|
            0 <= j < i ==> snapshot.actions@[j].action_id != action_id);
        if k < i {
            assert(snapshot.actions@[k].action_id != action_id);
        } else if k > i {
            assert(snapshot.actions@[i as int].action_id != action_id);
        }
    }
    let action = &snapshot.actions[i];
    if !action.configured_enabled || !action.force_override_system || !action.action_available {
        return None;
    }
    let letter = match win_single_letter(action.binding.as_str()) {
        Some(letter) => letter,
        None => {
            return None;
        },
    };
    let mut managed = false;
    let mut k: usize = 0;
    while k < result.managed_letters.len()
        invariant
            k <= result.managed_letters@.len(),
            managed == exists|j: int| 0 <= j < k && result.managed_letters@[j] == letter,
        decreases result.managed_letters.len() - k,
    {
        if result.managed_letters[k] == letter {
            managed = true;
        }
        k += 1;
    }
    if !managed {
        return None;
    }
    let letters = vec![letter];
    assert(letters@ =~= seq![letter]);
    let letter_text = string_from_chars(&letters);
    Some(SystemHotkeyNotice { binding: action.binding.clone(), letter: letter_text, restart_required: true })
}

/// Why a binding was refused.
#[derive(Debug, Clone, PartialEq, Eq)]
pub enum HotkeyValidationError {
    ForceRequired,
    ForceOverrideNotApplicable,
    Blocked,
    UnsupportedSequence,
    UnknownAction(String),
    InvalidBinding(String),
    UnsupportedKey(String),
}

/// Why a hotkey change failed.
#[derive(Debug, Clone, PartialEq, Eq)]
pub enum HotkeyError {
    RevisionConflict { expected: u64, actual: u64 },
    Validation(HotkeyValidationError),
    Storage,
    StateLockPoisoned,
    AvailabilityAlreadyReconciled,
    RevisionOverflow,
    CorruptSettings,
}

/// The code and message each refused binding maps to.
pub open spec fn validation_contract(error: HotkeyValidationError) -> (Seq<char>, Seq<char>) {
    match error {
        HotkeyValidationError::ForceRequired => ("force_required"@, "此快捷键由 Windows 使用；必须明确确认强制覆盖。"@),
        HotkeyValidationError::ForceOverrideNotApplicable => (
            "force_override_not_applicable"@,
            "普通快捷键不能启用系统组合强制覆盖。"@,
        ),
        HotkeyValidationError::Blocked => ("blocked"@, "此系统安全快捷键不能被 OpenDeskTools 接管。"@),
        HotkeyValidationError::UnsupportedSequence => ("unsupported_sequence"@, "当前全局快捷键后端不支持连续按键。"@),
        HotkeyValidationError::UnknownAction(_) => ("unknown_action"@, "无法识别快捷键对应的操作。"@),
        _ => ("invalid_binding"@, "无法识别此快捷键组合。"@),
    }
}

/// The frontend error for a refused binding.
pub fn map_validation_error(error: HotkeyValidationError) -> (result: HotkeyCommandError)
    ensures
        (result.code@, result.message@) == validation_contract(error),
        result.actual_revision is None,
{
    let (code, message): (&'static str, &'static str) = match error {
        HotkeyValidationError::ForceRequired => ("force_required", "此快捷键由 Windows 使用；必须明确确认强制覆盖。"),
        HotkeyValidationError::ForceOverrideNotApplicable => (
            "force_override_not_applicable",
            "普通快捷键不能启用系统组合强制覆盖。",
        ),
        HotkeyValidationError::Blocked => ("blocked", "此系统安全快捷键不能被 OpenDeskTools 接管。"),
        HotkeyValidationError::UnsupportedSequence => ("unsupported_sequence", "当前全局快捷键后端不支持连续按键。"),
        HotkeyValidationError::UnknownAction(_) => ("unknown_action", "无法识别快捷键对应的操作。"),
        HotkeyValidationError::InvalidBinding(_) | HotkeyValidationError::UnsupportedKey(_) => (
            "invalid_binding",
            "无法识别此快捷键组合。",
        ),
    };
    HotkeyCommandError { code, message: message.to_owned(), actual_revision: None }
}

/// The frontend error for a failed hotkey change.
pub fn map_error(error: HotkeyError) -> (result: HotkeyCommandError)
    ensures
        match error {
            HotkeyError::RevisionConflict { actual, .. } => result.code@ == "hotkey_revision_conflict"@ && result.message@
                == "快捷键设置已在其他位置更新，请刷新后重试。"@ && result.actual_revision == Some(actual),
            HotkeyError::Validation(inner) => (result.code@, result.message@) == validation_contract(inner)
                && result.actual_revision is None,
            HotkeyError::Storage => result.code@ == "hotkey_storage_failed"@ && result.message@
                == "快捷键设置未能保存，请稍后重试。"@ && result.actual_revision is None,
            HotkeyError::StateLockPoisoned | HotkeyError::AvailabilityAlreadyReconciled => result.code@
                == "hotkey_state_unavailable"@ && result.message@ == "快捷键服务暂时不可用，请重启应用后重试。"@
                && result.actual_revision is None,
            HotkeyError::RevisionOverflow => result.code@ == "hotkey_revision_overflow"@ && result.message@
                == "快捷键设置版本已达到上限。"@ && result.actual_revision is None,
            HotkeyError::CorruptSettings => result.code@ == "hotkey_settings_corrupt"@ && result.message@
                == "快捷键配置已损坏，应用未覆盖原始数据。"@ && result.actual_revision is None,
        },
{
    match error {
        HotkeyError::RevisionConflict { actual, .. } => HotkeyCommandError {
            code: "hotkey_revision_conflict",
            message: "快捷键设置已在其他位置更新，请刷新后重试。".to_owned(),
            actual_revision: Some(actual),
        },
        HotkeyError::Validation(inner) => map_validation_error(inner),
        HotkeyError::Storage => HotkeyCommandError {
            code: "hotkey_storage_failed",
            message: "快捷键设置未能保存，请稍后重试。".to_owned(),
            actual_revision: None,
        },
        HotkeyError::StateLockPoisoned | HotkeyError::AvailabilityAlreadyReconciled => HotkeyCommandError {
            code: "hotkey_state_unavailable",
            message: "快捷键服务暂时不可用，请重启应用后重试。".to_owned(),
            actual_revision: None,
        },
        HotkeyError::RevisionOverflow => HotkeyCommandError {
            code: "hotkey_revision_overflow",
            message: "快捷键设置版本已达到上限。".to_owned(),
            actual_revision: None,
        },
        HotkeyError::CorruptSettings => HotkeyCommandError {
            code: "hotkey_settings_corrupt",
            message: "快捷键配置已损坏，应用未覆盖原始数据。".to_owned(),
            actual_revision: None,
        },
    }
}

/// What the binding editor says of a classification.
pub fn classification_message(classification: HotkeyBindingClassification) -> (message: &'static str)
    ensures
        message@ == match classification {
            HotkeyBindingClassification::Ordinary => "此快捷键可以保存。"@,
            HotkeyBindingClassification::SystemReserved => "此组合由 Windows 使用，需要明确确认强制覆盖。"@,
            HotkeyBindingClassification::Blocked => "此系统安全组合不能被接管。"@,
            HotkeyBindingClassification::UnsupportedSequence => "当前全局快捷键后端不支持连续按键。"@,
        },
{
    match classification {
        HotkeyBindingClassification::Ordinary => "此快捷键可以保存。",
        HotkeyBindingClassification::SystemReserved => "此组合由 Windows 使用，需要明确确认强制覆盖。",
        HotkeyBindingClassification::Blocked => "此系统安全组合不能被接管。",
        HotkeyBindingClassification::UnsupportedSequence => "当前全局快捷键后端不支持连续按键。",
    }
}

/// Why the keyboard hook failed.
#[derive(Debug, Clone, PartialEq, Eq)]
pub enum KeyboardHookError {
    HookInstall(String),
    UnsupportedPlatform,
    StateLockPoisoned,
}

/// Why hotkey capture failed.
#[derive(Debug, Clone, PartialEq, Eq)]
pub enum HotkeyCaptureError {
    Hook(KeyboardHookError),
    StateLockPoisoned,
}

/// The message of each capture error code.
pub open spec fn capture_message(code: Seq<char>) -> Seq<char> {
    if code == "capture_unsupported_platform"@ {
        "当前平台不支持原生快捷键捕获。"@
    } else if code == "capture_window_unavailable"@ {
        "主窗口暂时不可用，无法开始快捷键捕获。"@
    } else if code == "capture_hook_unavailable"@ {
        "无法启用系统快捷键捕获，请稍后重试。"@
    } else {
        "快捷键捕获服务暂时不可用，请关闭弹窗后重试。"@
    }
}

/// A capture error with the message its code has.
pub fn capture_command_error(code: &'static str) -> (result: HotkeyCaptureCommandError)
    ensures
        result.code@ == code@,
        result.message@ == capture_message(code@),
{
    let message = if str_equal(code, "capture_unsupported_platform") {
        "当前平台不支持原生快捷键捕获。"
    } else if str_equal(code, "capture_window_unavailable") {
        "主窗口暂时不可用，无法开始快捷键捕获。"
    } else if str_equal(code, "capture_hook_unavailable") {
        "无法启用系统快捷键捕获，请稍后重试。"
    } else {
        "快捷键捕获服务暂时不可用，请关闭弹窗后重试。"
    };
    HotkeyCaptureCommandError { code, message: message.to_owned() }
}


/// The frontend error for a failed capture: the hook could not be
/// installed, the platform has none, or the service is unavailable.
pub fn map_capture_error(error: HotkeyCaptureError) -> (result: HotkeyCaptureCommandError)
    ensures
        result.code@ == match error {
            HotkeyCaptureError::Hook(KeyboardHookError::HookInstall(_)) => "capture_hook_unavailable"@,
            HotkeyCaptureError::Hook(KeyboardHookError::UnsupportedPlatform) => "capture_unsupported_platform"@,
            _ => "capture_service_unavailable"@,
        },
        result.message@ == capture_message(result.code@),
{
    let code = match error {
        HotkeyCaptureError::Hook(KeyboardHookError::HookInstall(_)) => "capture_hook_unavailable",
        HotkeyCaptureError::Hook(KeyboardHookError::UnsupportedPlatform) => "capture_unsupported_platform",
        _ => "capture_service_unavailable",
    };
    capture_command_error(code)
}

} // verus!
