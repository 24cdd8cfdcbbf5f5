//! The overview page: application state and the hotkeys as it lists them.
use vstd::prelude::*;

use crate::commands::hotkey::{HotkeyRegistrationSnapshot, HotkeyRuntimeState, HotkeySnapshot};
use crate::controller::HotkeyActionId;
use crate::startup::ApplicationStatus;

verus! {

/// The overview page.
#[derive(Debug, PartialEq, Eq)]
pub struct OverviewViewModel {
    pub version: String,
    pub service_state: &'static str,
    pub startup_enabled: bool,
    pub hotkeys: Option<Vec<OverviewHotkeyViewModel>>,
    pub statistics: Option<OverviewStatistics>,
}

/// One hotkey on the overview page.
#[derive(Debug, PartialEq, Eq)]
pub struct OverviewHotkeyViewModel {
    pub id: String,
    pub binding: Option<String>,
    pub enabled: Option<bool>,
    pub state: Option<String>,
    pub detail: Option<String>,
}

/// Usage counts on the overview page.
#[derive(Debug, Clone, Copy, PartialEq, Eq, Structural)]
pub struct OverviewStatistics {
    pub today_triggers: Option<u64>,
    pub week_triggers: Option<u64>,
    pub month_triggers: Option<u64>,
    pub saved_minutes_this_month: Option<u64>,
}

/// The overview id of an action.
pub open spec fn overview_id(action: HotkeyActionId) -> Seq<char> {
    match action {
        HotkeyActionId::ScreenshotCapture => "capture"@,
        HotkeyActionId::ClipboardPinImage => "pinImage"@,
        HotkeyActionId::ClipboardQrConvert => "clipboardQr"@,
        HotkeyActionId::LauncherOpen => "toolWheel"@,
        HotkeyActionId::ClipboardOpenPanel => "clipboardPanel"@,
    }
}

/// The overview state of a registration.
pub open spec fn overview_state(state: HotkeyRuntimeState) -> Seq<char> {
    match state {
        HotkeyRuntimeState::Registered => "normal"@,
        HotkeyRuntimeState::Conflict => "conflict"@,
        _ => "unavailable"@,
    }
}

/// One hotkey as the overview shows it.
pub fn overview_hotkey(hotkey: HotkeyRegistrationSnapshot) -> (view: OverviewHotkeyViewModel)
    ensures
        view.id@ == overview_id(hotkey.action_id),
        view.binding matches Some(binding) && binding@ == hotkey.binding@,
        view.enabled == Some(hotkey.configured_enabled),
        view.state matches Some(state) && state@ == overview_state(hotkey.runtime_state),
        view.detail == hotkey.detail,
{
    let id = match hotkey.action_id {
        HotkeyActionId::ScreenshotCapture => "capture",
        HotkeyActionId::ClipboardPinImage => "pinImage",
        HotkeyActionId::ClipboardQrConvert => "clipboardQr",
        HotkeyActionId::LauncherOpen => "toolWheel",
        HotkeyActionId::ClipboardOpenPanel => "clipboardPanel",
    };
    let state = match hotkey.runtime_state {
        HotkeyRuntimeState::Registered => "normal",
        HotkeyRuntimeState::Conflict => "conflict",
        HotkeyRuntimeState::Disabled | HotkeyRuntimeState::Unavailable | HotkeyRuntimeState::Degraded => "unavailable",
    };
    OverviewHotkeyViewModel {
        id: id.to_owned(),
        binding: Some(hotkey.binding),
        enabled: Some(hotkey.configured_enabled),
        state: Some(state.to_owned()),
        detail: hotkey.detail,
    }
}

/// The overview page: the hotkeys when their snapshot is available, no
/// statistics yet.
pub fn build_view_model(
    version: String,
    status: ApplicationStatus,
    startup_enabled: bool,
    snapshot: Option<HotkeySnapshot>,
) -> (view: OverviewViewModel)
    ensures
        view.version@ == version@,
        view.service_state@ == "running"@,
        view.startup_enabled == startup_enabled,
        view.statistics is None,
        match snapshot {
            None => view.hotkeys is None,
            Some(s) => view.hotkeys matches Some(list) && list@.len() == s.actions@.len() && forall|i: int|
                0 <= i < list@.len() ==> #[trigger] list@[i].id@ == overview_id(s.actions@[i].action_id),
        },
{
    let hotkeys = match snapshot {
        None => None,
        Some(snapshot) => {
            let count = snapshot.actions.len();
            let ghost actions = snapshot.actions@;
            assert(actions.len() == count);
            let mut remaining = snapshot.actions;
            let mut list: Vec<OverviewHotkeyViewModel> = Vec::new();
            let mut k: usize = 0;
            while remaining.len() > 0
                invariant
                    list@.len() == k,
                    k + remaining@.len() == actions.len(),
                    actions.len() <= usize::MAX,
                    forall|j: int| 0 <= j < remaining@.len() ==> remaining@[j] == actions[j + k],
                    forall|i: int| 0 <= i < k ==> #[trigger] list@[i].id@ == overview_id(actions[i].action_id),
                decreases remaining.len(),
            {
                let hotkey = remaining.remove(0);
                assert(hotkey == actions[k as int]);
                list.push(overview_hotkey(hotkey));
                k += 1;
            }
            Some(list)
        },
    };
    OverviewViewModel {
        version,
        service_state: match status {
            ApplicationStatus::Running => "running",
        },
        startup_enabled,
        hotkeys,
        statistics: None,
    }
}

} // verus!
