//! Closing the clipboard surface when a mouse button goes down outside it.
use vstd::prelude::*;

verus! {

/// Why the outside-pointer monitor could not start or stop.
#[derive(Debug, Clone, Copy, PartialEq, Eq, Structural)]
pub enum PointerMonitorError {
    LockPoisoned,
    ThreadStart,
    InstallHook,
    InstallPollingFallback,
    StopHook,
    WorkerPanicked,
    Unsupported,
}

/// A button press the monitor saw.
#[derive(Debug, Clone, Copy, PartialEq, Eq)]
pub struct PointerObservation {
    pub message: u32,
    pub point_x: i32,
    pub point_y: i32,
    pub observed_root: usize,
    pub backend: &'static str,
}

/// What a mouse message means for the open surface.
#[derive(Debug, Clone, Copy, PartialEq, Eq, Structural)]
pub enum PointerDecision {
    IgnoreNonButton,
    KeepInternalSurface,
    CloseOutside,
}

/// Mouse button-down messages.
pub const WM_LBUTTONDOWN: u32 = 0x0201;
pub const WM_RBUTTONDOWN: u32 = 0x0204;
pub const WM_MBUTTONDOWN: u32 = 0x0207;
pub const WM_XBUTTONDOWN: u32 = 0x020B;

/// Bits of the polled button mask.
pub const BUTTON_LEFT: u8 = 1;
pub const BUTTON_RIGHT: u8 = 2;
pub const BUTTON_MIDDLE: u8 = 4;
pub const BUTTON_X1: u8 = 8;
pub const BUTTON_X2: u8 = 16;

/// Whether `message` is a button-down message.
pub open spec fn is_button_down(message: u32) -> bool {
    message == WM_LBUTTONDOWN || message == WM_RBUTTONDOWN || message == WM_MBUTTONDOWN || message
        == WM_XBUTTONDOWN
}

/// Whether the pointer monitor may start watching for the surface roots
/// `internal_surface_roots`: it needs at least one root, and no root may be
/// the null window; otherwise the hook cannot be installed.
pub fn check_internal_roots(internal_surface_roots: &[usize]) -> (result: Result<(), PointerMonitorError>)
    ensures
        result is Ok <==> (internal_surface_roots@.len() > 0 && !internal_surface_roots@.contains(0usize)),
        result is Err ==> result == Err::<(), PointerMonitorError>(PointerMonitorError::InstallHook),
{
    if internal_surface_roots.len() == 0 {
        return Err(PointerMonitorError::InstallHook);
    }
    let mut i: usize = 0;
    while i < internal_surface_roots.len()
        invariant
            i <= internal_surface_roots@.len(),
            forall|k: int| 0 <= k < i ==> internal_surface_roots@[k] != 0usize,
        decreases internal_surface_roots.len() - i,
    {
        if internal_surface_roots[i] == 0 {
            assert(internal_surface_roots@[i as int] == 0usize);
            return Err(PointerMonitorError::InstallHook);
        }
        i += 1;
    }
    Ok(())
}

/// Whether `message` is a button-down message.
pub fn is_button_down_message(message: u32) -> (result: bool)
    ensures
        result == is_button_down(message),
{
    message == WM_LBUTTONDOWN || message == WM_RBUTTONDOWN || message == WM_MBUTTONDOWN || message
        == WM_XBUTTONDOWN
}

/// Buttons down now that were up at the previous poll.
pub fn new_button_presses(previous: u8, current: u8) -> (pressed: u8)
    ensures
        pressed == current & !previous,
{
    current & !previous
}

/// The message of the first newly pressed button, in left, right, middle,
/// extra order.
pub fn first_button_message(pressed: u8) -> (message: Option<u32>)
    ensures
        message == if pressed & BUTTON_LEFT != 0 {
            Some(WM_LBUTTONDOWN)
        } else if pressed & BUTTON_RIGHT != 0 {
            Some(WM_RBUTTONDOWN)
        } else if pressed & BUTTON_MIDDLE != 0 {
            Some(WM_MBUTTONDOWN)
        } else if pressed & (BUTTON_X1 | BUTTON_X2) != 0 {
            Some(WM_XBUTTONDOWN)
        } else {
            None
        },
{
    if pressed & BUTTON_LEFT != 0 {
        Some(WM_LBUTTONDOWN)
    } else if pressed & BUTTON_RIGHT != 0 {
        Some(WM_RBUTTONDOWN)
    } else if pressed & BUTTON_MIDDLE != 0 {
        Some(WM_MBUTTONDOWN)
    } else if pressed & (BUTTON_X1 | BUTTON_X2) != 0 {
        Some(WM_XBUTTONDOWN)
    } else {
        None
    }
}

/// The decision for a mouse message over the root `observed_root`: only
/// button-down messages count; a press on one of the surface's own roots
/// keeps it open, anywhere else (no window at all too) closes it.
pub open spec fn pointer_decision_spec(message: u32, internal_surface_roots: Seq<usize>, observed_root: usize) -> PointerDecision {
    if !is_button_down(message) {
        PointerDecision::IgnoreNonButton
    } else if observed_root != 0 && internal_surface_roots.contains(observed_root) {
        PointerDecision::KeepInternalSurface
    } else {
        PointerDecision::CloseOutside
    }
}

/// Decides what a mouse message means for the open surface.
pub fn pointer_decision(message: u32, internal_surface_roots: &[usize], observed_root: usize) -> (decision: PointerDecision)
    ensures
        decision == pointer_decision_spec(message, internal_surface_roots@, observed_root),
{
    if !is_button_down_message(message) {
        return PointerDecision::IgnoreNonButton;
    }
    if observed_root == 0 {
        return PointerDecision::CloseOutside;
    }
    let mut i: usize = 0;
    while i < internal_surface_roots.len()
        invariant
            i <= internal_surface_roots@.len(),
            is_button_down(message),
            observed_root != 0,
            forall|j: int| 0 <= j < i ==> internal_surface_roots@[j] != observed_root,
        decreases internal_surface_roots.len() - i,
    {
        if internal_surface_roots[i] == observed_root {
            assert(internal_surface_roots@[i as int] == observed_root);
            return PointerDecision::KeepInternalSurface;
        }
        i += 1;
    }
    PointerDecision::CloseOutside
}

/// Takes the close callback when a press landed outside the surface, so it
/// runs at most once.
pub fn take_outside_callback<C>(callback: &mut Option<C>, message: u32, internal_surface_roots: &[usize], observed_root: usize) -> (taken: Option<C>)
    ensures
        pointer_decision_spec(message, internal_surface_roots@, observed_root)
            == PointerDecision::CloseOutside ==> taken == *old(callback) && *final(callback) is None,
        pointer_decision_spec(message, internal_surface_roots@, observed_root)
            != PointerDecision::CloseOutside ==> taken is None && *final(callback) == *old(callback),
{
    if pointer_decision(message, internal_surface_roots, observed_root) == PointerDecision::CloseOutside {
        callback.take()
    } else {
        None
    }
}

/// A running monitor thread: whether it already ended, how to ask it to
/// quit, and joining it.
pub trait MonitorWorkerHandle {
    /// Whether the worker's message loop has already ended.
    fn finished(&self) -> bool;
    /// Posts `WM_QUIT` to the worker's message queue.
    fn post_quit(&self) -> bool;
    /// Waits for the worker; `false` when it panicked.
    fn join(self) -> bool;
}

/// Stops the monitor worker in `slot`: a worker that already finished is
/// joined without posting to its dead queue; the slot is emptied whenever the
/// quit request was delivered. Stopping an empty slot succeeds.
pub fn stop_locked<W: MonitorWorkerHandle>(slot: &mut Option<W>) -> (result: Result<(), PointerMonitorError>)
    ensures
        *old(slot) is None ==> result is Ok && *final(slot) is None,
        result matches Err(error) ==> error == PointerMonitorError::StopHook || error
            == PointerMonitorError::WorkerPanicked,
        result matches Err(PointerMonitorError::StopHook) ==> *final(slot) == *old(slot),
        !(result matches Err(PointerMonitorError::StopHook)) ==> *final(slot) is None,
{
    let must_post = match slot {
        None => {
            return Ok(());
        },
        Some(worker) => !worker.finished(),
    };
    if must_post {
        let delivered = match slot {
            Some(worker) => worker.post_quit(),
            None => true,
        };
        if !delivered {
            return Err(PointerMonitorError::StopHook);
        }
    }
    match slot.take() {
        Some(worker) => {
            if worker.join() {
                Ok(())
            } else {
                Err(PointerMonitorError::WorkerPanicked)
            }
        },
        None => Ok(()),
    }
}

} // verus!
