//! Closing the clipboard surface when another top-level window comes to
//! the foreground.
use vstd::prelude::*;

verus! {

/// Why the foreground monitor could not start or stop.
#[derive(Debug, Clone, Copy, PartialEq, Eq, Structural)]
pub enum ForegroundMonitorError {
    LockPoisoned,
    ThreadStart,
    InstallHook,
    StopHook,
    WorkerPanicked,
    Unsupported,
}

/// Whether the foreground monitor may start watching on behalf of the
/// target window `target_top_window`: the null window cannot be watched.
pub fn check_target_window(target_top_window: usize) -> (result: Result<(), ForegroundMonitorError>)
    ensures
        result == if target_top_window == 0 {
            Err::<(), ForegroundMonitorError>(ForegroundMonitorError::InstallHook)
        } else {
            Ok::<(), ForegroundMonitorError>(())
        },
{
    if target_top_window == 0 {
        Err(ForegroundMonitorError::InstallHook)
    } else {
        Ok(())
    }
}

/// What a foreground change means for the open surface.
#[derive(Debug, Clone, Copy, PartialEq, Eq, Structural)]
pub enum ForegroundDecision {
    IgnoreInvalid,
    KeepTarget,
    KeepInternalSurface,
    CloseDifferentRoot,
}

impl ForegroundDecision {
    /// The decision's diagnostic name.
    pub fn as_str(self) -> (name: &'static str)
        ensures
            name@ == match self {
                ForegroundDecision::IgnoreInvalid => "ignore_invalid"@,
                ForegroundDecision::KeepTarget => "keep_target_root"@,
                ForegroundDecision::KeepInternalSurface => "keep_internal_surface_root"@,
                ForegroundDecision::CloseDifferentRoot => "close_different_root"@,
            },
    {
        match self {
            ForegroundDecision::IgnoreInvalid => "ignore_invalid",
            ForegroundDecision::KeepTarget => "keep_target_root",
            ForegroundDecision::KeepInternalSurface => "keep_internal_surface_root",
            ForegroundDecision::CloseDifferentRoot => "close_different_root",
        }
    }
}

/// The decision for a new foreground root: null windows are ignored, the
/// target and the library's own surface roots keep the surface open, any
/// other root (another window of this process too) closes it.
pub fn foreground_decision(target_top_window: usize, internal_surface_roots: &[usize], observed_top_window: usize) -> (decision: ForegroundDecision)
    ensures
        decision == if target_top_window == 0 || observed_top_window == 0 {
            ForegroundDecision::IgnoreInvalid
        } else if observed_top_window == target_top_window {
            ForegroundDecision::KeepTarget
        } else if internal_surface_roots@.contains(observed_top_window) {
            ForegroundDecision::KeepInternalSurface
        } else {
            ForegroundDecision::CloseDifferentRoot
        },
{
    if target_top_window == 0 || observed_top_window == 0 {
        return ForegroundDecision::IgnoreInvalid;
    }
    if observed_top_window == target_top_window {
        return ForegroundDecision::KeepTarget;
    }
    let mut i: usize = 0;
    while i < internal_surface_roots.len()
        invariant
            i <= internal_surface_roots@.len(),
            target_top_window != 0 && observed_top_window != 0,
            observed_top_window != target_top_window,
            forall|j: int| 0 <= j < i ==> internal_surface_roots@[j] != observed_top_window,
        decreases internal_surface_roots.len() - i,
    {
        if internal_surface_roots[i] == observed_top_window {
            assert(internal_surface_roots@[i as int] == observed_top_window);
            return ForegroundDecision::KeepInternalSurface;
        }
        i += 1;
    }
    ForegroundDecision::CloseDifferentRoot
}

/// `WINEVENT_OUTOFCONTEXT`.
pub const WINEVENT_OUTOFCONTEXT: u32 = 0;
/// `WINEVENT_SKIPOWNPROCESS`.
pub const WINEVENT_SKIPOWNPROCESS: u32 = 2;

/// The foreground hook flags: out of context, and this process's own
/// windows are reported too.
pub fn foreground_hook_flags() -> (flags: u32)
    ensures
        flags == WINEVENT_OUTOFCONTEXT,
        flags & WINEVENT_SKIPOWNPROCESS == 0,
{
    assert(0u32 & 2u32 == 0) by (bit_vector);
    WINEVENT_OUTOFCONTEXT
}

/// A running monitor thread: whether it already ended, how to ask it to
/// quit, and joining it.
pub trait MonitorWorkerHandle {
    /// Whether the worker's message loop has already ended.
    fn finished(&self) -> bool;
    /// Posts `WM_QUIT` to the worker's message queue.
    fn post_quit(&self) -> bool;
    /// Waits for the worker; `false` when it panicked.
    fn join(self) -> bool;
}

/// Stops the monitor worker in `slot`: a worker that already finished is
/// joined without posting to its dead queue; the slot is emptied whenever the
/// quit request was delivered. Stopping an empty slot succeeds.
pub fn stop_locked<W: MonitorWorkerHandle>(slot: &mut Option<W>) -> (result: Result<(), ForegroundMonitorError>)
    ensures
        *old(slot) is None ==> result is Ok && *final(slot) is None,
        result matches Err(error) ==> error == ForegroundMonitorError::StopHook || error
            == ForegroundMonitorError::WorkerPanicked,
        result matches Err(ForegroundMonitorError::StopHook) ==> *final(slot) == *old(slot),
        !(result matches Err(ForegroundMonitorError::StopHook)) ==> *final(slot) is None,
{
    let must_post = match slot {
        None => {
            return Ok(());
        },
        Some(worker) => !worker.finished(),
    };
    if must_post {
        let delivered = match slot {
            Some(worker) => worker.post_quit(),
            None => true,
        };
        if !delivered {
            return Err(ForegroundMonitorError::StopHook);
        }
    }
    match slot.take() {
        Some(worker) => {
            if worker.join() {
                Ok(())
            } else {
                Err(ForegroundMonitorError::WorkerPanicked)
            }
        },
        None => Ok(()),
    }
}

} // verus!
