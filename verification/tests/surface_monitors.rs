use std::cell::Cell;
use std::rc::Rc;

use opendesktools::foreground::{
    check_target_window, foreground_decision, ForegroundMonitorError, foreground_hook_flags, ForegroundDecision, WINEVENT_OUTOFCONTEXT,
    WINEVENT_SKIPOWNPROCESS,
};
use opendesktools::pointer::{
    check_internal_roots, first_button_message, PointerMonitorError, new_button_presses, pointer_decision, PointerDecision, BUTTON_LEFT,
    BUTTON_MIDDLE, BUTTON_RIGHT, BUTTON_X1, BUTTON_X2, WM_LBUTTONDOWN, WM_MBUTTONDOWN,
    WM_RBUTTONDOWN, WM_XBUTTONDOWN,
};

const WM_MOUSEMOVE: u32 = 0x0200;
const WM_LBUTTONUP: u32 = 0x0202;

struct FakeWorker {
    finished: bool,
    posts: Rc<Cell<u32>>,
    joins: Rc<Cell<u32>>,
}

impl opendesktools::foreground::MonitorWorkerHandle for FakeWorker {
    fn finished(&self) -> bool {
        self.finished
    }
    fn post_quit(&self) -> bool {
        self.posts.set(self.posts.get() + 1);
        true
    }
    fn join(self) -> bool {
        self.joins.set(self.joins.get() + 1);
        true
    }
}

impl opendesktools::pointer::MonitorWorkerHandle for FakeWorker {
    fn finished(&self) -> bool {
        self.finished
    }
    fn post_quit(&self) -> bool {
        self.posts.set(self.posts.get() + 1);
        true
    }
    fn join(self) -> bool {
        self.joins.set(self.joins.get() + 1);
        true
    }
}

fn finished_worker() -> (FakeWorker, Rc<Cell<u32>>, Rc<Cell<u32>>) {
    let posts = Rc::new(Cell::new(0));
    let joins = Rc::new(Cell::new(0));
    (
        FakeWorker {
            finished: true,
            posts: posts.clone(),
            joins: joins.clone(),
        },
        posts,
        joins,
    )
}

#[test]
fn target_and_internal_surface_roots_are_kept_but_other_roots_close() {
    assert_eq!(
        foreground_decision(42, &[90, 91], 42),
        ForegroundDecision::KeepTarget
    );
    assert_eq!(
        foreground_decision(42, &[90, 91], 90),
        ForegroundDecision::KeepInternalSurface
    );
    assert_eq!(
        foreground_decision(42, &[90, 91], 77),
        ForegroundDecision::CloseDifferentRoot
    );
    assert_eq!(
        foreground_decision(42, &[90, 91], 0),
        ForegroundDecision::IgnoreInvalid
    );
    assert_eq!(
        foreground_decision(0, &[90, 91], 77),
        ForegroundDecision::IgnoreInvalid
    );
}

#[test]
fn hook_includes_own_process_foreground_events() {
    assert_eq!(foreground_hook_flags(), WINEVENT_OUTOFCONTEXT);
    assert_eq!(foreground_hook_flags() & WINEVENT_SKIPOWNPROCESS, 0);
}

#[test]
fn completed_worker_is_joined_without_posting_to_a_dead_message_queue() {
    let (worker, posts, joins) = finished_worker();
    let mut slot = Some(worker);
    opendesktools::foreground::stop_locked(&mut slot).unwrap();
    assert!(slot.is_none());
    assert_eq!((posts.get(), joins.get()), (0, 1));
}

#[test]
fn stop_is_idempotent_when_no_worker_is_running() {
    let mut slot: Option<FakeWorker> = None;
    opendesktools::foreground::stop_locked(&mut slot).unwrap();
    opendesktools::foreground::stop_locked(&mut slot).unwrap();
    assert!(slot.is_none());
}

#[test]
fn every_button_down_closes_outside_but_keeps_all_internal_roots() {
    for message in [
        WM_LBUTTONDOWN,
        WM_RBUTTONDOWN,
        WM_MBUTTONDOWN,
        WM_XBUTTONDOWN,
    ] {
        assert_eq!(
            pointer_decision(message, &[10, 20], 10),
            PointerDecision::KeepInternalSurface
        );
        assert_eq!(
            pointer_decision(message, &[10, 20], 20),
            PointerDecision::KeepInternalSurface
        );
        assert_eq!(
            pointer_decision(message, &[10, 20], 30),
            PointerDecision::CloseOutside
        );
        assert_eq!(
            pointer_decision(message, &[10, 20], 0),
            PointerDecision::CloseOutside
        );
    }
    for message in [WM_MOUSEMOVE, WM_LBUTTONUP] {
        assert_eq!(
            pointer_decision(message, &[10, 20], 30),
            PointerDecision::IgnoreNonButton
        );
    }
}

#[test]
fn polling_fallback_only_reports_new_button_down_edges() {
    assert_eq!(new_button_presses(0, BUTTON_LEFT), BUTTON_LEFT);
    assert_eq!(new_button_presses(BUTTON_LEFT, BUTTON_LEFT), 0);
    assert_eq!(new_button_presses(BUTTON_LEFT, 0), 0);
    assert_eq!(
        new_button_presses(BUTTON_LEFT, BUTTON_LEFT | BUTTON_RIGHT),
        BUTTON_RIGHT
    );
}

#[test]
fn polling_button_mask_maps_to_the_same_pointer_messages_as_the_hook() {
    assert_eq!(first_button_message(BUTTON_LEFT), Some(WM_LBUTTONDOWN));
    assert_eq!(first_button_message(BUTTON_RIGHT), Some(WM_RBUTTONDOWN));
    assert_eq!(first_button_message(BUTTON_MIDDLE), Some(WM_MBUTTONDOWN));
    assert_eq!(first_button_message(BUTTON_X1), Some(WM_XBUTTONDOWN));
    assert_eq!(first_button_message(BUTTON_X2), Some(WM_XBUTTONDOWN));
    assert_eq!(first_button_message(0), None);
}

#[test]
fn completed_worker_is_joined_without_posting_to_dead_queue() {
    let (worker, posts, joins) = finished_worker();
    let mut slot = Some(worker);
    opendesktools::pointer::stop_locked(&mut slot).unwrap();
    assert!(slot.is_none());
    assert_eq!((posts.get(), joins.get()), (0, 1));
}

#[test]
fn stop_is_idempotent_without_worker() {
    let mut slot: Option<FakeWorker> = None;
    opendesktools::pointer::stop_locked(&mut slot).unwrap();
    opendesktools::pointer::stop_locked(&mut slot).unwrap();
    assert!(slot.is_none());
}

#[test]
fn pointer_monitor_needs_non_null_surface_roots() {
    assert_eq!(check_internal_roots(&[]), Err(PointerMonitorError::InstallHook));
    assert_eq!(check_internal_roots(&[5, 0]), Err(PointerMonitorError::InstallHook));
    assert_eq!(check_internal_roots(&[5, 9]), Ok(()));
}

#[test]
fn foreground_monitor_needs_a_target_window() {
    assert_eq!(check_target_window(0), Err(ForegroundMonitorError::InstallHook));
    assert_eq!(check_target_window(7), Ok(()));
}
