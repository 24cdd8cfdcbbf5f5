use std::cell::{Cell, RefCell};

use opendesktools::surface_window::{
    update_child_no_activate_style, ChildStyleUpdate, GWL_EXSTYLE,
    region_dimensions_from_client_rect, region_request_bounds,
    preview_already_open, preview_state_for, select_preview_record, take_preview_selection,
    ClipboardPreviewSelection,
    apply_underlay_to_prepared_group, close_preview_lifecycle, configure_show_verify_preview,
    convert_caret_client_to_physical_screen, hide_and_verify, hide_then_clear,
    no_activate_child_policy, preview_surface_placement_for, require_prepared_surface_group,
    require_top_level_subclass, resolve_surface_anchor, select_anchor_monitor, surface_placement_for,
    update_window_long, ClipboardSurfaceUnderlayColor, ClipboardSurfaceWindowError,
    NativeVisibilityApi, NoActivateChildKind, NoActivateChildPolicy, PixelPoint, PixelRect, PixelSize,
    StyleTransform, SurfaceAnchorSource, SurfacePlacement, WindowLongApi, WindowLongUpdate,
    CLIPBOARD_PREVIEW_SURFACE_LABEL, CLIPBOARD_PREVIEW_SURFACE_ROUTE, CLIPBOARD_SURFACE_CLOSED_CHANGE,
    CLIPBOARD_SURFACE_LABEL, CLIPBOARD_SURFACE_OPENED_CHANGE, CLIPBOARD_SURFACE_ROUTE,
};

struct FakeWindowLongApi {
    get_value: isize,
    get_error: u32,
    set_previous: isize,
    set_error: u32,
    set_calls: usize,
}

impl WindowLongApi for FakeWindowLongApi {
    fn get(&mut self, _window: usize, _index: i32) -> (isize, u32) {
        (self.get_value, self.get_error)
    }

    fn set(&mut self, _window: usize, _index: i32, _value: isize) -> (isize, u32) {
        self.set_calls += 1;
        (self.set_previous, self.set_error)
    }
}

fn fake_window_long_api(
    get_value: isize,
    get_error: u32,
    set_previous: isize,
    set_error: u32,
) -> FakeWindowLongApi {
    FakeWindowLongApi {
        get_value,
        get_error,
        set_previous,
        set_error,
        set_calls: 0,
    }
}

struct FakeNativeVisibility {
    visible_after_hide: bool,
    calls: Vec<&'static str>,
}

impl NativeVisibilityApi for FakeNativeVisibility {
    fn hide_window(&mut self, _window: usize) {
        self.calls.push("hide");
    }

    fn is_visible(&mut self, _window: usize) -> bool {
        self.calls.push("is_visible");
        self.visible_after_hide
    }
}

#[test]
fn set_window_long_accepts_zero_previous_value_when_last_error_is_clear() {
    let mut api = fake_window_long_api(0, 0, 0, 0);
    let update = update_window_long(
        &mut api,
        7,
        GWL_EXSTYLE,
        StyleTransform::ChildNoActivate,
        "get",
        "set",
    )
    .unwrap();

    assert_eq!(update, WindowLongUpdate::Updated);
    assert_eq!(api.set_calls, 1);
}

#[test]
fn access_denied_and_invalid_child_style_updates_degrade_without_becoming_fatal() {
    const ERROR_ACCESS_DENIED: u32 = 5;
    const ERROR_INVALID_WINDOW_HANDLE: u32 = 1400;

    let mut access_denied = fake_window_long_api(0, 0, 0, ERROR_ACCESS_DENIED);
    assert!(matches!(
        update_child_no_activate_style(&mut access_denied, 11),
        ChildStyleUpdate::Degraded(ClipboardSurfaceWindowError::WindowsApiCode {
            operation: "SetWindowLongPtrW(child GWL_EXSTYLE)",
            code: ERROR_ACCESS_DENIED,
        })
    ));

    let mut invalid_child = fake_window_long_api(0, ERROR_INVALID_WINDOW_HANDLE, 0, 0);
    assert!(matches!(
        update_child_no_activate_style(&mut invalid_child, 13),
        ChildStyleUpdate::Degraded(ClipboardSurfaceWindowError::WindowsApiCode {
            operation: "GetWindowLongPtrW(child GWL_EXSTYLE)",
            code: ERROR_INVALID_WINDOW_HANDLE,
        })
    ));

    let mut unchanged = fake_window_long_api(0x0800_0000, 0, 0, 0);
    assert_eq!(
        update_child_no_activate_style(&mut unchanged, 17),
        ChildStyleUpdate::Applied(WindowLongUpdate::Unchanged)
    );
    assert_eq!(unchanged.set_calls, 0);
}

#[test]
fn top_level_window_contract_failures_remain_fatal() {
    const ERROR_INVALID_WINDOW_HANDLE: u32 = 1400;

    let mut api = fake_window_long_api(0, ERROR_INVALID_WINDOW_HANDLE, 0, 0);
    assert!(matches!(
        update_window_long(
            &mut api,
            17,
            GWL_EXSTYLE,
            StyleTransform::PopupExtended,
            "GetWindowLongPtrW(top-level)",
            "SetWindowLongPtrW(top-level)",
        ),
        Err(ClipboardSurfaceWindowError::WindowsApiCode {
            operation: "GetWindowLongPtrW(top-level)",
            code: ERROR_INVALID_WINDOW_HANDLE,
        })
    ));
    assert!(matches!(
        require_top_level_subclass(false),
        Err(ClipboardSurfaceWindowError::WindowsApi(
            "SetWindowSubclass(top-level no activate)"
        ))
    ));
}

#[test]
fn all_same_process_same_ui_thread_children_are_subclassed_with_safe_style_filtering() {
    assert_eq!(
        no_activate_child_policy(10, 20, 10, 20, "WRY_WEBVIEW"),
        NoActivateChildPolicy::SubclassAndStyle(NoActivateChildKind::WryWebview)
    );
    assert_eq!(
        no_activate_child_policy(10, 20, 10, 20, "Chrome_WidgetWin_0"),
        NoActivateChildPolicy::SubclassAndStyle(NoActivateChildKind::ChromiumHost)
    );
    assert_eq!(
        no_activate_child_policy(10, 20, 10, 20, "NewInteractiveChild"),
        NoActivateChildPolicy::SubclassOnly
    );
    assert_eq!(
        no_activate_child_policy(10, 20, 10, 20, "<class-unavailable>"),
        NoActivateChildPolicy::SubclassOnly
    );
    assert_eq!(
        no_activate_child_policy(10, 20, 11, 20, "WRY_WEBVIEW"),
        NoActivateChildPolicy::SkipDifferentIdentity
    );
    assert_eq!(
        no_activate_child_policy(10, 20, 10, 21, "Chrome_WidgetWin_0"),
        NoActivateChildPolicy::SkipDifferentIdentity
    );
    assert_eq!(
        no_activate_child_policy(10, 20, 11, 21, "Chrome_RenderWidgetHostHWND"),
        NoActivateChildPolicy::SkipDifferentIdentity
    );
}

#[test]
fn native_hide_is_verified_before_surface_state_is_cleared() {
    let order = RefCell::new(Vec::new());
    let cleared = Cell::new(false);
    let api = RefCell::new(FakeNativeVisibility {
        visible_after_hide: false,
        calls: Vec::new(),
    });

    hide_then_clear(
        || {
            order.borrow_mut().push("hide_and_verify");
            hide_and_verify(&mut *api.borrow_mut(), 7)
        },
        || {
            order.borrow_mut().push("clear");
            cleared.set(true);
            Ok(())
        },
    )
    .unwrap();

    assert_eq!(api.borrow().calls, ["hide", "is_visible"]);
    assert_eq!(*order.borrow(), ["hide_and_verify", "clear"]);
    assert!(cleared.get());
}

#[test]
fn created_hidden_preview_is_configured_shown_and_verified_visible_in_order() {
    let visible = Cell::new(false);
    let order = RefCell::new(Vec::new());
    let placement = SurfacePlacement {
        position: PixelPoint { x: 12, y: 34 },
        size: PixelSize {
            width: 330,
            height: 230,
        },
    };

    let result = configure_show_verify_preview(
        || {
            order.borrow_mut().push("configure");
            assert!(!visible.get());
            Ok(())
        },
        || {
            order.borrow_mut().push("placement");
            Ok(placement)
        },
        |actual| {
            order.borrow_mut().push("show");
            assert_eq!(actual, placement);
            visible.set(true);
            Ok(())
        },
        || {
            order.borrow_mut().push("verify_visible");
            Ok(visible.get())
        },
    )
    .unwrap();

    assert_eq!(result, placement);
    assert_eq!(
        *order.borrow(),
        ["configure", "placement", "show", "verify_visible"]
    );
}

#[test]
fn runtime_surface_routes_require_both_prepared_group_members() {
    assert!(require_prepared_surface_group(true, true).is_ok());
    for (main_prepared, preview_prepared) in [(false, false), (true, false), (false, true)] {
        assert!(matches!(
            require_prepared_surface_group(main_prepared, preview_prepared),
            Err(ClipboardSurfaceWindowError::SurfaceGroupNotPrepared)
        ));
    }
}

#[test]
fn surface_underlay_color_is_strict_hex_and_defaults_to_light_border() {
    assert_eq!(
        ClipboardSurfaceUnderlayColor::parse_hex("#E0DEDC"),
        Some(ClipboardSurfaceUnderlayColor::default_underlay())
    );
    assert_eq!(ClipboardSurfaceUnderlayColor::default_underlay().as_hex(), "#e0dedc");
    for invalid in ["e0dedc", "#fff", "#e0dedcff", "#e0degc", "# e0dedc"] {
        assert_eq!(ClipboardSurfaceUnderlayColor::parse_hex(invalid), None);
    }
}

#[test]
fn surface_underlay_updates_both_prepared_members_and_reports_any_failure() {
    let color = ClipboardSurfaceUnderlayColor::new(0x3b, 0x3e, 0x43);
    let labels = RefCell::new(Vec::new());
    let error = apply_underlay_to_prepared_group(true, true, color, |label, actual| {
        labels.borrow_mut().push((label, actual));
        if label == CLIPBOARD_SURFACE_LABEL {
            Err(ClipboardSurfaceWindowError::InvalidDimensions)
        } else {
            Ok(())
        }
    })
    .unwrap_err();

    assert!(matches!(error, ClipboardSurfaceWindowError::InvalidDimensions));
    assert_eq!(
        *labels.borrow(),
        [
            (CLIPBOARD_SURFACE_LABEL, color),
            (CLIPBOARD_PREVIEW_SURFACE_LABEL, color)
        ]
    );
    assert!(matches!(
        apply_underlay_to_prepared_group(false, true, color, |_, _| Ok(())),
        Err(ClipboardSurfaceWindowError::SurfaceGroupNotPrepared)
    ));
}

#[test]
fn preview_show_success_is_rejected_when_native_window_remains_hidden() {
    let result = configure_show_verify_preview(
        || Ok(()),
        || {
            Ok(SurfacePlacement {
                position: PixelPoint { x: 0, y: 0 },
                size: PixelSize {
                    width: 330,
                    height: 230,
                },
            })
        },
        |_| Ok(()),
        || Ok(false),
    );

    assert!(matches!(
        result,
        Err(ClipboardSurfaceWindowError::PreviewStillHidden)
    ));
}

#[test]
fn preview_close_hides_before_clearing_selection_and_preserves_it_on_hide_failure() {
    let selection = Cell::new(true);
    let order = RefCell::new(Vec::new());
    let had_selection = close_preview_lifecycle(
        || {
            order.borrow_mut().push("hide");
            Ok(())
        },
        || {
            order.borrow_mut().push("clear_selection");
            Ok(selection.replace(false))
        },
    )
    .unwrap();
    assert!(had_selection);
    assert!(!selection.get());
    assert_eq!(*order.borrow(), ["hide", "clear_selection"]);

    selection.set(true);
    let result = close_preview_lifecycle(
        || Err(ClipboardSurfaceWindowError::StillVisible),
        || Ok(selection.replace(false)),
    );
    assert!(matches!(result, Err(ClipboardSurfaceWindowError::StillVisible)));
    assert!(selection.get());
}

#[test]
fn still_visible_native_window_preserves_surface_state_for_retry() {
    let cleared = Cell::new(false);
    let api = RefCell::new(FakeNativeVisibility {
        visible_after_hide: true,
        calls: Vec::new(),
    });

    let result = hide_then_clear(
        || hide_and_verify(&mut *api.borrow_mut(), 11),
        || {
            cleared.set(true);
            Ok(())
        },
    );

    assert!(matches!(result, Err(ClipboardSurfaceWindowError::StillVisible)));
    assert_eq!(api.borrow().calls, ["hide", "is_visible"]);
    assert!(!cleared.get());
}

#[test]
fn route_and_label_are_stable_frontend_contracts() {
    assert_eq!(CLIPBOARD_SURFACE_LABEL, "clipboard-surface");
    assert_eq!(CLIPBOARD_SURFACE_ROUTE, "index.html#clipboard-surface");
    assert_eq!(CLIPBOARD_PREVIEW_SURFACE_LABEL, "clipboard-preview-surface");
    assert_eq!(
        CLIPBOARD_PREVIEW_SURFACE_ROUTE,
        "index.html#clipboard-preview-surface"
    );
    assert_eq!(CLIPBOARD_SURFACE_OPENED_CHANGE, "surface_opened");
    assert_eq!(CLIPBOARD_SURFACE_CLOSED_CHANGE, "surface_closed");
}

#[test]
fn valid_caret_wins_without_reading_mouse_and_missing_caret_falls_back() {
    let caret = PixelPoint { x: 420, y: 260 };
    let selected = resolve_surface_anchor(Some(caret), || -> Result<PixelPoint, &'static str> {
        panic!("mouse fallback must stay lazy when the caret is valid")
    })
    .unwrap();
    assert_eq!(selected, (caret, SurfaceAnchorSource::Caret));

    let mouse = PixelPoint { x: 800, y: 600 };
    assert_eq!(
        resolve_surface_anchor(None, || Ok::<_, &'static str>(mouse)),
        Ok((mouse, SurfaceAnchorSource::Cursor))
    );
    assert_eq!(
        resolve_surface_anchor(None, || Err::<PixelPoint, _>("cursor unavailable")),
        Err("cursor unavailable")
    );
}

#[test]
fn caret_coordinate_pipeline_maps_client_to_screen_before_dpi_conversion() {
    let calls = RefCell::new(Vec::new());
    let converted = convert_caret_client_to_physical_screen(
        7_i32,
        |client| {
            calls.borrow_mut().push("client_to_screen");
            Ok::<_, &'static str>(client + 100)
        },
        |logical_screen| {
            calls.borrow_mut().push("logical_to_physical");
            assert_eq!(logical_screen, 107);
            Ok::<_, &'static str>((logical_screen * 2, "per_monitor"))
        },
    )
    .unwrap();

    assert_eq!(
        calls.into_inner(),
        vec!["client_to_screen", "logical_to_physical"]
    );
    assert_eq!(converted, (107, 214, "per_monitor"));
}

fn rect(left: i32, top: i32, right: i32, bottom: i32) -> PixelRect {
    PixelRect {
        left,
        top,
        right,
        bottom,
    }
}

#[test]
fn unscaled_anchor_placement_prefers_right_and_below_then_flips() {
    let bounds = rect(0, 0, 1920, 1080);
    let work = rect(0, 0, 1920, 1040);
    assert_eq!(
        surface_placement_for(PixelPoint { x: 100, y: 100 }, bounds, work, 380, 520, 12),
        Some(SurfacePlacement {
            position: PixelPoint { x: 112, y: 112 },
            size: PixelSize {
                width: 380,
                height: 520,
            },
        })
    );
    assert_eq!(
        surface_placement_for(PixelPoint { x: 1900, y: 1000 }, bounds, work, 380, 520, 12),
        Some(SurfacePlacement {
            position: PixelPoint { x: 1508, y: 468 },
            size: PixelSize {
                width: 380,
                height: 520,
            },
        })
    );
}

#[test]
fn tiny_work_area_shrinks_the_surface_inside_every_edge() {
    let work = rect(10, 20, 110, 70);
    let placement =
        surface_placement_for(PixelPoint { x: 50, y: 40 }, work, work, 380, 520, 12).unwrap();
    assert_eq!(placement.size, PixelSize { width: 100, height: 50 });
    assert_eq!(placement.position, PixelPoint { x: 10, y: 20 });
}

#[test]
fn anchor_monitor_is_the_containing_one_or_the_nearest() {
    let monitors = [rect(-1920, 0, 0, 1080), rect(0, 0, 1920, 1080)];
    assert_eq!(select_anchor_monitor(PixelPoint { x: -5, y: 10 }, &monitors), Some(0));
    assert_eq!(select_anchor_monitor(PixelPoint { x: 5, y: 10 }, &monitors), Some(1));
    assert_eq!(select_anchor_monitor(PixelPoint { x: 2500, y: 10 }, &monitors), Some(1));
    assert_eq!(select_anchor_monitor(PixelPoint { x: 5, y: 10 }, &[]), None);
}

#[test]
fn preview_touches_the_right_side_and_flips_left_at_the_edge() {
    let bounds = rect(0, 0, 1920, 1080);
    let work = rect(0, 0, 1920, 1040);
    let right = preview_surface_placement_for(rect(100, 200, 480, 720), bounds, work, 330, 230).unwrap();
    assert_eq!(right.position, PixelPoint { x: 480, y: 200 });
    let left = preview_surface_placement_for(rect(1600, 200, 1900, 720), bounds, work, 330, 230).unwrap();
    assert_eq!(left.position, PixelPoint { x: 1270, y: 200 });
    assert_eq!(left.size, PixelSize { width: 330, height: 230 });
}

#[test]
fn preview_selection_reports_open_change_and_close() {
    let mut selection = ClipboardPreviewSelection { record_id: None };
    assert_eq!(select_preview_record(&mut selection, "1".to_owned()), "opened");
    assert!(preview_already_open(true, &selection.record_id, "1"));
    assert!(!preview_already_open(false, &selection.record_id, "1"));
    assert!(!preview_already_open(true, &selection.record_id, "2"));
    assert_eq!(select_preview_record(&mut selection, "1".to_owned()), "opened");
    assert_eq!(
        select_preview_record(&mut selection, "2".to_owned()),
        "selection_changed"
    );
    let state = preview_state_for(&mut selection, true);
    assert_eq!(state.record_id.as_deref(), Some("2"));
    assert!(take_preview_selection(&mut selection));
    assert!(!take_preview_selection(&mut selection));
    assert_eq!(selection.record_id, None);
}

#[test]
fn rounded_region_covers_the_full_client_rectangle() {
    let (width, height) = region_dimensions_from_client_rect(rect(0, 0, 380, 520)).unwrap();
    assert_eq!((width, height), (380, 520));
    assert_eq!(region_request_bounds(width, height), Some((381, 521)));
    assert_eq!(region_dimensions_from_client_rect(rect(10, 10, 10, 50)), None);
    assert_eq!(region_dimensions_from_client_rect(rect(20, 0, 10, 50)), None);
    assert_eq!(region_request_bounds(i32::MAX, 1), None);
}

#[derive(Debug, Clone, Copy, PartialEq)]
struct MonitorGeometry {
    bounds: PixelRect,
    work_area: PixelRect,
    scale_factor: f64,
}

fn monitor(bounds: PixelRect, work_area: PixelRect, scale_factor: f64) -> MonitorGeometry {
    MonitorGeometry { bounds, work_area, scale_factor }
}

fn scaled(logical: f64, scale_factor: f64) -> u32 {
    (logical * scale_factor).round() as u32
}

fn surface_placement(cursor: PixelPoint, geometry: MonitorGeometry) -> Option<SurfacePlacement> {
    let scale = geometry.scale_factor;
    surface_placement_for(
        cursor,
        geometry.bounds,
        geometry.work_area,
        scaled(380.0, scale),
        scaled(520.0, scale),
        scaled(12.0, scale),
    )
}

fn preview_surface_placement(anchor: PixelRect, geometry: MonitorGeometry) -> Option<SurfacePlacement> {
    let scale = geometry.scale_factor;
    preview_surface_placement_for(anchor, geometry.bounds, geometry.work_area, scaled(330.0, scale), scaled(230.0, scale))
}

fn pixel_rect(left: i32, top: i32, right: i32, bottom: i32) -> PixelRect {
    PixelRect { left, top, right, bottom }
}

fn full_hd() -> MonitorGeometry {
    monitor(pixel_rect(0, 0, 1920, 1080), pixel_rect(0, 0, 1920, 1040), 1.0)
}

#[test]
fn anchor_placement_prefers_right_and_below_then_flips_at_work_area_edges() {
    let geometry = full_hd();
    assert_eq!(
        surface_placement(PixelPoint { x: 100, y: 100 }, geometry),
        Some(SurfacePlacement {
            position: PixelPoint { x: 112, y: 112 },
            size: PixelSize { width: 380, height: 520 },
        })
    );
    assert_eq!(
        surface_placement(PixelPoint { x: 1900, y: 1000 }, geometry),
        Some(SurfacePlacement {
            position: PixelPoint { x: 1508, y: 468 },
            size: PixelSize { width: 380, height: 520 },
        })
    );
}

#[test]
fn placement_handles_negative_monitors_taskbars_and_high_dpi() {
    let negative = monitor(pixel_rect(-1920, 0, 0, 1080), pixel_rect(-1920, 0, 0, 1040), 1.0);
    assert_eq!(
        surface_placement(PixelPoint { x: -10, y: 1070 }, negative),
        Some(SurfacePlacement {
            position: PixelPoint { x: -402, y: 520 },
            size: PixelSize { width: 380, height: 520 },
        })
    );
    let high_dpi = monitor(pixel_rect(0, 0, 2560, 1440), pixel_rect(0, 0, 2560, 1400), 1.5);
    assert_eq!(
        surface_placement(PixelPoint { x: 100, y: 100 }, high_dpi),
        Some(SurfacePlacement {
            position: PixelPoint { x: 118, y: 118 },
            size: PixelSize { width: 570, height: 780 },
        })
    );
}

#[test]
fn all_four_work_area_corners_stay_inside_the_same_monitor() {
    let geometry = full_hd();
    for (cursor, expected) in [
        (PixelPoint { x: 0, y: 0 }, PixelPoint { x: 12, y: 12 }),
        (PixelPoint { x: 1919, y: 0 }, PixelPoint { x: 1527, y: 12 }),
        (PixelPoint { x: 0, y: 1039 }, PixelPoint { x: 12, y: 507 }),
        (PixelPoint { x: 1919, y: 1039 }, PixelPoint { x: 1527, y: 507 }),
    ] {
        let placement = surface_placement(cursor, geometry).unwrap();
        assert_eq!(placement.position, expected);
        assert!(placement.position.x >= geometry.work_area.left);
        assert!(placement.position.y >= geometry.work_area.top);
        assert!(
            i64::from(placement.position.x) + i64::from(placement.size.width)
                <= i64::from(geometry.work_area.right)
        );
        assert!(
            i64::from(placement.position.y) + i64::from(placement.size.height)
                <= i64::from(geometry.work_area.bottom)
        );
    }
}

#[test]
fn monitor_selection_uses_anchor_bounds_and_nearest_fallback() {
    let left = monitor(pixel_rect(-1280, 0, 0, 1024), pixel_rect(-1280, 0, 0, 984), 1.0);
    let right = monitor(pixel_rect(0, 0, 1920, 1080), pixel_rect(0, 0, 1920, 1040), 1.25);
    let pick = |anchor: PixelPoint, monitors: &[MonitorGeometry]| {
        let bounds: Vec<PixelRect> = monitors.iter().map(|m| m.bounds).collect();
        select_anchor_monitor(anchor, &bounds).map(|index| monitors[index])
    };
    assert_eq!(pick(PixelPoint { x: -100, y: 50 }, &[right, left]), Some(left));
    assert_eq!(pick(PixelPoint { x: 2500, y: 50 }, &[left, right]), Some(right));
}

#[test]
fn placement_shrinks_to_tiny_work_area_without_crossing_any_edge() {
    let tiny = monitor(pixel_rect(-300, -200, 0, 0), pixel_rect(-300, -200, 0, 0), 1.0);
    assert_eq!(
        surface_placement(PixelPoint { x: -150, y: -100 }, tiny),
        Some(SurfacePlacement {
            position: PixelPoint { x: -300, y: -200 },
            size: PixelSize { width: 300, height: 200 },
        })
    );
}

#[test]
fn preview_prefers_the_right_side_and_never_moves_above_or_below_the_popup() {
    assert_eq!(
        preview_surface_placement(pixel_rect(400, 200, 780, 720), full_hd()),
        Some(SurfacePlacement {
            position: PixelPoint { x: 780, y: 200 },
            size: PixelSize { width: 330, height: 230 },
        })
    );
}

#[test]
fn preview_touches_main_at_every_dpi_without_intersecting() {
    let anchor = pixel_rect(800, 200, 1_180, 720);
    for scale_factor in [1.0, 1.5, 2.0] {
        let geometry = monitor(pixel_rect(0, 0, 4_000, 2_500), pixel_rect(0, 0, 4_000, 2_400), scale_factor);
        let preview = preview_surface_placement(anchor, geometry).unwrap();
        assert_eq!(preview.position.x - anchor.right, 0);
        assert!(preview.position.x >= anchor.right);
    }
}

#[test]
fn preview_flips_only_horizontally_at_the_right_edge() {
    assert_eq!(
        preview_surface_placement(pixel_rect(1500, 900, 1880, 1040), full_hd()),
        Some(SurfacePlacement {
            position: PixelPoint { x: 1170, y: 810 },
            size: PixelSize { width: 330, height: 230 },
        })
    );
}

#[test]
fn preview_respects_negative_monitor_coordinates_and_high_dpi_work_area() {
    let geometry = monitor(pixel_rect(-2560, -200, 0, 1240), pixel_rect(-2560, -160, 0, 1200), 1.5);
    assert_eq!(
        preview_surface_placement(pixel_rect(-1000, -180, -430, 600), geometry),
        Some(SurfacePlacement {
            position: PixelPoint { x: -1495, y: -160 },
            size: PixelSize { width: 495, height: 345 },
        })
    );
}
