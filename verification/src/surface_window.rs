//! The clipboard popup surface: its underlay colour, close reasons, preview
//! selection state, integer placement geometry and native window styles.
use vstd::prelude::*;

use crate::text::{chars_of, push_char, str_equal};

verus! {

/// Colour painted under the popup while its web content loads.
#[derive(Debug, Clone, Copy, PartialEq, Eq, Structural)]
pub struct ClipboardSurfaceUnderlayColor {
    red: u8,
    green: u8,
    blue: u8,
}

/// The value of one ASCII hex digit.
pub open spec fn hex_digit_value(c: char) -> Option<u8> {
    if '0' <= c && c <= '9' {
        Some(((c as u32) - 48) as u8)
    } else if 'a' <= c && c <= 'f' {
        Some(((c as u32) - 87) as u8)
    } else if 'A' <= c && c <= 'F' {
        Some(((c as u32) - 55) as u8)
    } else {
        None
    }
}

/// The byte two hex digits spell.
pub open spec fn hex_byte_value(high: char, low: char) -> Option<u8> {
    match (hex_digit_value(high), hex_digit_value(low)) {
        (Some(h), Some(l)) => Some((h * 16 + l) as u8),
        _ => None,
    }
}

/// The lowercase hex digit of `value` (below 16).
pub open spec fn lower_hex_digit(value: u8) -> char {
    if value < 10 {
        ((value + 48) as u8) as char
    } else {
        ((value + 87) as u8) as char
    }
}

/// `#rrggbb` in lowercase.
pub open spec fn hex_color_text(red: u8, green: u8, blue: u8) -> Seq<char> {
    seq![
        '#',
        lower_hex_digit(red / 16),
        lower_hex_digit(red % 16),
        lower_hex_digit(green / 16),
        lower_hex_digit(green % 16),
        lower_hex_digit(blue / 16),
        lower_hex_digit(blue % 16),
    ]
}

fn hex_nibble(value: char) -> (result: Option<u8>)
    ensures
        result == hex_digit_value(value),
{
    if '0' <= value && value <= '9' {
        Some(((value as u32) - 48) as u8)
    } else if 'a' <= value && value <= 'f' {
        Some(((value as u32) - 87) as u8)
    } else if 'A' <= value && value <= 'F' {
        Some(((value as u32) - 55) as u8)
    } else {
        None
    }
}

fn parse_hex_byte(high: char, low: char) -> (result: Option<u8>)
    ensures
        result == hex_byte_value(high, low),
{
    match (hex_nibble(high), hex_nibble(low)) {
        (Some(h), Some(l)) => Some(h * 16 + l),
        _ => None,
    }
}

fn hex_digit_char(value: u8) -> (c: char)
    requires
        value < 16,
    ensures
        c == lower_hex_digit(value),
{
    if value < 10 {
        (value + 48) as char
    } else {
        (value + 87) as char
    }
}

impl ClipboardSurfaceUnderlayColor {
    /// The red, green and blue components.
    pub closed spec fn rgb(self) -> (u8, u8, u8) {
        (self.red, self.green, self.blue)
    }

    /// The colour with these components.
    pub fn new(red: u8, green: u8, blue: u8) -> (color: Self)
        ensures
            color.rgb() == (red, green, blue),
    {
        ClipboardSurfaceUnderlayColor { red, green, blue }
    }

    /// The light border colour the popup starts with.
    pub fn default_underlay() -> (color: Self)
        ensures
            color.rgb() == (0xe0u8, 0xdeu8, 0xdcu8),
    {
        ClipboardSurfaceUnderlayColor::new(0xe0, 0xde, 0xdc)
    }

    /// Parses a strict `#rrggbb` colour (either case); anything else is `None`.
    pub fn parse_hex(value: &str) -> (result: Option<Self>)
        ensures
            value@.len() == 7 && value@[0] == '#' && hex_byte_value(value@[1], value@[2]) is Some
                && hex_byte_value(value@[3], value@[4]) is Some && hex_byte_value(value@[5], value@[6])
                is Some <==> result is Some,
            result matches Some(color) ==> color.rgb() == (
                hex_byte_value(value@[1], value@[2]).unwrap(),
                hex_byte_value(value@[3], value@[4]).unwrap(),
                hex_byte_value(value@[5], value@[6]).unwrap(),
            ),
    {
        let chars = chars_of(value);
        if chars.len() != 7 || chars[0] != '#' {
            return None;
        }
        let red = match parse_hex_byte(chars[1], chars[2]) {
            Some(red) => red,
            None => {
                return None;
            },
        };
        let green = match parse_hex_byte(chars[3], chars[4]) {
            Some(green) => green,
            None => {
                return None;
            },
        };
        let blue = match parse_hex_byte(chars[5], chars[6]) {
            Some(blue) => blue,
            None => {
                return None;
            },
        };
        Some(ClipboardSurfaceUnderlayColor::new(red, green, blue))
    }

    /// The colour as `#rrggbb` in lowercase.
    pub fn as_hex(self) -> (text: String)
        ensures
            text@ == hex_color_text(self.rgb().0, self.rgb().1, self.rgb().2),
    {
        let mut text = String::new();
        push_char(&mut text, '#');
        push_char(&mut text, hex_digit_char(self.red / 16));
        push_char(&mut text, hex_digit_char(self.red % 16));
        push_char(&mut text, hex_digit_char(self.green / 16));
        push_char(&mut text, hex_digit_char(self.green % 16));
        push_char(&mut text, hex_digit_char(self.blue / 16));
        push_char(&mut text, hex_digit_char(self.blue % 16));
        assert(text@ =~= hex_color_text(self.red, self.green, self.blue));
        text
    }
}

/// Printing a colour as hex and parsing it back gives the same colour.
pub proof fn lemma_underlay_hex_roundtrip(red: u8, green: u8, blue: u8)
    ensures
        hex_byte_value(lower_hex_digit(red / 16), lower_hex_digit(red % 16)) == Some(red),
        hex_byte_value(lower_hex_digit(green / 16), lower_hex_digit(green % 16)) == Some(green),
        hex_byte_value(lower_hex_digit(blue / 16), lower_hex_digit(blue % 16)) == Some(blue),
{
    lemma_hex_digit_roundtrip(red / 16);
    lemma_hex_digit_roundtrip(red % 16);
    lemma_hex_digit_roundtrip(green / 16);
    lemma_hex_digit_roundtrip(green % 16);
    lemma_hex_digit_roundtrip(blue / 16);
    lemma_hex_digit_roundtrip(blue % 16);
}

proof fn lemma_hex_digit_roundtrip(value: u8)
    requires
        value < 16,
    ensures
        hex_digit_value(lower_hex_digit(value)) == Some(value),
{
    let c = lower_hex_digit(value);
    if value < 10 {
        assert(c as u32 == (value + 48) as u32);
    } else {
        assert(c as u32 == (value + 87) as u32);
    }
}

/// Why the main clipboard surface closed.
#[derive(Debug, Clone, Copy, PartialEq, Eq, Structural)]
pub enum ClipboardSurfaceCloseReason {
    HotkeyToggle,
    ForcedHotkeyToggle,
    DebugQaReset,
    WindowRequest,
    FocusLost,
    ForegroundChanged,
    PointerOutside,
    PreviewDestroyed,
    Command,
    InputSucceeded,
}

/// Why the preview surface closed.
#[derive(Debug, Clone, Copy, PartialEq, Eq, Structural)]
pub enum ClipboardPreviewCloseReason {
    MainSurfaceClosing,
    ForegroundChanged,
    PointerOutside,
    Command,
    WindowRequest,
    MainSurfaceDestroyed,
}

impl ClipboardPreviewCloseReason {
    /// The reason's stable diagnostic name.
    pub fn as_str(self) -> (name: &'static str)
        ensures
            name@ == match self {
                ClipboardPreviewCloseReason::MainSurfaceClosing => "main_surface_closing"@,
                ClipboardPreviewCloseReason::ForegroundChanged => "foreground_changed"@,
                ClipboardPreviewCloseReason::PointerOutside => "pointer_outside"@,
                ClipboardPreviewCloseReason::Command => "command"@,
                ClipboardPreviewCloseReason::WindowRequest => "window_request"@,
                ClipboardPreviewCloseReason::MainSurfaceDestroyed => "main_surface_destroyed"@,
            },
    {
        match self {
            ClipboardPreviewCloseReason::MainSurfaceClosing => "main_surface_closing",
            ClipboardPreviewCloseReason::ForegroundChanged => "foreground_changed",
            ClipboardPreviewCloseReason::PointerOutside => "pointer_outside",
            ClipboardPreviewCloseReason::Command => "command",
            ClipboardPreviewCloseReason::WindowRequest => "window_request",
            ClipboardPreviewCloseReason::MainSurfaceDestroyed => "main_surface_destroyed",
        }
    }
}

impl ClipboardSurfaceCloseReason {
    /// The reason's stable diagnostic name.
    pub fn as_str(self) -> (name: &'static str)
        ensures
            name@ == match self {
                ClipboardSurfaceCloseReason::HotkeyToggle => "hotkey_toggle"@,
                ClipboardSurfaceCloseReason::ForcedHotkeyToggle => "forced_hotkey_toggle"@,
                ClipboardSurfaceCloseReason::DebugQaReset => "debug_qa_reset"@,
                ClipboardSurfaceCloseReason::WindowRequest => "window_request"@,
                ClipboardSurfaceCloseReason::FocusLost => "focused_false"@,
                ClipboardSurfaceCloseReason::ForegroundChanged => "foreground_changed"@,
                ClipboardSurfaceCloseReason::PointerOutside => "pointer_outside"@,
                ClipboardSurfaceCloseReason::PreviewDestroyed => "preview_destroyed"@,
                ClipboardSurfaceCloseReason::Command => "command"@,
                ClipboardSurfaceCloseReason::InputSucceeded => "input_succeeded"@,
            },
    {
        match self {
            ClipboardSurfaceCloseReason::HotkeyToggle => "hotkey_toggle",
            ClipboardSurfaceCloseReason::ForcedHotkeyToggle => "forced_hotkey_toggle",
            ClipboardSurfaceCloseReason::DebugQaReset => "debug_qa_reset",
            ClipboardSurfaceCloseReason::WindowRequest => "window_request",
            ClipboardSurfaceCloseReason::FocusLost => "focused_false",
            ClipboardSurfaceCloseReason::ForegroundChanged => "foreground_changed",
            ClipboardSurfaceCloseReason::PointerOutside => "pointer_outside",
            ClipboardSurfaceCloseReason::PreviewDestroyed => "preview_destroyed",
            ClipboardSurfaceCloseReason::Command => "command",
            ClipboardSurfaceCloseReason::InputSucceeded => "input_succeeded",
        }
    }
}

/// What the preview surface shows: the selected history record and whether
/// the native preview window is visible.
#[derive(Debug, Clone, PartialEq, Eq)]
pub struct ClipboardPreviewSurfaceState {
    pub record_id: Option<String>,
    pub visible: bool,
}

/// The record the preview surface was last asked to show.
#[derive(Debug, Clone, PartialEq, Eq)]
pub struct ClipboardPreviewSelection {
    pub record_id: Option<String>,
}

/// Why a clipboard surface operation failed.
#[derive(Debug, Clone, PartialEq, Eq)]
pub enum ClipboardSurfaceWindowError {
    Tauri(String),
    Surface(String),
    NativeHandle,
    InvalidDimensions,
    StillVisible,
    MainSurfaceNotVisible,
    SurfaceGroupNotPrepared,
    PreviewStatePoisoned,
    PreviewStillHidden,
    ForegroundMonitor(crate::foreground::ForegroundMonitorError),
    PointerMonitor(crate::pointer::PointerMonitorError),
    CursorPosition,
    WindowsApi(&'static str),
    WindowsApiCode { operation: &'static str, code: u32 },
    CreateRegion,
    ApplyRegion,
    InvalidRegionGeometry,
    UnsupportedPlatform,
}

/// Forgets the record the preview was showing.
pub fn forget_preview_state(selection: &mut ClipboardPreviewSelection) -> (result: Result<(), ClipboardSurfaceWindowError>)
    ensures
        result is Ok,
        final(selection).record_id is None,
{
    selection.record_id = None;
    Ok(())
}

/// The preview state given whether the native preview is visible; a hidden
/// preview forgets its selection.
pub fn preview_state_for(selection: &mut ClipboardPreviewSelection, visible: bool) -> (state: ClipboardPreviewSurfaceState)
    ensures
        !visible ==> final(selection).record_id is None,
        visible ==> final(selection).record_id == old(selection).record_id,
        state.record_id == final(selection).record_id,
        state.visible == visible,
{
    if !visible {
        selection.record_id = None;
    }
    ClipboardPreviewSurfaceState { record_id: selection.record_id.clone(), visible }
}

/// Whether the preview already shows `record_id`: it is visible and that
/// record is selected.
pub fn preview_already_open(visible_before: bool, selected_before: &Option<String>, record_id: &str) -> (open: bool)
    ensures
        open == (visible_before && (selected_before matches Some(selected) && selected@ == record_id@)),
{
    if !visible_before {
        return false;
    }
    match selected_before {
        Some(selected) => str_equal(selected.as_str(), record_id),
        None => false,
    }
}

/// Selects `record_id` in a shown preview and names the change the
/// frontend is told: a different record that was selected before makes it
/// a selection change, otherwise the preview counts as opened.
pub fn select_preview_record(selection: &mut ClipboardPreviewSelection, record_id: String) -> (change: &'static str)
    ensures
        final(selection).record_id matches Some(selected) && selected@ == record_id@,
        change@ == if old(selection).record_id matches Some(previous) && previous@ != record_id@ {
            "selection_changed"@
        } else {
            "opened"@
        },
{
    let change = match &selection.record_id {
        Some(previous) => if str_equal(previous.as_str(), record_id.as_str()) {
            "opened"
        } else {
            "selection_changed"
        },
        None => "opened",
    };
    selection.record_id = Some(record_id);
    change
}

/// Clears the preview selection and tells whether there was one.
pub fn take_preview_selection(selection: &mut ClipboardPreviewSelection) -> (had_selection: bool)
    ensures
        had_selection == old(selection).record_id is Some,
        final(selection).record_id is None,
{
    let had_selection = selection.record_id.is_some();
    selection.record_id = None;
    had_selection
}

/// Runtime routes need both members of the prepared surface group.
pub fn require_prepared_surface_group(main_prepared: bool, preview_prepared: bool) -> (result: Result<
    (),
    ClipboardSurfaceWindowError,
>)
    ensures
        result is Ok <==> main_prepared && preview_prepared,
        result is Err ==> result == Err::<(), ClipboardSurfaceWindowError>(
            ClipboardSurfaceWindowError::SurfaceGroupNotPrepared,
        ),
{
    if main_prepared && preview_prepared {
        Ok(())
    } else {
        Err(ClipboardSurfaceWindowError::SurfaceGroupNotPrepared)
    }
}

/// A point in physical pixels.
#[derive(Debug, Clone, Copy, PartialEq, Eq, Structural)]
pub struct PixelPoint {
    pub x: i32,
    pub y: i32,
}

/// A size in physical pixels.
#[derive(Debug, Clone, Copy, PartialEq, Eq, Structural)]
pub struct PixelSize {
    pub width: u32,
    pub height: u32,
}

/// A half-open rectangle in physical pixels.
#[derive(Debug, Clone, Copy, PartialEq, Eq, Structural)]
pub struct PixelRect {
    pub left: i32,
    pub top: i32,
    pub right: i32,
    pub bottom: i32,
}

/// Where and how large the surface is placed.
#[derive(Debug, Clone, Copy, PartialEq, Eq, Structural)]
pub struct SurfacePlacement {
    pub position: PixelPoint,
    pub size: PixelSize,
}

/// What the surface was anchored to.
#[derive(Debug, Clone, Copy, PartialEq, Eq, Structural)]
pub enum SurfaceAnchorSource {
    Caret,
    Cursor,
}

impl SurfaceAnchorSource {
    /// The anchor's diagnostic name.
    pub fn as_str(self) -> (name: &'static str)
        ensures
            name@ == match self {
                SurfaceAnchorSource::Caret => "caret"@,
                SurfaceAnchorSource::Cursor => "cursor"@,
            },
    {
        match self {
            SurfaceAnchorSource::Caret => "caret",
            SurfaceAnchorSource::Cursor => "cursor",
        }
    }
}

impl PixelRect {
    /// Whether the rectangle is non-empty.
    pub fn is_valid(self) -> (valid: bool)
        ensures
            valid == (self.right > self.left && self.bottom > self.top),
    {
        self.right > self.left && self.bottom > self.top
    }

    /// Whether `point` lies inside the half-open rectangle.
    pub fn contains(self, point: PixelPoint) -> (inside: bool)
        ensures
            inside == (self.left <= point.x < self.right && self.top <= point.y < self.bottom),
    {
        point.x >= self.left && point.x < self.right && point.y >= self.top && point.y < self.bottom
    }

    /// The width, or 0 for an inverted rectangle.
    pub fn width(self) -> (width: u32)
        ensures
            width == if self.right > self.left { self.right - self.left } else { 0 },
    {
        if self.right > self.left {
            (self.right as i64 - self.left as i64) as u32
        } else {
            0
        }
    }

    /// The height, or 0 for an inverted rectangle.
    pub fn height(self) -> (height: u32)
        ensures
            height == if self.bottom > self.top { self.bottom - self.top } else { 0 },
    {
        if self.bottom > self.top {
            (self.bottom as i64 - self.top as i64) as u32
        } else {
            0
        }
    }
}

/// The rectangle at `(x, y)` of the given size, when its far edges fit in `i32`.
pub fn rect_from_origin_size(x: i32, y: i32, width: u32, height: u32) -> (result: Option<PixelRect>)
    ensures
        result is Some <==> x + width <= i32::MAX && y + height <= i32::MAX,
        result matches Some(rect) ==> rect == (PixelRect {
            left: x,
            top: y,
            right: (x + width) as i32,
            bottom: (y + height) as i32,
        }),
{
    let right = x as i64 + width as i64;
    let bottom = y as i64 + height as i64;
    if right > i32::MAX as i64 || bottom > i32::MAX as i64 {
        return None;
    }
    Some(PixelRect { left: x, top: y, right: right as i32, bottom: bottom as i32 })
}

/// Distance from `point` to the half-open range `start..end` on one axis.
pub open spec fn axis_distance_spec(point: i32, start: i32, end: i32) -> int {
    if point < start {
        start - point
    } else if point >= end {
        point - (if end == i32::MIN { i32::MIN as int } else { end - 1 })
    } else {
        0
    }
}

/// Distance from `point` to `start..end` along one axis.
pub fn axis_distance(point: i32, start: i32, end: i32) -> (distance: i64)
    ensures
        distance == axis_distance_spec(point, start, end),
{
    if point < start {
        start as i64 - point as i64
    } else if point >= end {
        let last: i32 = if end == i32::MIN { i32::MIN } else { end - 1 };
        point as i64 - last as i64
    } else {
        0
    }
}

/// Squared distance from `point` to `rect`.
pub open spec fn squared_distance_spec(point: PixelPoint, rect: PixelRect) -> int {
    let x = axis_distance_spec(point.x, rect.left, rect.right);
    let y = axis_distance_spec(point.y, rect.top, rect.bottom);
    x * x + y * y
}

/// Squared distance from `point` to `rect`.
pub fn squared_distance_to_rect(point: PixelPoint, rect: PixelRect) -> (distance: i128)
    ensures
        distance == squared_distance_spec(point, rect),
{
    let x = axis_distance(point.x, rect.left, rect.right);
    let y = axis_distance(point.y, rect.top, rect.bottom);
    assert(0 <= x * x <= 0x1_0000_0000 * 0x1_0000_0000) by (nonlinear_arith)
        requires
            0 <= x <= 0x1_0000_0000,
    ;
    assert(0 <= y * y <= 0x1_0000_0000 * 0x1_0000_0000) by (nonlinear_arith)
        requires
            0 <= y <= 0x1_0000_0000,
    ;
    (x as i128) * (x as i128) + (y as i128) * (y as i128)
}

/// Whether `bounds[i]` is the first of the monitors nearest to `anchor`.
pub open spec fn is_first_nearest(anchor: PixelPoint, bounds: Seq<PixelRect>, i: int) -> bool {
    &&& 0 <= i < bounds.len()
    &&& forall|j: int|
        0 <= j < bounds.len() ==> squared_distance_spec(anchor, bounds[i]) <= squared_distance_spec(
            anchor,
            #[trigger] bounds[j],
        )
    &&& forall|j: int|
        0 <= j < i ==> squared_distance_spec(anchor, bounds[i]) < squared_distance_spec(
            anchor,
            #[trigger] bounds[j],
        )
}

/// Whether `bounds[i]` is the first monitor that contains `anchor`.
pub open spec fn is_first_containing(anchor: PixelPoint, bounds: Seq<PixelRect>, i: int) -> bool {
    &&& 0 <= i < bounds.len()
    &&& contains_point(bounds[i], anchor)
    &&& forall|j: int| 0 <= j < i ==> !contains_point(#[trigger] bounds[j], anchor)
}

/// The monitor the surface anchors to: the first whose bounds contain
/// `anchor`, else the first nearest one; `None` without monitors.
pub open spec fn anchor_monitor_index(anchor: PixelPoint, bounds: Seq<PixelRect>) -> Option<int> {
    if exists|i: int| 0 <= i < bounds.len() && #[trigger] contains_point(bounds[i], anchor) {
        Some(choose|i: int| is_first_containing(anchor, bounds, i))
    } else if bounds.len() == 0 {
        None
    } else {
        Some(choose|i: int| is_first_nearest(anchor, bounds, i))
    }
}

/// Whether `point` lies inside `rect`.
pub open spec fn contains_point(rect: PixelRect, point: PixelPoint) -> bool {
    rect.left <= point.x < rect.right && rect.top <= point.y < rect.bottom
}

/// Index of the monitor whose bounds the surface anchors to.
pub fn select_anchor_monitor(anchor: PixelPoint, bounds: &[PixelRect]) -> (result: Option<usize>)
    ensures
        match anchor_monitor_index(anchor, bounds@) {
            Some(i) => result == Some(i as usize),
            None => result is None,
        },
{
    let mut i: usize = 0;
    while i < bounds.len()
        invariant
            i <= bounds@.len(),
            forall|j: int| 0 <= j < i ==> !contains_point(bounds@[j], anchor),
        decreases bounds.len() - i,
    {
        if bounds[i].contains(anchor) {
            proof {
                assert(contains_point(bounds@[i as int], anchor));
                assert(is_first_containing(anchor, bounds@, i as int));
                let k = choose|k: int| is_first_containing(anchor, bounds@, k);
                assert(k == i) by {
                    if k < i {
                        assert(!contains_point(bounds@[k], anchor));
                    } else if k > i {
                        assert(!contains_point(bounds@[i as int], anchor));
                    }
                }
            }
            return Some(i);
        }
        i += 1;
    }
    assert(!(exists|i: int| 0 <= i < bounds@.len() && #[trigger] contains_point(bounds@[i], anchor)));
    if bounds.len() == 0 {
        return None;
    }
    let mut best: usize = 0;
    let mut best_distance = squared_distance_to_rect(anchor, bounds[0]);
    let mut k: usize = 1;
    while k < bounds.len()
        invariant
            1 <= k <= bounds@.len(),
            best < k,
            best_distance == squared_distance_spec(anchor, bounds@[best as int]),
            forall|j: int| 0 <= j < k ==> best_distance <= squared_distance_spec(anchor, bounds@[j]),
            forall|j: int| 0 <= j < best ==> best_distance < squared_distance_spec(anchor, bounds@[j]),
        decreases bounds.len() - k,
    {
        let distance = squared_distance_to_rect(anchor, bounds[k]);
        if distance < best_distance {
            best = k;
            best_distance = distance;
        }
        k += 1;
    }
    proof {
        assert(is_first_nearest(anchor, bounds@, best as int));
        let c = choose|c: int| is_first_nearest(anchor, bounds@, c);
        assert(c == best) by {
            if c < best {
                assert(squared_distance_spec(anchor, bounds@[best as int]) <= squared_distance_spec(anchor, bounds@[c]));
            } else if c > best {
                assert(squared_distance_spec(anchor, bounds@[c]) <= squared_distance_spec(anchor, bounds@[best as int]));
            }
        }
    }
    Some(best)
}

/// Where a surface of `length` goes along one axis of `start..end`: just
/// after `cursor + gap` when that fits, else just before `cursor - gap`,
/// else pushed inside the range.
pub open spec fn place_axis_spec(cursor: i32, start: i32, end: i32, length: u32, gap: i32) -> Option<int> {
    if end <= start || length == 0 || length > end - start || gap < 0 {
        None
    } else {
        let after = cursor + gap;
        let before = cursor - gap - length;
        if after >= start && after + length <= end {
            Some(after)
        } else if before >= start && before + length <= end {
            Some(before)
        } else if after < start {
            Some(start as int)
        } else if after > end - length {
            Some(end - length)
        } else {
            Some(after)
        }
    }
}

/// Places a surface of `length` along one axis near `cursor`; the result
/// always lies wholly inside `start..end`.
pub fn place_axis(cursor: i32, start: i32, end: i32, length: u32, gap: i32) -> (result: Option<i32>)
    ensures
        match place_axis_spec(cursor, start, end, length, gap) {
            Some(p) => result == Some(p as i32),
            None => result is None,
        },
        result matches Some(p) ==> start <= p && p + length <= end,
{
    let start = start as i64;
    let end = end as i64;
    let cursor = cursor as i64;
    let length = length as i64;
    let gap = gap as i64;
    if end <= start || length <= 0 || length > end - start || gap < 0 {
        return None;
    }
    let after = cursor + gap;
    if after >= start && after + length <= end {
        return Some(after as i32);
    }
    let before = cursor - gap - length;
    if before >= start && before + length <= end {
        return Some(before as i32);
    }
    let clamped = if after < start {
        start
    } else if after > end - length {
        end - length
    } else {
        after
    };
    Some(clamped as i32)
}

/// The pixels between `start` and `end` (0 when inverted).
pub fn axis_space(start: i32, end: i32) -> (space: u32)
    ensures
        space == if end > start { end - start } else { 0 },
{
    if end > start {
        (end as i64 - start as i64) as u32
    } else {
        0
    }
}

/// Whether a placement lies wholly inside `area`.
pub open spec fn placement_inside(placement: SurfacePlacement, area: PixelRect) -> bool {
    &&& area.left <= placement.position.x
    &&& placement.position.x + placement.size.width <= area.right
    &&& area.top <= placement.position.y
    &&& placement.position.y + placement.size.height <= area.bottom
}

/// The placement of the main surface: the requested size shrunk to the work
/// area, each axis placed near the cursor by `place_axis_spec`.
pub open spec fn surface_placement_spec(
    cursor: PixelPoint,
    bounds: PixelRect,
    work_area: PixelRect,
    requested_width: u32,
    requested_height: u32,
    gap: u32,
) -> Option<SurfacePlacement> {
    if !(bounds.right > bounds.left && bounds.bottom > bounds.top && work_area.right > work_area.left
        && work_area.bottom > work_area.top) {
        None
    } else {
        let width: int = if requested_width < work_area.right - work_area.left {
            requested_width as int
        } else {
            work_area.right - work_area.left
        };
        let height: int = if requested_height < work_area.bottom - work_area.top {
            requested_height as int
        } else {
            work_area.bottom - work_area.top
        };
        if width == 0 || height == 0 || gap > i32::MAX {
            None
        } else {
            match (
                place_axis_spec(cursor.x, work_area.left, work_area.right, width as u32, gap as i32),
                place_axis_spec(cursor.y, work_area.top, work_area.bottom, height as u32, gap as i32),
            ) {
                (Some(x), Some(y)) => Some(
                    SurfacePlacement {
                        position: PixelPoint { x: x as i32, y: y as i32 },
                        size: PixelSize { width: width as u32, height: height as u32 },
                    },
                ),
                _ => None,
            }
        }
    }
}

/// Places the main surface of the requested physical size near `cursor`,
/// shrunk to fit the work area; always wholly inside the work area.
pub fn surface_placement_for(
    cursor: PixelPoint,
    bounds: PixelRect,
    work_area: PixelRect,
    requested_width: u32,
    requested_height: u32,
    gap: u32,
) -> (result: Option<SurfacePlacement>)
    ensures
        result matches Some(placement) ==> placement_inside(placement, work_area),
        result matches Some(placement) ==> placement.size.width == if requested_width
            < work_area.right - work_area.left { requested_width as int } else {
            work_area.right - work_area.left
        },
        result matches Some(placement) ==> placement.size.height == if requested_height
            < work_area.bottom - work_area.top { requested_height as int } else {
            work_area.bottom - work_area.top
        },
        result is Some ==> bounds.right > bounds.left && bounds.bottom > bounds.top,
        result == surface_placement_spec(cursor, bounds, work_area, requested_width, requested_height, gap),
{
    if !bounds.is_valid() || !work_area.is_valid() {
        return None;
    }
    let area_width = work_area.width();
    let area_height = work_area.height();
    let width = if requested_width < area_width { requested_width } else { area_width };
    let height = if requested_height < area_height { requested_height } else { area_height };
    if width == 0 || height == 0 {
        return None;
    }
    if gap > i32::MAX as u32 {
        return None;
    }
    let gap = gap as i32;
    let x = match place_axis(cursor.x, work_area.left, work_area.right, width, gap) {
        Some(x) => x,
        None => {
            return None;
        },
    };
    let y = match place_axis(cursor.y, work_area.top, work_area.bottom, height, gap) {
        Some(y) => y,
        None => {
            return None;
        },
    };
    Some(SurfacePlacement { position: PixelPoint { x, y }, size: PixelSize { width, height } })
}

/// Which side of the main surface the preview takes, and the room there:
/// the right when the requested width fits, else the left when it fits, else
/// the roomier side.
pub open spec fn preview_side(anchor: PixelRect, work_area: PixelRect, requested_width: u32) -> (bool, int) {
    let right_space: int = if work_area.right > anchor.right { work_area.right - anchor.right } else { 0 };
    let left_space: int = if anchor.left > work_area.left { anchor.left - work_area.left } else { 0 };
    if right_space >= requested_width {
        (true, right_space)
    } else if left_space >= requested_width {
        (false, left_space)
    } else if right_space >= left_space {
        (true, right_space)
    } else {
        (false, left_space)
    }
}

/// The placement of the preview beside the main surface `anchor`.
pub open spec fn preview_placement_spec(
    anchor: PixelRect,
    bounds: PixelRect,
    work_area: PixelRect,
    requested_width: u32,
    requested_height: u32,
) -> Option<SurfacePlacement> {
    if !(anchor.right > anchor.left && anchor.bottom > anchor.top && bounds.right > bounds.left && bounds.bottom
        > bounds.top && work_area.right > work_area.left && work_area.bottom > work_area.top) {
        None
    } else {
        let (on_right, available) = preview_side(anchor, work_area, requested_width);
        let width: int = if requested_width < available { requested_width as int } else { available };
        let height: int = if requested_height < work_area.bottom - work_area.top {
            requested_height as int
        } else {
            work_area.bottom - work_area.top
        };
        if width == 0 || height == 0 || width > i32::MAX || (!on_right && anchor.left - width < i32::MIN) {
            None
        } else {
            let x: int = if on_right { anchor.right as int } else { anchor.left - width };
            let maximum_y: int = work_area.bottom - height;
            let y: int = if anchor.top < work_area.top {
                work_area.top as int
            } else if anchor.top > maximum_y {
                maximum_y
            } else {
                anchor.top as int
            };
            Some(
                SurfacePlacement {
                    position: PixelPoint { x: x as i32, y: y as i32 },
                    size: PixelSize { width: width as u32, height: height as u32 },
                },
            )
        }
    }
}

/// Places the preview beside the main surface `anchor`: on its right when
/// the requested width fits there, else on its left when it fits there, else
/// on the roomier side, shrunk to fit; vertically aligned with the main
/// surface and kept inside the work area. The two surfaces touch but never overlap.
pub fn preview_surface_placement_for(
    anchor: PixelRect,
    bounds: PixelRect,
    work_area: PixelRect,
    requested_width: u32,
    requested_height: u32,
) -> (result: Option<SurfacePlacement>)
    ensures
        result matches Some(placement) ==> {
            &&& placement.position.x + placement.size.width == anchor.left || placement.position.x
                == anchor.right
            &&& work_area.top <= placement.position.y
            &&& placement.position.y + placement.size.height <= work_area.bottom
        },
        result matches Some(placement) ==> (placement.position.x == anchor.right ==> anchor.right
            + placement.size.width <= work_area.right),
        result matches Some(placement) ==> (placement.position.x + placement.size.width
            == anchor.left && placement.position.x != anchor.right ==> work_area.left
            <= placement.position.x),
        result == preview_placement_spec(anchor, bounds, work_area, requested_width, requested_height),
{
    if !anchor.is_valid() || !bounds.is_valid() || !work_area.is_valid() {
        return None;
    }
    let right_start = anchor.right;
    let left_end = anchor.left;
    let right_space = axis_space(right_start, work_area.right);
    let left_space = axis_space(work_area.left, left_end);
    let (on_right, available_width) = if right_space >= requested_width {
        (true, right_space)
    } else if left_space >= requested_width {
        (false, left_space)
    } else if right_space >= left_space {
        (true, right_space)
    } else {
        (false, left_space)
    };
    let width = if requested_width < available_width { requested_width } else { available_width };
    let area_height = work_area.height();
    let height = if requested_height < area_height { requested_height } else { area_height };
    if width == 0 || height == 0 {
        return None;
    }
    if width > i32::MAX as u32 {
        return None;
    }
    let width_i32 = width as i32;
    let x = if on_right {
        right_start
    } else {
        if (left_end as i64) - (width_i32 as i64) < i32::MIN as i64 {
            return None;
        }
        left_end - width_i32
    };
    let maximum_y = work_area.bottom as i64 - height as i64;
    let top = anchor.top as i64;
    let y = if top < work_area.top as i64 {
        work_area.top as i64
    } else if top > maximum_y {
        maximum_y
    } else {
        top
    };
    Some(SurfacePlacement { position: PixelPoint { x, y: y as i32 }, size: PixelSize { width, height } })
}

/// The surface anchor: a valid caret wins and the cursor is not read; without
/// one, the cursor read by `cursor_fallback`.
pub fn resolve_surface_anchor<E, F: FnOnce() -> Result<PixelPoint, E>>(
    valid_caret: Option<PixelPoint>,
    cursor_fallback: F,
) -> (result: Result<(PixelPoint, SurfaceAnchorSource), E>)
    requires
        valid_caret is None ==> cursor_fallback.requires(()),
    ensures
        valid_caret matches Some(caret) ==> result matches Ok(anchor) && anchor == (
        caret,
        SurfaceAnchorSource::Caret,
        ),
        valid_caret is None ==> exists|read: Result<PixelPoint, E>|
            cursor_fallback.ensures((), read) && match read {
                Ok(cursor) => result matches Ok(anchor) && anchor == (cursor, SurfaceAnchorSource::Cursor),
                Err(error) => result matches Err(e) && e == error,
            },
{
    match valid_caret {
        Some(caret) => Ok((caret, SurfaceAnchorSource::Caret)),
        None => {
            let read = cursor_fallback();
            match read {
                Ok(cursor) => Ok((cursor, SurfaceAnchorSource::Cursor)),
                Err(error) => Err(error),
            }
        },
    }
}

/// Maps a caret point from client to logical screen coordinates, then to
/// physical ones; reports both screen points and the conversion mode.
pub fn convert_caret_client_to_physical_screen<T: Copy, M, E, C: FnOnce(T) -> Result<T, E>, L: FnOnce(
    T,
) -> Result<(T, M), E>>(client_point: T, client_to_screen: C, logical_to_physical: L) -> (result:
    Result<(T, T, M), E>)
    requires
        client_to_screen.requires((client_point,)),
        forall|logical: T| #[trigger] logical_to_physical.requires((logical,)),
    ensures
        result matches Ok((logical, physical, mode)) ==> client_to_screen.ensures(
            (client_point,),
            Ok::<T, E>(logical),
        ) && logical_to_physical.ensures((logical,), Ok::<(T, M), E>((physical, mode))),
        exists|screen: Result<T, E>|
            #[trigger] client_to_screen.ensures((client_point,), screen) && match screen {
                Err(error) => result == Err::<(T, T, M), E>(error),
                Ok(logical) => exists|converted: Result<(T, M), E>|
                    #[trigger] logical_to_physical.ensures((logical,), converted) && match converted {
                        Ok((physical, mode)) => result == Ok::<(T, T, M), E>((logical, physical, mode)),
                        Err(error) => result == Err::<(T, T, M), E>(error),
                    },
            },
{
    let logical_screen = match client_to_screen(client_point) {
        Ok(point) => point,
        Err(error) => {
            return Err(error);
        },
    };
    match logical_to_physical(logical_screen) {
        Ok((physical_screen, mode)) => Ok((logical_screen, physical_screen, mode)),
        Err(error) => Err(error),
    }
}

/// The client size a rounded window region covers: `None` unless both sides
/// are positive and fit an `i32`.
pub fn region_dimensions_from_client_rect(rect: PixelRect) -> (result: Option<(i32, i32)>)
    ensures
        result == (if rect.left <= rect.right && rect.right - rect.left <= i32::MAX && rect.top <= rect.bottom
            && rect.bottom - rect.top <= i32::MAX && rect.right - rect.left > 0 && rect.bottom - rect.top > 0 {
            Some(((rect.right - rect.left) as i32, (rect.bottom - rect.top) as i32))
        } else {
            None::<(i32, i32)>
        }),
{
    let width = rect.right as i64 - rect.left as i64;
    let height = rect.bottom as i64 - rect.top as i64;
    if width < 0 || width > i32::MAX as i64 || height < 0 || height > i32::MAX as i64 {
        return None;
    }
    if width > 0 && height > 0 {
        Some((width as i32, height as i32))
    } else {
        None
    }
}

/// The exclusive corner a region request names for a window of the given
/// size: one past each side.
pub fn region_request_bounds(width: i32, height: i32) -> (result: Option<(i32, i32)>)
    ensures
        result == (if width < i32::MAX && height < i32::MAX {
            Some(((width + 1) as i32, (height + 1) as i32))
        } else {
            None::<(i32, i32)>
        }),
{
    if width < i32::MAX && height < i32::MAX {
        Some((width + 1, height + 1))
    } else {
        None
    }
}

// ---------------------------------------------------------------------------
// Surface lifecycle steps.

/// The main surface window's label.
pub const CLIPBOARD_SURFACE_LABEL: &'static str = "clipboard-surface";
/// The main surface window's route in the web content.
pub const CLIPBOARD_SURFACE_ROUTE: &'static str = "index.html#clipboard-surface";
/// The preview surface window's label.
pub const CLIPBOARD_PREVIEW_SURFACE_LABEL: &'static str = "clipboard-preview-surface";
/// The preview surface window's route in the web content.
pub const CLIPBOARD_PREVIEW_SURFACE_ROUTE: &'static str = "index.html#clipboard-preview-surface";
/// The state change reported when the surface opens.
pub const CLIPBOARD_SURFACE_OPENED_CHANGE: &'static str = "surface_opened";
/// The state change reported when the surface closes.
pub const CLIPBOARD_SURFACE_CLOSED_CHANGE: &'static str = "surface_closed";

/// Paints `color` under both members of the prepared surface group, main
/// surface first; both are attempted and the first failure is reported.
pub fn apply_underlay_to_prepared_group<F: Fn(&'static str, ClipboardSurfaceUnderlayColor) -> Result<
    (),
    ClipboardSurfaceWindowError,
>>(main_prepared: bool, preview_prepared: bool, color: ClipboardSurfaceUnderlayColor, apply: F) -> (result:
    Result<(), ClipboardSurfaceWindowError>)
    requires
        forall|label: &'static str, shade: ClipboardSurfaceUnderlayColor| #[trigger] apply.requires((label, shade)),
    ensures
        !(main_prepared && preview_prepared) ==> result == Err::<(), ClipboardSurfaceWindowError>(
            ClipboardSurfaceWindowError::SurfaceGroupNotPrepared,
        ),
        main_prepared && preview_prepared ==> exists|
            main_result: Result<(), ClipboardSurfaceWindowError>,
            preview_result: Result<(), ClipboardSurfaceWindowError>,
        |
            #![trigger apply.ensures((CLIPBOARD_SURFACE_LABEL, color), main_result), apply.ensures((CLIPBOARD_PREVIEW_SURFACE_LABEL, color), preview_result)]
            apply.ensures((CLIPBOARD_SURFACE_LABEL, color), main_result) && apply.ensures(
                (CLIPBOARD_PREVIEW_SURFACE_LABEL, color),
                preview_result,
            ) && result == match main_result {
                Err(error) => Err(error),
                Ok(()) => preview_result,
            },
{
    match require_prepared_surface_group(main_prepared, preview_prepared) {
        Ok(()) => {},
        Err(error) => {
            return Err(error);
        },
    }
    let main_result = apply(CLIPBOARD_SURFACE_LABEL, color);
    let preview_result = apply(CLIPBOARD_PREVIEW_SURFACE_LABEL, color);
    match main_result {
        Err(error) => Err(error),
        Ok(()) => preview_result,
    }
}

/// Hiding and querying a native window.
pub trait NativeVisibilityApi {
    /// Asks the window to hide.
    fn hide_window(&mut self, window: usize);
    /// Whether the window is still visible.
    fn is_visible(&mut self, window: usize) -> bool;
}

/// Hides a window and confirms that it is no longer visible.
pub fn hide_and_verify<A: NativeVisibilityApi>(api: &mut A, window: usize) -> (result: Result<
    (),
    ClipboardSurfaceWindowError,
>)
    ensures
        result is Err ==> result == Err::<(), ClipboardSurfaceWindowError>(
            ClipboardSurfaceWindowError::StillVisible,
        ),
{
    api.hide_window(window);
    if api.is_visible(window) {
        Err(ClipboardSurfaceWindowError::StillVisible)
    } else {
        Ok(())
    }
}

/// Clears surface state only once the native window is confirmed hidden;
/// a failed hide leaves the state for a retry.
pub fn hide_then_clear<
    H: FnOnce() -> Result<(), ClipboardSurfaceWindowError>,
    C: FnOnce() -> Result<(), ClipboardSurfaceWindowError>,
>(hide_step: H, clear: C) -> (result: Result<(), ClipboardSurfaceWindowError>)
    requires
        hide_step.requires(()),
        clear.requires(()),
    ensures
        exists|hidden: Result<(), ClipboardSurfaceWindowError>|
            #[trigger] hide_step.ensures((), hidden) && match hidden {
                Err(error) => result == Err::<(), ClipboardSurfaceWindowError>(error),
                Ok(()) => clear.ensures((), result),
            },
{
    match hide_step() {
        Ok(()) => clear(),
        Err(error) => Err(error),
    }
}

/// Shows a newly created preview: configure it, compute its placement, show
/// it there and confirm that it became visible; the first failing step ends it.
pub fn configure_show_verify_preview<
    C: FnOnce() -> Result<(), ClipboardSurfaceWindowError>,
    P: FnOnce() -> Result<SurfacePlacement, ClipboardSurfaceWindowError>,
    S: FnOnce(SurfacePlacement) -> Result<(), ClipboardSurfaceWindowError>,
    V: FnOnce() -> Result<bool, ClipboardSurfaceWindowError>,
>(configure: C, placement: P, show: S, visible_after: V) -> (result: Result<
    SurfacePlacement,
    ClipboardSurfaceWindowError,
>)
    requires
        configure.requires(()),
        placement.requires(()),
        forall|at: SurfacePlacement| #[trigger] show.requires((at,)),
        visible_after.requires(()),
    ensures
        exists|configured: Result<(), ClipboardSurfaceWindowError>|
            #[trigger] configure.ensures((), configured) && match configured {
                Err(error) => result == Err::<SurfacePlacement, ClipboardSurfaceWindowError>(error),
                Ok(()) => exists|placed: Result<SurfacePlacement, ClipboardSurfaceWindowError>|
                    #[trigger] placement.ensures((), placed) && match placed {
                        Err(error) => result == Err::<SurfacePlacement, ClipboardSurfaceWindowError>(error),
                        Ok(at) => exists|shown: Result<(), ClipboardSurfaceWindowError>|
                            #[trigger] show.ensures((at,), shown) && match shown {
                                Err(error) => result == Err::<SurfacePlacement, ClipboardSurfaceWindowError>(
                                    error,
                                ),
                                Ok(()) => exists|seen: Result<bool, ClipboardSurfaceWindowError>|
                                    #[trigger] visible_after.ensures((), seen) && match seen {
                                        Err(error) => result == Err::<
                                            SurfacePlacement,
                                            ClipboardSurfaceWindowError,
                                        >(error),
                                        Ok(false) => result == Err::<
                                            SurfacePlacement,
                                            ClipboardSurfaceWindowError,
                                        >(ClipboardSurfaceWindowError::PreviewStillHidden),
                                        Ok(true) => result == Ok::<
                                            SurfacePlacement,
                                            ClipboardSurfaceWindowError,
                                        >(at),
                                    },
                            },
                    },
            },
{
    match configure() {
        Ok(()) => {},
        Err(error) => {
            return Err(error);
        },
    }
    let at = match placement() {
        Ok(at) => at,
        Err(error) => {
            return Err(error);
        },
    };
    match show(at) {
        Ok(()) => {},
        Err(error) => {
            return Err(error);
        },
    }
    match visible_after() {
        Ok(true) => Ok(at),
        Ok(false) => Err(ClipboardSurfaceWindowError::PreviewStillHidden),
        Err(error) => Err(error),
    }
}

/// Closes the preview: hides it first and clears the selection only after a
/// successful hide; reports whether a selection was cleared.
pub fn close_preview_lifecycle<
    H: FnOnce() -> Result<(), ClipboardSurfaceWindowError>,
    C: FnOnce() -> Result<bool, ClipboardSurfaceWindowError>,
>(hide_step: H, clear_selection: C) -> (result: Result<bool, ClipboardSurfaceWindowError>)
    requires
        hide_step.requires(()),
        clear_selection.requires(()),
    ensures
        exists|hidden: Result<(), ClipboardSurfaceWindowError>|
            #[trigger] hide_step.ensures((), hidden) && match hidden {
                Err(error) => result == Err::<bool, ClipboardSurfaceWindowError>(error),
                Ok(()) => clear_selection.ensures((), result),
            },
{
    match hide_step() {
        Ok(()) => clear_selection(),
        Err(error) => Err(error),
    }
}

// ---------------------------------------------------------------------------
// Native window styles.

/// Window style bits the popup clears or sets.
pub const WS_CAPTION: u32 = 0x00C0_0000;
pub const WS_MAXIMIZEBOX: u32 = 0x0001_0000;
pub const WS_MINIMIZEBOX: u32 = 0x0002_0000;
pub const WS_SYSMENU: u32 = 0x0008_0000;
pub const WS_THICKFRAME: u32 = 0x0004_0000;
pub const WS_POPUP: u32 = 0x8000_0000;
/// Extended window style bits the popup clears or sets.
pub const WS_EX_APPWINDOW: u32 = 0x0004_0000;
pub const WS_EX_NOACTIVATE: u32 = 0x0800_0000;
pub const WS_EX_TOOLWINDOW: u32 = 0x0000_0080;

/// A frameless popup: no caption, frame or system buttons.
pub fn popup_window_style(style: u32) -> (result: u32)
    ensures
        result == (style & !(WS_CAPTION | WS_MAXIMIZEBOX | WS_MINIMIZEBOX | WS_SYSMENU | WS_THICKFRAME))
            | WS_POPUP,
{
    (style & !(WS_CAPTION | WS_MAXIMIZEBOX | WS_MINIMIZEBOX | WS_SYSMENU | WS_THICKFRAME)) | WS_POPUP
}

/// A tool window that never activates and has no taskbar button.
pub fn popup_extended_style(style: u32) -> (result: u32)
    ensures
        result == (style & !WS_EX_APPWINDOW) | WS_EX_NOACTIVATE | WS_EX_TOOLWINDOW,
{
    (style & !WS_EX_APPWINDOW) | WS_EX_NOACTIVATE | WS_EX_TOOLWINDOW
}

/// A child window that never activates.
pub fn child_no_activate_extended_style(style: u32) -> (result: u32)
    ensures
        result == style | WS_EX_NOACTIVATE,
{
    style | WS_EX_NOACTIVATE
}

/// Which style transformation a window-long update applies.
#[derive(Debug, Clone, Copy, PartialEq, Eq, Structural)]
pub enum StyleTransform {
    PopupWindow,
    PopupExtended,
    ChildNoActivate,
}

/// The style after `transform`.
pub open spec fn transformed_style(transform: StyleTransform, style: u32) -> u32 {
    match transform {
        StyleTransform::PopupWindow => (style & !(WS_CAPTION | WS_MAXIMIZEBOX | WS_MINIMIZEBOX
            | WS_SYSMENU | WS_THICKFRAME)) | WS_POPUP,
        StyleTransform::PopupExtended => (style & !WS_EX_APPWINDOW) | WS_EX_NOACTIVATE
            | WS_EX_TOOLWINDOW,
        StyleTransform::ChildNoActivate => style | WS_EX_NOACTIVATE,
    }
}

/// Applies `transform` to a style.
pub fn apply_style_transform(transform: StyleTransform, style: u32) -> (result: u32)
    ensures
        result == transformed_style(transform, style),
{
    match transform {
        StyleTransform::PopupWindow => popup_window_style(style),
        StyleTransform::PopupExtended => popup_extended_style(style),
        StyleTransform::ChildNoActivate => child_no_activate_extended_style(style),
    }
}

/// `GetWindowLongPtrW`/`SetWindowLongPtrW`, each reporting the value and the
/// last error.
pub trait WindowLongApi {
    /// Reads a window long.
    fn get(&mut self, window: usize, index: i32) -> (isize, u32);
    /// Writes a window long and returns the previous value.
    fn set(&mut self, window: usize, index: i32, value: isize) -> (isize, u32);
}

/// Whether a window-long update wrote anything.
#[derive(Debug, Clone, Copy, PartialEq, Eq, Structural)]
pub enum WindowLongUpdate {
    Unchanged,
    Updated,
}

/// What updating a window long comes to, from what reading it gave
/// (`current`, `get_error`) and, when the style changes, what writing it gave
/// (`previous`, `set_error`): a zero value counts as a failure only when the
/// last error is set, since zero is a legitimate style.
pub open spec fn window_long_outcome(
    transform: StyleTransform,
    current: isize,
    get_error: u32,
    previous: isize,
    set_error: u32,
    get_operation: &'static str,
    set_operation: &'static str,
) -> Result<WindowLongUpdate, ClipboardSurfaceWindowError> {
    if current == 0 && get_error != 0 {
        Err(ClipboardSurfaceWindowError::WindowsApiCode { operation: get_operation, code: get_error })
    } else if transformed_style(transform, current as u32) == current as u32 {
        Ok(WindowLongUpdate::Unchanged)
    } else if previous == 0 && set_error != 0 {
        Err(ClipboardSurfaceWindowError::WindowsApiCode { operation: set_operation, code: set_error })
    } else {
        Ok(WindowLongUpdate::Updated)
    }
}

/// Applies `transform` to a window long: reads it, and writes the
/// transformed style back only when it differs.
pub fn update_window_long<A: WindowLongApi>(
    api: &mut A,
    window: usize,
    index: i32,
    transform: StyleTransform,
    get_operation: &'static str,
    set_operation: &'static str,
) -> (result: Result<WindowLongUpdate, ClipboardSurfaceWindowError>)
    ensures
        exists|current: isize, get_error: u32, previous: isize, set_error: u32|
            result == #[trigger] window_long_outcome(
                transform,
                current,
                get_error,
                previous,
                set_error,
                get_operation,
                set_operation,
            ),
{
    let (current, get_error) = api.get(window, index);
    if current == 0 && get_error != 0 {
        let result = Err(ClipboardSurfaceWindowError::WindowsApiCode { operation: get_operation, code: get_error });
        assert(result == window_long_outcome(transform, current, get_error, 0, 0, get_operation, set_operation));
        return result;
    }
    let current_style = current as u32;
    let next = apply_style_transform(transform, current_style);
    if next == current_style {
        assert(Ok::<WindowLongUpdate, ClipboardSurfaceWindowError>(WindowLongUpdate::Unchanged)
            == window_long_outcome(transform, current, get_error, 0, 0, get_operation, set_operation));
        return Ok(WindowLongUpdate::Unchanged);
    }
    let (previous, set_error) = api.set(window, index, (next as i32) as isize);
    if previous == 0 && set_error != 0 {
        let result = Err(ClipboardSurfaceWindowError::WindowsApiCode { operation: set_operation, code: set_error });
        assert(result == window_long_outcome(
            transform,
            current,
            get_error,
            previous,
            set_error,
            get_operation,
            set_operation,
        ));
        return result;
    }
    assert(Ok::<WindowLongUpdate, ClipboardSurfaceWindowError>(WindowLongUpdate::Updated) == window_long_outcome(
        transform,
        current,
        get_error,
        previous,
        set_error,
        get_operation,
        set_operation,
    ));
    Ok(WindowLongUpdate::Updated)
}

/// The extended-style index of `GetWindowLongPtrW`/`SetWindowLongPtrW`.
pub const GWL_EXSTYLE: i32 = -20;

/// How restyling a child window went: applied, or degraded without making
/// the surface fail.
#[derive(Debug, Clone, PartialEq, Eq)]
pub enum ChildStyleUpdate {
    Applied(WindowLongUpdate),
    Degraded(ClipboardSurfaceWindowError),
}

/// Makes a child window never activate; a failure degrades the child
/// instead of failing the surface.
pub fn update_child_no_activate_style<A: WindowLongApi>(api: &mut A, window: usize) -> (result: ChildStyleUpdate)
    ensures
        exists|current: isize, get_error: u32, previous: isize, set_error: u32|
            #[trigger] window_long_outcome(
                StyleTransform::ChildNoActivate,
                current,
                get_error,
                previous,
                set_error,
                "GetWindowLongPtrW(child GWL_EXSTYLE)",
                "SetWindowLongPtrW(child GWL_EXSTYLE)",
            ) == match result {
                ChildStyleUpdate::Applied(update) => Ok::<WindowLongUpdate, ClipboardSurfaceWindowError>(update),
                ChildStyleUpdate::Degraded(error) => Err(error),
            },
{
    match update_window_long(
        api,
        window,
        GWL_EXSTYLE,
        StyleTransform::ChildNoActivate,
        "GetWindowLongPtrW(child GWL_EXSTYLE)",
        "SetWindowLongPtrW(child GWL_EXSTYLE)",
    ) {
        Ok(update) => ChildStyleUpdate::Applied(update),
        Err(error) => ChildStyleUpdate::Degraded(error),
    }
}

/// The web-content child classes whose style is adjusted too.
#[derive(Debug, Clone, Copy, PartialEq, Eq, Structural)]
pub enum NoActivateChildKind {
    WryWebview,
    ChromiumHost,
}

/// What to do with one child window of the popup.
#[derive(Debug, Clone, Copy, PartialEq, Eq, Structural)]
pub enum NoActivateChildPolicy {
    SkipDifferentIdentity,
    SubclassOnly,
    SubclassAndStyle(NoActivateChildKind),
}

/// The policy for a child window: children of another process or UI thread
/// are skipped, known web-content hosts are subclassed and restyled, any
/// other child is only subclassed.
pub fn no_activate_child_policy(
    root_process_id: u32,
    root_thread_id: u32,
    process_id: u32,
    thread_id: u32,
    class_name: &str,
) -> (policy: NoActivateChildPolicy)
    ensures
        policy == if process_id != root_process_id || thread_id != root_thread_id {
            NoActivateChildPolicy::SkipDifferentIdentity
        } else if class_name@ == "WRY_WEBVIEW"@ {
            NoActivateChildPolicy::SubclassAndStyle(NoActivateChildKind::WryWebview)
        } else if class_name@ == "Chrome_WidgetWin_0"@ {
            NoActivateChildPolicy::SubclassAndStyle(NoActivateChildKind::ChromiumHost)
        } else {
            NoActivateChildPolicy::SubclassOnly
        },
{
    if process_id != root_process_id || thread_id != root_thread_id {
        return NoActivateChildPolicy::SkipDifferentIdentity;
    }
    if str_equal(class_name, "WRY_WEBVIEW") {
        NoActivateChildPolicy::SubclassAndStyle(NoActivateChildKind::WryWebview)
    } else if str_equal(class_name, "Chrome_WidgetWin_0") {
        NoActivateChildPolicy::SubclassAndStyle(NoActivateChildKind::ChromiumHost)
    } else {
        NoActivateChildPolicy::SubclassOnly
    }
}

/// The top-level popup must be subclassed; failing that is fatal.
pub fn require_top_level_subclass(installed: bool) -> (result: Result<(), ClipboardSurfaceWindowError>)
    ensures
        result is Ok <==> installed,
        !installed ==> result == Err::<(), ClipboardSurfaceWindowError>(
            ClipboardSurfaceWindowError::WindowsApi("SetWindowSubclass(top-level no activate)"),
        ),
{
    if installed {
        Ok(())
    } else {
        Err(ClipboardSurfaceWindowError::WindowsApi("SetWindowSubclass(top-level no activate)"))
    }
}

} // verus!
