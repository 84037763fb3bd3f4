//! Colour picker: session state, HEX formatting and capture bookkeeping.
use vstd::prelude::*;

use crate::codec::{
    base64_encodable_len, base64_encode, encode_base64, encode_rgba_image, encoded_rgba_image,
    ImageFormatKind, RgbaEncodeError,
};
use crate::text::{
    decimal, has_prefix, hex_byte, hex_digit_char, is_err_with, joined, owned, push_decimal, push_hex_byte,
};

verus! {

broadcast use vstd::string::group_string_axioms;

/// Largest magnifier radius (a 17×17 grid in the front end).
pub const MAX_RADIUS: u8 = 8;

/// The raw pixels of one capture and where it sits on the virtual desktop.
#[derive(Clone, Debug)]
pub struct ScreenCapture {
    pub origin_x: i32,
    pub origin_y: i32,
    pub width: u32,
    pub height: u32,
    /// RGBA pixels, row-major, 4 bytes per pixel.
    pub rgba: Vec<u8>,
}

/// What an active session keeps: the magnifier radius.
#[derive(Clone, Debug)]
pub struct PickerSession {
    pub radius: u8,
}

/// Window geometry saved before the picker lays out the main window.
#[derive(Clone, Debug)]
pub struct SavedWindowLayout {
    pub x: i32,
    pub y: i32,
    pub width: u32,
    pub height: u32,
    pub resizable: bool,
    pub fullscreen: bool,
}

/// The options an outside entry (the tray) queues for the picker page to start
/// with; an option left `None` takes `start_picker`'s default.
#[derive(Clone, Debug)]
pub struct PickerLaunchConfig {
    pub radius: Option<u8>,
    pub hide_app: Option<bool>,
    pub monitor_index: Option<u32>,
    pub capture_all: Option<bool>,
}

impl PickerLaunchConfig {
    /// What the tray's entry queues: every option at its default.
    pub fn tray_default() -> (c: PickerLaunchConfig)
        ensures
            c.radius is None,
            c.hide_app is None,
            c.monitor_index is None,
            c.capture_all is None,
    {
        PickerLaunchConfig { radius: None, hide_app: None, monitor_index: None, capture_all: None }
    }
}

/// The picker state the application keeps.
#[derive(Debug)]
pub struct PickerState {
    pub is_active: bool,
    pub session: Option<PickerSession>,
    pub saved_layout: Option<SavedWindowLayout>,
    /// A start queued by an outside entry, until the picker page takes it.
    pub pending_launch: Option<PickerLaunchConfig>,
}

/// One display the picker can capture.
#[derive(Clone, Debug)]
pub struct MonitorInfo {
    pub index: u32,
    pub label: String,
    pub x: i32,
    pub y: i32,
    pub width: u32,
    pub height: u32,
    pub is_primary: bool,
}

/// What `start_picker` / `refresh_picker` hand to the front end.
#[derive(Clone, Debug)]
pub struct StartPickerResult {
    pub image_base64: String,
    pub width: u32,
    pub height: u32,
    pub origin_x: i32,
    pub origin_y: i32,
    pub radius: u8,
    pub monitor_index: u32,
    pub monitor_label: String,
    pub capture_all: bool,
}

/// What `finish_picker` answers: whether a HEX colour was copied, and which.
#[derive(Clone, Debug)]
pub struct FinishPickerResult {
    pub copied: bool,
    pub hex: Option<String>,
}

impl PickerState {
    /// No session, nothing saved, no start queued.
    pub fn new() -> (s: PickerState)
        ensures
            !s.is_active,
            s.session is None,
            s.saved_layout is None,
            s.pending_launch is None,
    {
        PickerState { is_active: false, session: None, saved_layout: None, pending_launch: None }
    }
}

impl Default for PickerState {
    /// No session, nothing saved, no start queued.
    fn default() -> (s: PickerState)
        ensures
            !s.is_active,
            s.session is None,
            s.saved_layout is None,
            s.pending_launch is None,
    {
        PickerState::new()
    }
}

/// Queues `config` for the picker page to start with, replacing a queued one.
pub fn prepare_picker_launch(state: &mut PickerState, config: PickerLaunchConfig) -> (r: Result<
    (),
    String,
>)
    ensures
        r is Ok,
        final(state).pending_launch == Some(config),
        final(state).is_active == old(state).is_active,
        final(state).session == old(state).session,
        final(state).saved_layout == old(state).saved_layout,
{
    state.pending_launch = Some(config);
    Ok(())
}

/// Hands over the queued start, if any, and clears it.
pub fn take_picker_launch(state: &mut PickerState) -> (r: Result<Option<PickerLaunchConfig>, String>)
    ensures
        r == Ok::<Option<PickerLaunchConfig>, String>(old(state).pending_launch),
        final(state).pending_launch is None,
        final(state).is_active == old(state).is_active,
        final(state).session == old(state).session,
        final(state).saved_layout == old(state).saved_layout,
{
    Ok(state.pending_launch.take())
}

// ---------------------------------------------------------------------------
// HEX colours
// ---------------------------------------------------------------------------
/// `#rrggbb` in lower-case hexadecimal.
pub open spec fn hex_color(r: u8, g: u8, b: u8) -> Seq<char> {
    "#"@ + hex_byte(r) + hex_byte(g) + hex_byte(b)
}

/// Formats RGB components as a lower-case `#rrggbb` string.
pub fn rgb_to_hex(r: u8, g: u8, b: u8) -> (s: String)
    ensures
        s@ == hex_color(r, g, b),
{
    let mut s = owned("#");
    push_hex_byte(&mut s, r);
    push_hex_byte(&mut s, g);
    push_hex_byte(&mut s, b);
    s
}

proof fn lemma_hex_digit_injective(a: nat, b: nat)
    requires
        a < 16,
        b < 16,
        hex_digit_char(a) == hex_digit_char(b),
    ensures
        a == b,
{
    let ca = if a < 10 {
        a + 48
    } else {
        a + 87
    };
    let cb = if b < 10 {
        b + 48
    } else {
        b + 87
    };
    assert(hex_digit_char(a) as int == ca);
    assert(hex_digit_char(b) as int == cb);
}

/// A colour is named by seven characters, `#` and six hexadecimal digits, and
/// different colours get different names.
pub proof fn lemma_hex_color_names(r: u8, g: u8, b: u8, r2: u8, g2: u8, b2: u8)
    ensures
        hex_color(r, g, b).len() == 7,
        hex_color(r, g, b)[0] == '#',
        hex_color(r, g, b) == hex_color(r2, g2, b2) ==> r == r2 && g == g2 && b == b2,
{
    reveal_strlit("#");
    let h = hex_color(r, g, b);
    let h2 = hex_color(r2, g2, b2);
    if h == h2 {
        assert(h[1] == h2[1] && h[2] == h2[2] && h[3] == h2[3] && h[4] == h2[4] && h[5] == h2[5]
            && h[6] == h2[6]);
        lemma_hex_digit_injective((r / 16) as nat, (r2 / 16) as nat);
        lemma_hex_digit_injective((r % 16) as nat, (r2 % 16) as nat);
        lemma_hex_digit_injective((g / 16) as nat, (g2 / 16) as nat);
        lemma_hex_digit_injective((g % 16) as nat, (g2 % 16) as nat);
        lemma_hex_digit_injective((b / 16) as nat, (b2 / 16) as nat);
        lemma_hex_digit_injective((b % 16) as nat, (b2 % 16) as nat);
    }
}

// ---------------------------------------------------------------------------
// Clipboard (arboard)
// ---------------------------------------------------------------------------
/// Declares `arboard::Clipboard`, carried opaque from `open_clipboard` to
/// `clipboard_set_text`.
#[verifier::external_type_specification]
#[verifier::external_body]
pub struct ExClipboard(arboard::Clipboard);

/// Calls `arboard::Clipboard::new`. Whether a clipboard is available depends on
/// the desktop session, so nothing is stated of the outcome; an error carries
/// the crate's error text.
#[verifier::external_body]
fn open_clipboard() -> (r: Result<arboard::Clipboard, String>) {
    arboard::Clipboard::new().map_err(|e| e.to_string())
}

/// Calls `arboard::Clipboard::set_text` with `text`. Whether the desktop accepts
/// it is not stated; an error carries the crate's error text.
#[verifier::external_body]
fn clipboard_set_text(clipboard: &mut arboard::Clipboard, text: &str) -> (r: Result<(), String>) {
    clipboard.set_text(text).map_err(|e| e.to_string())
}

/// The prefix of the message when no clipboard is available.
pub open spec fn no_clipboard_prefix() -> Seq<char> {
    "剪贴板不可用: "@
}

/// The prefix of the message when the clipboard refuses the text.
pub open spec fn copy_failed_prefix() -> Seq<char> {
    "复制失败: "@
}

/// Puts `text` on the system clipboard; a failure says whether no clipboard was
/// available or it refused the text. Whether it succeeds is decided by the
/// desktop session alone, so the contract allows either outcome.
fn copy_to_clipboard(text: &str) -> (r: Result<(), String>)
    ensures
        r matches Err(e) ==> has_prefix(e@, no_clipboard_prefix()) || has_prefix(
            e@,
            copy_failed_prefix(),
        ),
{
    let mut clipboard = match open_clipboard() {
        Ok(c) => c,
        Err(e) => {
            let m = joined("剪贴板不可用: ", e.as_str());
            assert(m@.take(no_clipboard_prefix().len() as int) =~= no_clipboard_prefix());
            return Err(m);
        },
    };
    match clipboard_set_text(&mut clipboard, text) {
        Ok(()) => Ok(()),
        Err(e) => {
            let m = joined("复制失败: ", e.as_str());
            assert(m@.take(copy_failed_prefix().len() as int) =~= copy_failed_prefix());
            Err(m)
        },
    }
}

// ---------------------------------------------------------------------------
// Session transitions
// ---------------------------------------------------------------------------
/// The message when confirming without all three colour components.
pub open spec fn missing_components_message() -> Seq<char> {
    "缺少颜色分量"@
}

/// Ends a confirmed session once the colour `hex` was offered to the clipboard:
/// when copying succeeded the picker becomes inactive and reports the colour;
/// when it failed, the error is passed on and the picker stays active.
pub fn finish_after_copy(state: &mut PickerState, hex: String, copy: Result<(), String>) -> (res:
    Result<FinishPickerResult, String>)
    ensures
        final(state).session == old(state).session,
        final(state).saved_layout == old(state).saved_layout,
        match copy {
            Ok(()) => (res matches Ok(f) && f.copied && (f.hex matches Some(h) && h@ == hex@))
                && !final(state).is_active,
            Err(e) => (res matches Err(m) && m@ == e@) && final(state).is_active
                == old(state).is_active,
        },
{
    match copy {
        Ok(()) => {
            state.is_active = false;
            Ok(FinishPickerResult { copied: true, hex: Some(hex) })
        },
        Err(e) => Err(e),
    }
}

/// Ends a session. Inactive: nothing changes, nothing is copied. Confirming
/// (`cancel` false) needs all of `r`, `g`, `b`, else an error and no change.
/// Otherwise the session is dropped; a confirmed colour is copied to the
/// clipboard as `#rrggbb`, and the picker becomes inactive once that succeeded.
pub fn finish_picker_state(
    state: &mut PickerState,
    cancel: bool,
    r: Option<u8>,
    g: Option<u8>,
    b: Option<u8>,
) -> (res: Result<FinishPickerResult, String>)
    ensures
        !old(state).is_active ==> (res matches Ok(f) && !f.copied && f.hex is None && *final(state)
            == *old(state)),
        old(state).is_active && !cancel && (r is None || g is None || b is None) ==> is_err_with(
            res,
            missing_components_message(),
        ) && *final(state) == *old(state),
        old(state).is_active && cancel ==> (res matches Ok(f) && !f.copied && f.hex is None
            && !final(state).is_active && final(state).session is None),
        old(state).is_active && !cancel && r is Some && g is Some && b is Some ==> {
            &&& final(state).session is None
            &&& final(state).saved_layout == old(state).saved_layout
            &&& match res {
                Ok(f) => f.copied && !final(state).is_active && (f.hex matches Some(h) && h@
                    == hex_color(r->0, g->0, b->0)),
                Err(e) => final(state).is_active && (has_prefix(e@, no_clipboard_prefix())
                    || has_prefix(e@, copy_failed_prefix())),
            }
        },
        final(state).saved_layout == old(state).saved_layout,
{
    if !state.is_active {
        return Ok(FinishPickerResult { copied: false, hex: None });
    }
    if !cancel && (r.is_none() || g.is_none() || b.is_none()) {
        return Err(owned("缺少颜色分量"));
    }
    state.session = None;
    if !cancel {
        match (r, g, b) {
            (Some(r), Some(g), Some(b)) => {
                let h = rgb_to_hex(r, g, b);
                let copy = copy_to_clipboard(h.as_str());
                return finish_after_copy(state, h, copy);
            },
            _ => {},
        }
    }
    state.is_active = false;
    Ok(FinishPickerResult { copied: false, hex: None })
}

/// The options of a capture request, with the picker's defaults filled in.
#[derive(Debug)]
pub struct PickerOptions {
    pub radius: u8,
    pub hide_app: bool,
    pub monitor_index: u32,
    pub capture_all: bool,
}

/// `x` clamped to `MAX_RADIUS`.
pub open spec fn clamp_radius(x: u8) -> u8 {
    if x < MAX_RADIUS {
        x
    } else {
        MAX_RADIUS
    }
}

/// The options `start_picker` uses: radius 0, hiding the app, monitor 0 and a
/// single monitor unless given; the radius clamped to `MAX_RADIUS`.
pub fn start_options(
    radius: Option<u8>,
    hide_app: Option<bool>,
    monitor_index: Option<u32>,
    capture_all: Option<bool>,
) -> (o: PickerOptions)
    ensures
        o.radius == clamp_radius(
            match radius {
                Some(x) => x,
                None => 0,
            },
        ),
        o.hide_app == match hide_app {
            Some(h) => h,
            None => true,
        },
        o.monitor_index == match monitor_index {
            Some(i) => i,
            None => 0,
        },
        o.capture_all == match capture_all {
            Some(c) => c,
            None => false,
        },
{
    let r = match radius {
        Some(x) => x,
        None => 0,
    };
    PickerOptions {
        radius: if r < MAX_RADIUS {
            r
        } else {
            MAX_RADIUS
        },
        hide_app: match hide_app {
            Some(h) => h,
            None => true,
        },
        monitor_index: match monitor_index {
            Some(i) => i,
            None => 0,
        },
        capture_all: match capture_all {
            Some(c) => c,
            None => false,
        },
    }
}

impl PickerState {
    /// A new session may start only when none is active.
    pub fn check_can_start(&self) -> (r: Result<(), String>)
        ensures
            r is Ok <==> !self.is_active,
            self.is_active ==> is_err_with(r, "取色已在进行中"@),
    {
        if self.is_active {
            Err(owned("取色已在进行中"))
        } else {
            Ok(())
        }
    }

    /// The radius a refresh uses: the requested one, else the session's, clamped.
    /// Fails when no session is active.
    pub fn refresh_radius(&self, radius: Option<u8>) -> (r: Result<u8, String>)
        ensures
            !self.is_active ==> is_err_with(r, "取色未开始"@),
            self.is_active && self.session is None ==> is_err_with(r, "取色会话无效"@),
            self.is_active ==> (self.session matches Some(s) ==> r == Ok::<u8, String>(
                clamp_radius(
                    match radius {
                        Some(x) => x,
                        None => s.radius,
                    },
                ),
            )),
    {
        if !self.is_active {
            return Err(owned("取色未开始"));
        }
        let session_radius = match &self.session {
            Some(s) => s.radius,
            None => {
                return Err(owned("取色会话无效"));
            },
        };
        let x = match radius {
            Some(x) => x,
            None => session_radius,
        };
        Ok(
            if x < MAX_RADIUS {
                x
            } else {
                MAX_RADIUS
            },
        )
    }

    /// Records the session of a successful capture.
    pub fn record_session(&mut self, radius: u8)
        ensures
            final(self).session == Some(PickerSession { radius }),
            final(self).is_active == old(self).is_active,
            final(self).saved_layout == old(self).saved_layout,
    {
        self.session = Some(PickerSession { radius });
    }

    /// Marks the picker active.
    pub fn activate(&mut self)
        ensures
            final(self).is_active,
            final(self).session == old(self).session,
            final(self).saved_layout == old(self).saved_layout,
    {
        self.is_active = true;
    }

    /// The step after a capture was applied (its result built and the window laid
    /// out): a successful one records the session's radius and, when it starts
    /// the session (`starting`), marks the picker active; a failed one changes
    /// nothing. The outcome is passed on.
    pub fn complete_capture(
        &mut self,
        radius: u8,
        starting: bool,
        outcome: Result<StartPickerResult, String>,
    ) -> (r: Result<StartPickerResult, String>)
        ensures
            r == outcome,
            final(self).saved_layout == old(self).saved_layout,
            outcome is Ok ==> final(self).session == Some(PickerSession { radius })
                && final(self).is_active == (starting || old(self).is_active),
            outcome is Err ==> final(self).session == old(self).session && final(self).is_active
                == old(self).is_active,
    {
        if outcome.is_ok() {
            self.record_session(radius);
            if starting {
                self.activate();
            }
        }
        outcome
    }

    /// Saves the window geometry unless one is saved already.
    pub fn save_layout_if_absent(&mut self, layout: SavedWindowLayout)
        ensures
            final(self).saved_layout == match old(self).saved_layout {
                Some(l) => Some(l),
                None => Some(layout),
            },
            final(self).is_active == old(self).is_active,
            final(self).session == old(self).session,
    {
        if self.saved_layout.is_none() {
            self.saved_layout = Some(layout);
        }
    }

    /// Takes the saved window geometry, leaving none.
    pub fn take_saved_layout(&mut self) -> (l: Option<SavedWindowLayout>)
        ensures
            l == old(self).saved_layout,
            final(self).saved_layout is None,
            final(self).is_active == old(self).is_active,
            final(self).session == old(self).session,
    {
        self.saved_layout.take()
    }
}

// ---------------------------------------------------------------------------
// Captures
// ---------------------------------------------------------------------------
/// One capture and what the front end shows about it.
#[derive(Debug)]
pub struct CaptureSnapshot {
    pub capture: ScreenCapture,
    pub monitor_index: u32,
    pub monitor_label: String,
    pub capture_all: bool,
}

/// The message for a monitor index that does not exist.
pub open spec fn no_such_monitor_message(index: u32) -> Seq<char> {
    "显示器 "@ + decimal(index as nat) + " 不存在"@
}

/// Chooses what to capture: `Ok(None)` for the whole virtual desktop, else the
/// position of the monitor to capture. Fails when there are no monitors, or
/// when a single monitor is asked for that does not exist.
pub fn select_capture(monitors: &Vec<MonitorInfo>, monitor_index: u32, capture_all: bool) -> (r:
    Result<Option<usize>, String>)
    ensures
        monitors.len() == 0 ==> is_err_with(r, "未检测到可用显示器"@),
        monitors.len() > 0 && capture_all ==> r == Ok::<Option<usize>, String>(None),
        monitors.len() > 0 && !capture_all && monitor_index >= monitors.len() ==> is_err_with(
            r,
            no_such_monitor_message(monitor_index),
        ),
        monitors.len() > 0 && !capture_all && monitor_index < monitors.len() ==> r == Ok::<
            Option<usize>,
            String,
        >(Some(monitor_index as usize)),
{
    if monitors.len() == 0 {
        return Err(owned("未检测到可用显示器"));
    }
    if capture_all {
        return Ok(None);
    }
    if monitor_index as usize >= monitors.len() {
        let mut m = owned("显示器 ");
        push_decimal(&mut m, monitor_index as u64);
        m.append(" 不存在");
        return Err(m);
    }
    Ok(Some(monitor_index as usize))
}

/// The label of a whole-desktop capture: `全部屏幕 · <w>×<h>`.
pub open spec fn virtual_desktop_label(width: u32, height: u32) -> Seq<char> {
    "全部屏幕 · "@ + decimal(width as nat) + "×"@ + decimal(height as nat)
}

/// The snapshot of a whole-desktop capture (monitor index `u32::MAX`).
pub fn virtual_desktop_snapshot(capture: ScreenCapture) -> (s: CaptureSnapshot)
    ensures
        s.capture == capture,
        s.monitor_index == u32::MAX,
        s.monitor_label@ == virtual_desktop_label(capture.width, capture.height),
        s.capture_all,
{
    let mut label = owned("全部屏幕 · ");
    push_decimal(&mut label, capture.width as u64);
    label.append("×");
    push_decimal(&mut label, capture.height as u64);
    CaptureSnapshot { capture, monitor_index: u32::MAX, monitor_label: label, capture_all: true }
}

/// The snapshot of a capture of one monitor.
pub fn monitor_snapshot(capture: ScreenCapture, monitor: &MonitorInfo) -> (s: CaptureSnapshot)
    ensures
        s.capture == capture,
        s.monitor_index == monitor.index,
        s.monitor_label@ == monitor.label@,
        !s.capture_all,
{
    CaptureSnapshot {
        capture,
        monitor_index: monitor.index,
        monitor_label: monitor.label.clone(),
        capture_all: false,
    }
}

proof fn lemma_vec_len_encodable(n: nat)
    requires
        n <= isize::MAX,
    ensures
        base64_encodable_len(n),
{
    assert(usize::MAX == 2 * isize::MAX + 1);
    assert((n / 3) * 4 <= n + n / 3 + 1);
}

/// The capture encoded as PNG and then as standard base64; `None` when the PNG
/// encoder refuses it.
pub open spec fn capture_png_base64(capture: ScreenCapture) -> Option<Seq<char>> {
    match encoded_rgba_image(capture.width, capture.height, capture.rgba@, ImageFormatKind::Png) {
        Some(png) => Some(base64_encode(png)),
        None => None,
    }
}

/// The fields of a picker result for `snapshot`, apart from the image.
pub open spec fn result_matches(res: StartPickerResult, snapshot: CaptureSnapshot, radius: u8) -> bool {
    &&& res.width == snapshot.capture.width
    &&& res.height == snapshot.capture.height
    &&& res.origin_x == snapshot.capture.origin_x
    &&& res.origin_y == snapshot.capture.origin_y
    &&& res.radius == radius
    &&& res.monitor_index == snapshot.monitor_index
    &&& res.monitor_label@ == snapshot.monitor_label@
    &&& res.capture_all == snapshot.capture_all
}

/// The prefix of the message when the PNG encoder fails.
pub open spec fn png_failed_prefix() -> Seq<char> {
    "PNG 编码失败: "@
}

/// The base64 text of an encoded PNG; a short pixel buffer or an encoder
/// failure becomes the matching message.
pub fn png_base64_message(png: Result<Vec<u8>, RgbaEncodeError>) -> (r: Result<String, String>)
    requires
        png matches Ok(b) ==> b@.len() <= isize::MAX,
    ensures
        match png {
            Ok(b) => r matches Ok(t) && t@ == base64_encode(b@),
            Err(RgbaEncodeError::BufferTooSmall) => is_err_with(r, "图像缓冲无效"@),
            Err(RgbaEncodeError::Encode(e)) => is_err_with(r, png_failed_prefix() + e@),
        },
{
    match png {
        Ok(png) => {
            proof {
                lemma_vec_len_encodable(png@.len());
            }
            Ok(encode_base64(png.as_slice()))
        },
        Err(RgbaEncodeError::BufferTooSmall) => Err(owned("图像缓冲无效")),
        Err(RgbaEncodeError::Encode(e)) => Err(joined("PNG 编码失败: ", e.as_str())),
    }
}

impl ScreenCapture {
    /// The capture encoded as PNG, as standard base64. Fails when the pixel
    /// buffer is shorter than `4 × width × height` bytes or the encoder refuses
    /// the image; succeeds otherwise.
    pub fn to_png_base64(&self) -> (r: Result<String, String>)
        ensures
            self.rgba@.len() < 4 * self.width * self.height ==> is_err_with(r, "图像缓冲无效"@),
            self.rgba@.len() >= 4 * self.width * self.height ==> match capture_png_base64(*self) {
                Some(text) => r matches Ok(t) && t@ == text,
                None => r matches Err(e) && has_prefix(e@, png_failed_prefix()),
            },
            self.width == 0 || self.height == 0 ==> (r matches Err(e) && has_prefix(
                e@,
                png_failed_prefix(),
            )),
            1 <= self.width <= 0x7fff_ffff && 1 <= self.height <= 0x7fff_ffff && self.rgba@.len()
                >= 4 * self.width * self.height ==> r is Ok,
    {
        let png = encode_rgba_image(self.width, self.height, self.rgba.clone(), ImageFormatKind::Png);
        let ghost pg = png;
        proof {
            if let Err(RgbaEncodeError::Encode(e)) = pg {
                assert((png_failed_prefix() + e@).take(png_failed_prefix().len() as int)
                    =~= png_failed_prefix());
            }
        }
        png_base64_message(png)
    }
}

/// What the front end receives for a snapshot: the capture as PNG base64, its
/// size and origin, the radius and the monitor it shows. Fails when the pixel
/// buffer is shorter than `4 × width × height` bytes or the PNG encoder refuses
/// the image; succeeds otherwise.
pub fn build_picker_result(snapshot: &CaptureSnapshot, radius: u8) -> (r: Result<
    StartPickerResult,
    String,
>)
    ensures
        snapshot.capture.rgba@.len() < 4 * snapshot.capture.width * snapshot.capture.height
            ==> is_err_with(r, "图像缓冲无效"@),
        snapshot.capture.rgba@.len() >= 4 * snapshot.capture.width * snapshot.capture.height
            ==> match capture_png_base64(snapshot.capture) {
            Some(text) => r matches Ok(res) && res.image_base64@ == text && result_matches(
                res,
                *snapshot,
                radius,
            ),
            None => r matches Err(e) && has_prefix(e@, png_failed_prefix()),
        },
        1 <= snapshot.capture.width <= 0x7fff_ffff && 1 <= snapshot.capture.height <= 0x7fff_ffff
            && snapshot.capture.rgba@.len() >= 4 * snapshot.capture.width * snapshot.capture.height
            ==> r is Ok,
{
    let image_base64 = snapshot.capture.to_png_base64()?;
    let capture = &snapshot.capture;
    Ok(
        StartPickerResult {
            image_base64,
            width: capture.width,
            height: capture.height,
            origin_x: capture.origin_x,
            origin_y: capture.origin_y,
            radius,
            monitor_index: snapshot.monitor_index,
            monitor_label: snapshot.monitor_label.clone(),
            capture_all: snapshot.capture_all,
        },
    )
}

} // verus!
