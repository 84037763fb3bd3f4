//! Decisions about the main and tool windows: when a restored geometry is
//! broken, where the default window goes, which monitor a tool window uses,
//! what the tray's toggle item says, what opening a tool does and what closing a
//! window does.
use vstd::prelude::*;

use crate::text::{chars_of, has_prefix, joined, owned, starts_with, str_eq, string_from_chars, sub_chars};
use crate::tools::{route_for, route_of, tool_table, tools};

verus! {

broadcast use vstd::string::group_string_axioms;

/// The main window's width in logical pixels, as configured.
pub const DEFAULT_WINDOW_WIDTH: u32 = 400;

/// The main window's height in logical pixels, as configured.
pub const DEFAULT_WINDOW_HEIGHT: u32 = 500;

/// Below this width a restored main window counts as broken.
pub const MIN_VALID_WIDTH: u32 = 120;

/// Below this height a restored main window counts as broken.
pub const MIN_VALID_HEIGHT: u32 = 120;

/// A restored main window further than this from the origin is off screen.
pub const OFFSCREEN_THRESHOLD: i32 = 8000;

/// The absolute value of `x`.
pub open spec fn abs(x: int) -> int {
    if x < 0 {
        -x
    } else {
        x
    }
}

/// A restored main window at (`x`, `y`) of `width × height` is broken: moved far
/// off screen or shrunk below a usable size.
pub open spec fn geometry_corrupted(x: i32, y: i32, width: u32, height: u32) -> bool {
    abs(x as int) > OFFSCREEN_THRESHOLD || abs(y as int) > OFFSCREEN_THRESHOLD || width
        < MIN_VALID_WIDTH || height < MIN_VALID_HEIGHT
}

/// A window counts as broken exactly when it lies more than the threshold away
/// from the origin on either axis, in either direction, or is narrower or lower
/// than the minimum; so mirroring its position through the origin changes
/// nothing.
pub proof fn lemma_geometry_corrupted_bounds(x: i32, y: i32, width: u32, height: u32)
    requires
        x > i32::MIN,
        y > i32::MIN,
    ensures
        geometry_corrupted(x, y, width, height) <==> (x > 8000 || x < -8000 || y > 8000 || y
            < -8000 || width < 120 || height < 120),
        geometry_corrupted(x, y, width, height) == geometry_corrupted(
            (-x) as i32,
            (-y) as i32,
            width,
            height,
        ),
{
}

/// Whether a restored main window's outer position and size are broken.
pub fn is_geometry_corrupted(x: i32, y: i32, width: u32, height: u32) -> (b: bool)
    requires
        x > i32::MIN,
        y > i32::MIN,
    ensures
        b == geometry_corrupted(x, y, width, height),
        b <==> (x > 8000 || x < -8000 || y > 8000 || y < -8000 || width < 120 || height < 120),
{
    proof {
        lemma_geometry_corrupted_bounds(x, y, width, height);
    }
    let ax = if x < 0 {
        -x
    } else {
        x
    };
    let ay = if y < 0 {
        -y
    } else {
        y
    };
    ax > OFFSCREEN_THRESHOLD || ay > OFFSCREEN_THRESHOLD || width < MIN_VALID_WIDTH || height
        < MIN_VALID_HEIGHT
}

/// `a - b`, or 0 when `b` is larger.
pub open spec fn sat_sub(a: u32, b: u32) -> int {
    if a >= b {
        a - b
    } else {
        0
    }
}

/// The top-left corner that centres a `win_w × win_h` window in the work area
/// at (`work_x`, `work_y`) of `work_w × work_h` (all physical pixels); a window
/// larger than the area sits at its corner.
pub fn centered_origin(
    work_x: i32,
    work_y: i32,
    work_w: u32,
    work_h: u32,
    win_w: u32,
    win_h: u32,
) -> (r: (i32, i32))
    requires
        work_x + sat_sub(work_w, win_w) / 2 <= i32::MAX,
        work_y + sat_sub(work_h, win_h) / 2 <= i32::MAX,
    ensures
        r.0 == work_x + sat_sub(work_w, win_w) / 2,
        r.1 == work_y + sat_sub(work_h, win_h) / 2,
{
    let x = work_x + (work_w.saturating_sub(win_w) / 2) as i32;
    let y = work_y + (work_h.saturating_sub(win_h) / 2) as i32;
    (x, y)
}

/// The area of a `w × h` work area, capped at `u32::MAX`.
pub open spec fn capped_area(a: (u32, u32)) -> int {
    if a.0 * a.1 > u32::MAX {
        u32::MAX as int
    } else {
        a.0 * a.1
    }
}

/// `w × h`, capped at `u32::MAX`.
fn saturating_area(w: u32, h: u32) -> (r: u32)
    ensures
        r == capped_area((w, h)),
{
    assert((w as int) * (h as int) <= (u32::MAX as int) * (u32::MAX as int)) by (nonlinear_arith);
    let p: u64 = (w as u64) * (h as u64);
    if p > u32::MAX as u64 {
        u32::MAX
    } else {
        p as u32
    }
}

/// The monitor a tool window opens on: the one with the largest work area (the
/// last of several equally large), none when there is no monitor.
pub fn largest_work_area(areas: &Vec<(u32, u32)>) -> (r: Option<usize>)
    ensures
        areas@.len() == 0 <==> r is None,
        r matches Some(i) ==> i < areas@.len() && (forall|j: int|
            0 <= j < areas@.len() ==> capped_area(#[trigger] areas@[j]) <= capped_area(
                areas@[i as int],
            )) && (forall|j: int|
            i < j < areas@.len() ==> capped_area(#[trigger] areas@[j]) < capped_area(
                areas@[i as int],
            )),
{
    if areas.len() == 0 {
        return None;
    }
    let mut best: usize = 0;
    let mut best_area: u32 = saturating_area(areas[0].0, areas[0].1);
    let mut i: usize = 1;
    while i < areas.len()
        invariant
            1 <= i <= areas@.len(),
            best < i,
            best_area == capped_area(areas@[best as int]),
            forall|j: int| 0 <= j < i ==> capped_area(#[trigger] areas@[j]) <= best_area,
            forall|j: int| best < j < i ==> capped_area(#[trigger] areas@[j]) < best_area,
        decreases areas@.len() - i,
    {
        let a = saturating_area(areas[i].0, areas[i].1);
        if a >= best_area {
            best = i;
            best_area = a;
        }
        i = i + 1;
    }
    Some(best)
}

/// The tray item that shows or hides the main window.
pub open spec fn toggle_label_text(visible: bool) -> Seq<char> {
    if visible {
        "隐藏窗口"@
    } else {
        "显示窗口"@
    }
}

/// The text of the tray's toggle item: it offers to hide a visible main window
/// and to show a hidden one.
pub fn toggle_label(main_visible: bool) -> (s: &'static str)
    ensures
        s@ == toggle_label_text(main_visible),
{
    if main_visible {
        "隐藏窗口"
    } else {
        "显示窗口"
    }
}

/// What opening a tool from the tray does.
#[derive(Clone, Copy, Debug)]
pub enum ToolAction {
    /// Open the colour picker window directly.
    OpenColorPicker,
    /// Show the main window and send it to this route.
    ShowRoute(&'static str),
    /// Nothing: the tool is not listed.
    Ignore,
}

/// What opening the tool `tool_id` does: the colour picker opens its own
/// window; another listed tool shows the main window at its route.
pub fn tool_action(tool_id: &str) -> (r: ToolAction)
    ensures
        tool_id@ == "color-picker"@ ==> r is OpenColorPicker,
        tool_id@ != "color-picker"@ ==> match route_of(tool_id@) {
            Some(route) => r matches ToolAction::ShowRoute(s) && s@ == route,
            None => r is Ignore,
        },
{
    if str_eq(tool_id, "color-picker") {
        return ToolAction::OpenColorPicker;
    }
    match route_for(tool_id) {
        Some(route) => ToolAction::ShowRoute(route),
        None => ToolAction::Ignore,
    }
}

// ---------------------------------------------------------------------------
// The tray menu
// ---------------------------------------------------------------------------
/// The menu id of the tray item that opens the tool `tool_id`.
pub open spec fn tool_item_id_text(tool_id: Seq<char>) -> Seq<char> {
    "tray-tool-"@ + tool_id
}

/// The menu id of the tray item that opens the tool `tool_id`.
pub fn tool_item_id(tool_id: &str) -> (s: String)
    ensures
        s@ == tool_item_id_text(tool_id@),
{
    joined("tray-tool-", tool_id)
}

/// One entry of the tray menu: an item with its id and label, or a separator.
#[derive(Debug)]
pub enum TrayEntry {
    Item { id: String, label: String },
    Separator,
}

/// The tray menu, top to bottom: `Some((id, label))` for an item, `None` for a
/// separator. The toggle item first offers to show the window, then the reset
/// item, the listed tools in order, about and quit.
pub open spec fn tray_layout() -> Seq<Option<(Seq<char>, Seq<char>)>> {
    seq![
        Some(("tray-toggle"@, toggle_label_text(false))),
        Some(("tray-reset"@, "重置窗口"@)),
        None,
    ] + tool_table().map_values(
        |t: (Seq<char>, Seq<char>, Seq<char>)| Some((tool_item_id_text(t.0), t.1)),
    ) + seq![None, Some(("tray-about"@, "关于"@)), Some(("tray-quit"@, "退出"@))]
}

/// The view of a tray entry.
pub open spec fn entry_view(e: TrayEntry) -> Option<(Seq<char>, Seq<char>)> {
    match e {
        TrayEntry::Item { id, label } => Some((id@, label@)),
        TrayEntry::Separator => None,
    }
}

/// The tray menu's entries, in order (see `tray_layout`).
pub fn tray_menu_layout() -> (r: Vec<TrayEntry>)
    ensures
        r@.len() == tray_layout().len(),
        forall|i: int| 0 <= i < r@.len() ==> entry_view(#[trigger] r@[i]) == tray_layout()[i],
{
    let mut r: Vec<TrayEntry> = Vec::new();
    r.push(TrayEntry::Item { id: owned("tray-toggle"), label: owned(toggle_label(false)) });
    r.push(TrayEntry::Item { id: owned("tray-reset"), label: owned("重置窗口") });
    r.push(TrayEntry::Separator);
    let table = tools();
    let ghost head: Seq<Option<(Seq<char>, Seq<char>)>> = seq![
        Some(("tray-toggle"@, toggle_label_text(false))),
        Some(("tray-reset"@, "重置窗口"@)),
        None,
    ];
    let ghost mid = tool_table().map_values(
        |t: (Seq<char>, Seq<char>, Seq<char>)| Some((tool_item_id_text(t.0), t.1)),
    );
    let mut i: usize = 0;
    while i < table.len()
        invariant
            table@.len() == tool_table().len(),
            forall|j: int|
                0 <= j < table@.len() ==> (#[trigger] table@[j].id@, table@[j].name@, table@[j].route@)
                    == tool_table()[j],
            i <= table@.len(),
            r@.len() == 3 + i,
            forall|j: int| 0 <= j < r@.len() ==> entry_view(#[trigger] r@[j]) == (head + mid)[j],
            head.len() == 3,
            mid.len() == tool_table().len(),
            head == seq![
                Some(("tray-toggle"@, toggle_label_text(false))),
                Some(("tray-reset"@, "重置窗口"@)),
                None::<(Seq<char>, Seq<char>)>,
            ],
            mid == tool_table().map_values(
                |t: (Seq<char>, Seq<char>, Seq<char>)| Some((tool_item_id_text(t.0), t.1)),
            ),
        decreases table@.len() - i,
    {
        assert((table@[i as int].id@, table@[i as int].name@, table@[i as int].route@) == tool_table()[i as int]);
        r.push(TrayEntry::Item { id: tool_item_id(table[i].id), label: owned(table[i].name) });
        i = i + 1;
    }
    r.push(TrayEntry::Separator);
    r.push(TrayEntry::Item { id: owned("tray-about"), label: owned("关于") });
    r.push(TrayEntry::Item { id: owned("tray-quit"), label: owned("退出") });
    r
}

/// What a request to close a window does.
#[derive(Debug)]
pub enum CloseAction {
    /// The window closes.
    Allow,
    /// The active picker session is cancelled, then the window closes.
    CancelPickerAndClose,
    /// The window stays; the active picker session is cancelled.
    CancelPickerAndKeep,
    /// The window is hidden to the tray and stays alive, with the service.
    HideToTray,
}

/// What closing the window labelled `label` does, given whether a picker session
/// is active and whether the picker has a window of its own: the picker and
/// editor windows close (cancelling an active session when it is the picker's
/// window); the main window is never closed: it cancels a session that runs in
/// it, else it hides to the tray; other windows close.
pub fn close_request_action(label: &str, picker_active: bool, dedicated_picker_window: bool) -> (r:
    CloseAction)
    ensures
        label@ == "color-picker"@ ==> if picker_active {
            r is CancelPickerAndClose
        } else {
            r is Allow
        },
        label@ == "image-editor"@ ==> r is Allow,
        label@ == "main"@ ==> if picker_active && !dedicated_picker_window {
            r is CancelPickerAndKeep
        } else {
            r is HideToTray
        },
        label@ != "color-picker"@ && label@ != "image-editor"@ && label@ != "main"@ ==> r is Allow,
{
    proof {
        reveal_strlit("color-picker");
        reveal_strlit("image-editor");
        reveal_strlit("main");
        assert("color-picker"@[0] != "image-editor"@[0]);
        assert("color-picker"@.len() != "main"@.len() && "image-editor"@.len() != "main"@.len());
    }
    let is_picker = str_eq(label, "color-picker");
    if is_picker || str_eq(label, "image-editor") {
        if picker_active && is_picker {
            return CloseAction::CancelPickerAndClose;
        }
        return CloseAction::Allow;
    }
    if !str_eq(label, "main") {
        return CloseAction::Allow;
    }
    if picker_active && !dedicated_picker_window {
        return CloseAction::CancelPickerAndKeep;
    }
    CloseAction::HideToTray
}

/// What choosing a tray menu item does.
#[derive(Debug)]
pub enum TrayAction {
    ToggleMainWindow,
    ResetMainWindow,
    ShowAbout,
    Quit,
    /// Open the tool with this id.
    OpenTool(String),
    Ignore,
}

/// What the tray menu item `id` does.
pub open spec fn tray_action_of(id: Seq<char>) -> Option<Seq<char>> {
    if has_prefix(id, "tray-tool-"@) {
        Some(id.skip("tray-tool-"@.len() as int))
    } else {
        None
    }
}

/// What choosing the tray menu item `id` does: the fixed items by their ids,
/// a `tray-tool-` item opens the tool named after the prefix.
pub fn tray_menu_action(id: &str) -> (r: TrayAction)
    ensures
        id@ == "tray-toggle"@ ==> r is ToggleMainWindow,
        id@ == "tray-reset"@ ==> r is ResetMainWindow,
        id@ == "tray-about"@ ==> r is ShowAbout,
        id@ == "tray-quit"@ ==> r is Quit,
        id@ != "tray-toggle"@ && id@ != "tray-reset"@ && id@ != "tray-about"@ && id@
            != "tray-quit"@ ==> match tray_action_of(id@) {
            Some(t) => r matches TrayAction::OpenTool(s) && s@ == t,
            None => r is Ignore,
        },
{
    proof {
        reveal_strlit("tray-toggle");
        reveal_strlit("tray-reset");
        reveal_strlit("tray-about");
        reveal_strlit("tray-quit");
        assert("tray-reset"@[5] != "tray-about"@[5]);
    }
    if str_eq(id, "tray-toggle") {
        return TrayAction::ToggleMainWindow;
    }
    if str_eq(id, "tray-reset") {
        return TrayAction::ResetMainWindow;
    }
    if str_eq(id, "tray-about") {
        return TrayAction::ShowAbout;
    }
    if str_eq(id, "tray-quit") {
        return TrayAction::Quit;
    }
    let v = chars_of(id);
    let prefix = chars_of("tray-tool-");
    if starts_with(&v, &prefix) {
        let rest = sub_chars(&v, prefix.len(), v.len());
        assert(rest@ =~= v@.skip(prefix@.len() as int));
        return TrayAction::OpenTool(string_from_chars(&rest));
    }
    TrayAction::Ignore
}

/// A tool's tray item leads back to the tool: choosing the item made for
/// `tool_id` opens exactly that tool.
pub proof fn lemma_tool_item_round_trip(tool_id: Seq<char>)
    ensures
        tray_action_of(tool_item_id_text(tool_id)) == Some(tool_id),
{
    let id = tool_item_id_text(tool_id);
    assert(id.take("tray-tool-"@.len() as int) =~= "tray-tool-"@);
    assert(id.skip("tray-tool-"@.len() as int) =~= tool_id);
}

} // verus!
