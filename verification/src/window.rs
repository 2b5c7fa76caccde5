//! Finding the HUD monitor (1424x280) and the decisions made when the
//! dashboard window is moved onto it.
use vstd::prelude::*;

verus! {

/// Width in physical pixels of the HUD monitor.
pub const HUD_W: i32 = 1424;

/// Height in physical pixels of the HUD monitor.
pub const HUD_H: i32 = 280;

/// The `WS_EX_TOOLWINDOW` extended window style: no taskbar button.
pub const WS_EX_TOOLWINDOW: isize = 0x80;

/// The `WS_EX_APPWINDOW` extended window style: forces a taskbar button.
pub const WS_EX_APPWINDOW: isize = 0x40000;

/// A monitor's rectangle in physical pixels, as the system reports it.
#[derive(Clone, Copy)]
pub struct MonitorRect {
    pub left: i32,
    pub top: i32,
    pub right: i32,
    pub bottom: i32,
}

/// The monitor has the HUD's size.
pub open spec fn is_hud(r: MonitorRect) -> bool {
    r.right - r.left == HUD_W && r.bottom - r.top == HUD_H
}

/// The size test can be made in 32-bit arithmetic: the width fits, and so
/// does the height wherever the width is the HUD's.
pub open spec fn size_computable(r: MonitorRect) -> bool {
    &&& i32::MIN <= r.right - r.left <= i32::MAX
    &&& r.right - r.left == HUD_W ==> i32::MIN <= r.bottom - r.top <= i32::MAX
}

/// Whether the size test of a monitor can be made in 32-bit arithmetic.
pub fn size_computable_rect(r: &MonitorRect) -> (b: bool)
    ensures
        b == size_computable(*r),
{
    let w = r.right as i64 - r.left as i64;
    let h = r.bottom as i64 - r.top as i64;
    let w_fits = i32::MIN as i64 <= w && w <= i32::MAX as i64;
    let h_fits = i32::MIN as i64 <= h && h <= i32::MAX as i64;
    w_fits && (w != HUD_W as i64 || h_fits)
}

/// The last monitor of `ms` with the HUD's size, if any: each match found
/// while enumerating replaces the previous one.
pub open spec fn last_hud(ms: Seq<MonitorRect>) -> Option<MonitorRect>
    decreases ms.len(),
{
    if ms.len() == 0 {
        None
    } else if is_hud(ms.last()) {
        Some(ms.last())
    } else {
        last_hud(ms.drop_last())
    }
}

/// Whether one monitor has the HUD's size.
pub fn is_hud_size(r: &MonitorRect) -> (b: bool)
    requires
        size_computable(*r),
    ensures
        b == is_hud(*r),
{
    r.right - r.left == HUD_W && r.bottom - r.top == HUD_H
}

/// The HUD monitor among the monitors in enumeration order: the last one
/// with the HUD's size.
pub fn find_hud(monitors: &Vec<MonitorRect>) -> (res: Option<MonitorRect>)
    requires
        forall|i: int| 0 <= i < monitors@.len() ==> size_computable(#[trigger] monitors@[i]),
    ensures
        res == last_hud(monitors@),
{
    let mut found: Option<MonitorRect> = None;
    let n = monitors.len();
    for i in 0..n
        invariant
            n == monitors@.len(),
            forall|k: int| 0 <= k < monitors@.len() ==> size_computable(#[trigger] monitors@[k]),
            found == last_hud(monitors@.take(i as int)),
    {
        assert(monitors@.take(i + 1).drop_last() =~= monitors@.take(i as int));
        if is_hud_size(&monitors[i]) {
            found = Some(monitors[i]);
        }
    }
    assert(monitors@.take(n as int) =~= monitors@);
    found
}

/// Whether a HUD monitor is present.
pub fn has_hud(monitors: &Vec<MonitorRect>) -> (b: bool)
    requires
        forall|i: int| 0 <= i < monitors@.len() ==> size_computable(#[trigger] monitors@[i]),
    ensures
        b == last_hud(monitors@) is Some,
{
    find_hud(monitors).is_some()
}

/// The physical `(x, y, w, h)` of a monitor whose size is the HUD's.
pub open spec fn physical(r: MonitorRect) -> (i32, i32, i32, i32) {
    (r.left, r.top, (r.right - r.left) as i32, (r.bottom - r.top) as i32)
}

/// The physical `(x, y, w, h)` of the HUD monitor, if present.
pub fn hud_physical(monitors: &Vec<MonitorRect>) -> (res: Option<(i32, i32, i32, i32)>)
    requires
        forall|i: int| 0 <= i < monitors@.len() ==> size_computable(#[trigger] monitors@[i]),
    ensures
        res == match last_hud(monitors@) {
            Some(r) => Some(physical(r)),
            None => None,
        },
        res matches Some(p) ==> p.2 == HUD_W && p.3 == HUD_H,
{
    proof {
        lemma_last_hud_is_hud(monitors@);
    }
    match find_hud(monitors) {
        Some(r) => Some((r.left, r.top, r.right - r.left, r.bottom - r.top)),
        None => None,
    }
}

/// The monitor found has the HUD's size and is one of those enumerated.
pub proof fn lemma_last_hud_is_hud(ms: Seq<MonitorRect>)
    ensures
        last_hud(ms) matches Some(r) ==> is_hud(r) && ms.contains(r),
        last_hud(ms) is None <==> forall|i: int| 0 <= i < ms.len() ==> !is_hud(#[trigger] ms[i]),
    decreases ms.len(),
{
    if ms.len() > 0 {
        let t = ms.drop_last();
        lemma_last_hud_is_hud(t);
        if is_hud(ms.last()) {
            assert(ms[ms.len() - 1] == ms.last());
        } else {
            match last_hud(t) {
                Some(r) => {
                    let k = choose|k: int| 0 <= k < t.len() && t[k] == r;
                    assert(ms[k] == r);
                },
                None => {},
            }
            assert forall|i: int| 0 <= i < ms.len() && last_hud(t) is None implies !is_hud(#[trigger] ms[i]) by {
                if i < t.len() {
                    assert(ms[i] == t[i]);
                }
            }
        }
    }
}

/// The window to move onto the HUD, and where.
pub struct WindowPlacement {
    /// The window handle, never null.
    pub window: usize,
    pub x: i32,
    pub y: i32,
    pub w: i32,
    pub h: i32,
}

/// Which window to move onto the HUD at `(x, y, w, h)`: the one found by
/// the dashboard's title, else the foreground window; nothing when that
/// handle is null (0).
pub fn place_window(x: i32, y: i32, w: i32, h: i32, by_title: Option<usize>, foreground: usize) -> (res: Option<WindowPlacement>)
    ensures
        ({
            let target = match by_title {
                Some(t) => t,
                None => foreground,
            };
            if target == 0 {
                res is None
            } else {
                res == Some(WindowPlacement { window: target, x, y, w, h })
            }
        }),
{
    let target = match by_title {
        Some(t) => t,
        None => foreground,
    };
    if target == 0 {
        None
    } else {
        Some(WindowPlacement { window: target, x, y, w, h })
    }
}

/// The extended style that keeps the window off the taskbar and Alt+Tab:
/// `WS_EX_TOOLWINDOW` set, `WS_EX_APPWINDOW` cleared, every other bit as
/// it was.
pub fn tool_window_style(ex: isize) -> (res: isize)
    ensures
        res & WS_EX_TOOLWINDOW == WS_EX_TOOLWINDOW,
        res & WS_EX_APPWINDOW == 0,
        res & !(WS_EX_TOOLWINDOW | WS_EX_APPWINDOW) == ex & !(WS_EX_TOOLWINDOW | WS_EX_APPWINDOW),
{
    let res = (ex | WS_EX_TOOLWINDOW) & !WS_EX_APPWINDOW;
    assert(res & 0x80 == 0x80 && res & 0x40000 == 0 && res & !(0x80isize | 0x40000isize) == ex & !(0x80isize | 0x40000isize)) by (bit_vector)
        requires
            res == (ex | 0x80) & !0x40000isize,
    ;
    res
}

/// Whether the console window is to be hidden: only when there is one
/// (its handle is not null).
pub fn hide_console(console: usize) -> (hide: bool)
    ensures
        hide == (console != 0),
{
    console != 0
}


proof fn lemma_last_hud_is_last(ms: Seq<MonitorRect>)
    ensures
        last_hud(ms) matches Some(r) ==> exists|k: int|
            0 <= k < ms.len() && ms[k] == r && forall|j: int| k < j < ms.len() ==> !is_hud(#[trigger] ms[j]),
    decreases ms.len(),
{
    if ms.len() > 0 {
        let t = ms.drop_last();
        lemma_last_hud_is_last(t);
        let n = ms.len() - 1;
        if is_hud(ms.last()) {
            assert(ms[n] == ms.last());
        } else {
            match last_hud(t) {
                Some(r) => {
                    let k = choose|k: int|
                        0 <= k < t.len() && t[k] == r && forall|j: int| k < j < t.len() ==> !is_hud(#[trigger] t[j]);
                    assert(ms[k] == r);
                    assert forall|j: int| k < j < ms.len() implies !is_hud(#[trigger] ms[j]) by {
                        if j < n {
                            assert(ms[j] == t[j]);
                        }
                    }
                },
                None => {},
            }
        }
    }
}

/// A monitor is the HUD exactly when it is 1424 pixels wide and 280 high,
/// wherever it stands: the HUD is found exactly when some enumerated monitor
/// has that size, no later monitor than the one found has that size, and
/// its physical rectangle is its own position with that size.
pub proof fn lemma_hud_by_size(ms: Seq<MonitorRect>)
    ensures
        (last_hud(ms) is Some) <==> exists|i: int|
            0 <= i < ms.len() && (#[trigger] ms[i]).right - ms[i].left == 1424 && ms[i].bottom - ms[i].top == 280,
        forall|i: int|
            0 <= i < ms.len() && (#[trigger] ms[i]).right - ms[i].left == 1424 && ms[i].bottom - ms[i].top == 280
                ==> (last_hud(ms) matches Some(r) && (exists|k: int| i <= k < ms.len() && ms[k] == r)),
        last_hud(ms) matches Some(r) ==> physical(r) == (r.left, r.top, 1424i32, 280i32)
            && r.right - r.left == 1424 && r.bottom - r.top == 280,
{
    lemma_last_hud_is_hud(ms);
    lemma_last_hud_is_last(ms);
    if exists|i: int| 0 <= i < ms.len() && (#[trigger] ms[i]).right - ms[i].left == 1424 && ms[i].bottom - ms[i].top == 280 {
        let i = choose|i: int| 0 <= i < ms.len() && (#[trigger] ms[i]).right - ms[i].left == 1424 && ms[i].bottom - ms[i].top == 280;
        assert(is_hud(ms[i]));
    }
    assert forall|i: int|
        0 <= i < ms.len() && (#[trigger] ms[i]).right - ms[i].left == 1424 && ms[i].bottom - ms[i].top == 280
            implies (last_hud(ms) matches Some(r) && (exists|k: int| i <= k < ms.len() && ms[k] == r)) by {
        assert(is_hud(ms[i]));
        let r = last_hud(ms)->0;
        let k = choose|k: int|
            0 <= k < ms.len() && ms[k] == r && forall|j: int| k < j < ms.len() ==> !is_hud(#[trigger] ms[j]);
        assert(i <= k);
    }
}

} // verus!
