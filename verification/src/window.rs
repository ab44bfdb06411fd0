//! Window placement arithmetic. The window system itself — querying the
//! window under the cursor, moving and showing windows — is an external
//! collaborator; only the computation of where the history window should
//! go is the crate's own, so only it is stated and proved here.

use vstd::prelude::*;

verus! {

/// The top-left position that centers a window of size `win_w` by `win_h`
/// on the midpoint of the given rectangle (the window under the cursor).
pub fn centered_in_rect(
    rect_x: i32,
    rect_y: i32,
    rect_w: i32,
    rect_h: i32,
    win_w: u32,
    win_h: u32,
) -> (r: (i64, i64))
    requires
        rect_w >= 0,
        rect_h >= 0,
    ensures
        r.0 == rect_x + rect_w / 2 - win_w / 2,
        r.1 == rect_y + rect_h / 2 - win_h / 2,
{
    let cx: i64 = rect_x as i64 + (rect_w as i64) / 2;
    let cy: i64 = rect_y as i64 + (rect_h as i64) / 2;
    (cx - (win_w as i64) / 2, cy - (win_h as i64) / 2)
}

/// The top-left position that centers a window of size `win_w` by `win_h`
/// on a screen of size `screen_w` by `screen_h`; negative when the window
/// is larger than the screen, as the fallback centering computes it.
pub fn centered_on_screen(screen_w: u32, screen_h: u32, win_w: u32, win_h: u32) -> (r: (i64, i64))
    ensures
        win_w <= screen_w ==> r.0 == (screen_w - win_w) / 2,
        win_w > screen_w ==> r.0 == -((win_w - screen_w) / 2int),
        win_h <= screen_h ==> r.1 == (screen_h - win_h) / 2,
        win_h > screen_h ==> r.1 == -((win_h - screen_h) / 2int),
{
    let x: i64 = if win_w <= screen_w {
        ((screen_w - win_w) / 2) as i64
    } else {
        -(((win_w - screen_w) / 2) as i64)
    };
    let y: i64 = if win_h <= screen_h {
        ((screen_h - win_h) / 2) as i64
    } else {
        -(((win_h - screen_h) / 2) as i64)
    };
    (x, y)
}

} // verus!
