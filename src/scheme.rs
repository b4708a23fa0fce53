use vstd::prelude::*;
use vstd::string::StringSliceAdditionalSpecFns;
use crate::parse::{field, rest_from, parse_i32_spec, copy_range, parse_i32, first_field, next_field};
use crate::rect::{Rect, all_wf, schedule, schedule_spec, covers};
use crate::window::{Event, Window};
use crate::image::Image;

verus! {

/// Scancode of the modifier key that drives the window-management combos.
pub const K_WIN: u8 = 0x38;
pub const K_ESC: u8 = 0x01;
pub const K_BKSP: u8 = 0x0E;
pub const K_TAB: u8 = 0x0F;

/// Color of the screen where no image covers it.
pub const BACKGROUND_COLOR: u32 = 0xFF00_0000;

/// Background of the window switcher.
pub const BAR_COLOR: u32 = 0xFF29_2E38;
/// Background of the switcher's entry for the focused window.
pub const BAR_HIGHLIGHT_COLOR: u32 = 0xFF5E_81AC;

/// Errors of the handle protocol.
#[derive(Clone, Copy, Debug, PartialEq, Eq, Structural)]
pub enum SchemeError {
    /// A URL or message could not be read, or named an unknown command.
    InvalidArgument,
    /// No window has the given id.
    BadHandle,
    /// A read found no queued event.
    WouldBlock,
}

/// How a background image is fitted to the display.
#[derive(Clone, Copy, Debug, PartialEq, Eq, Structural)]
pub enum BackgroundMode {
    /// Do not resize the image, just center it.
    Center,
    /// Stretch the image to the display size.
    Fill,
    /// Keep the aspect ratio and fit inside the display, leaving blank space.
    Scale,
    /// Keep the aspect ratio and cover the display, cropping the excess.
    Zoom,
}

/// What the pointer is currently dragging.
#[derive(Clone, Copy, Debug, PartialEq, Eq, Structural)]
pub enum DragMode {
    Idle,
    Title(usize, i32, i32),
    RightBorder(usize, i32),
    BottomBorder(usize, i32),
    BottomRightBorder(usize, i32, i32),
}


pub open spec fn mode_spec(b: Seq<u8>) -> BackgroundMode {
    if b == seq![102u8, 105u8, 108u8, 108u8] {
        BackgroundMode::Fill
    } else if b == seq![115u8, 99u8, 97u8, 108u8, 101u8] {
        BackgroundMode::Scale
    } else if b == seq![122u8, 111u8, 111u8, 109u8] {
        BackgroundMode::Zoom
    } else {
        BackgroundMode::Center
    }
}

fn bytes_equal(a: &[u8], b: &[u8]) -> (r: bool)
    ensures
        r == (a@ == b@),
{
    if a.len() != b.len() {
        return false;
    }
    let mut i: usize = 0;
    while i < a.len()
        invariant
            a@.len() == b@.len(),
            i <= a@.len(),
            forall|j: int| 0 <= j < i ==> a@[j] == b@[j],
        decreases a@.len() - i,
    {
        if a[i] != b[i] {
            return false;
        }
        i = i + 1;
    }
    assert(a@ =~= b@);
    true
}

impl BackgroundMode {

    /// The size that an image of `image_width` by `image_height` is resized to
    /// on a `display_width` by `display_height` display.
    pub fn fitted_size(self, display_width: i32, display_height: i32, image_width: i32, image_height: i32) -> (r: (i32, i32))
        requires
            display_width >= 0,
            display_height >= 0,
        ensures
            r.0 as int == fitted_size_spec(self, display_width as int, display_height as int, image_width as int, image_height as int).0,
            r.1 as int == fitted_size_spec(self, display_width as int, display_height as int, image_width as int, image_height as int).1,
    {
        let (dw, dh, iw, ih) = (display_width as i64, display_height as i64, image_width as i64, image_height as i64);
        match self {
            BackgroundMode::Center => (image_width, image_height),
            BackgroundMode::Fill => (display_width, display_height),
            _ => {
                if iw <= 0 || ih <= 0 {
                    return (image_width, image_height);
                }
                proof {
                    assert(0 <= iw * dh <= 0x4000_0000_0000_0000) by (nonlinear_arith)
                        requires 0 < iw < 0x8000_0000, 0 <= dh < 0x8000_0000;
                    assert(0 <= ih * dw <= 0x4000_0000_0000_0000) by (nonlinear_arith)
                        requires 0 < ih < 0x8000_0000, 0 <= dw < 0x8000_0000;
                }
                let wider = dw * ih > iw * dh;
                let scale_mode = match self { BackgroundMode::Scale => true, _ => false };
                if scale_mode == wider {
                    // the height fills the display; the width follows the aspect
                    let w = iw * dh / ih;
                    (if w > i32::MAX as i64 { i32::MAX } else { w as i32 }, display_height)
                } else {
                    let h = ih * dw / iw;
                    (display_width, if h > i32::MAX as i64 { i32::MAX } else { h as i32 })
                }
            },
        }
    }

    /// `fill`, `scale` and `zoom` name their modes; anything else is `Center`.
    pub fn from_str(string: &str) -> (r: BackgroundMode)
        ensures
            r == mode_spec(string.spec_bytes()),
    {
        let b = string.as_bytes();
        let fill: [u8; 4] = [102u8, 105u8, 108u8, 108u8];
        let scale: [u8; 5] = [115u8, 99u8, 97u8, 108u8, 101u8];
        let zoom: [u8; 4] = [122u8, 111u8, 111u8, 109u8];
        if bytes_equal(b, fill.as_slice()) {
            assert(fill@ =~= seq![102u8, 105u8, 108u8, 108u8]);
            BackgroundMode::Fill
        } else if bytes_equal(b, scale.as_slice()) {
            assert(fill@ =~= seq![102u8, 105u8, 108u8, 108u8]);
            assert(scale@ =~= seq![115u8, 99u8, 97u8, 108u8, 101u8]);
            BackgroundMode::Scale
        } else if bytes_equal(b, zoom.as_slice()) {
            assert(fill@ =~= seq![102u8, 105u8, 108u8, 108u8]);
            assert(scale@ =~= seq![115u8, 99u8, 97u8, 108u8, 101u8]);
            assert(zoom@ =~= seq![122u8, 111u8, 111u8, 109u8]);
            BackgroundMode::Zoom
        } else {
            assert(fill@ =~= seq![102u8, 105u8, 108u8, 108u8]);
            assert(scale@ =~= seq![115u8, 99u8, 97u8, 108u8, 101u8]);
            assert(zoom@ =~= seq![122u8, 111u8, 111u8, 109u8]);
            BackgroundMode::Center
        }
    }
}



/// Every byte is below 128.
pub open spec fn all_ascii(b: Seq<u8>) -> bool {
    forall|i: int| 0 <= i < b.len() ==> b[i] < 128
}

/// The bytes are well-formed UTF-8.
#[verifier::opaque]
pub open spec fn utf8_ok(b: Seq<u8>) -> bool {
    vstd::utf8::valid_utf8(b)
}

/// Relies on `std::str::from_utf8`, which succeeds exactly on valid UTF-8;
/// bytes that are all ASCII are valid UTF-8.
#[verifier::external_body]
fn is_utf8(b: &[u8]) -> (r: bool)
    ensures
        r == utf8_ok(b@),
        all_ascii(b@) ==> r,
{
    std::str::from_utf8(b).is_ok()
}

/// No two windows share an id.
pub open spec fn ids_unique(ws: Seq<Window>) -> bool {
    forall|i: int, j: int|
        0 <= i < ws.len() && 0 <= j < ws.len() && (#[trigger] ws[i]).id == (#[trigger] ws[j]).id ==> i == j
}

pub open spec fn has_id(ws: Seq<Window>, id: usize) -> bool {
    exists|i: int| 0 <= i < ws.len() && (#[trigger] ws[i]).id == id
}

/// Two windows agree on everything but, perhaps, their event queues.
pub open spec fn same_but_events(a: Window, b: Window) -> bool {
    &&& a.id == b.id
    &&& a.x == b.x
    &&& a.y == b.y
    &&& a.width == b.width
    &&& a.height == b.height
    &&& a.title@ == b.title@
    &&& a.asynchronous == b.asynchronous
    &&& a.resizable == b.resizable
}

/// The damage list after scheduling a window's title bar and then its client area.
pub open spec fn schedule_window_spec(s: Seq<Rect>, w: Window) -> Seq<Rect> {
    schedule_spec(schedule_spec(s, w.title_rect_spec()), w.rect_spec())
}


/// Where the cascade of default window positions goes next, along one axis.
pub open spec fn cascade(n: int, limit: int) -> int {
    if n + 40 >= limit { 20 } else { n + 20 }
}

/// The id that follows `id`; after `isize::MAX` it wraps to 1, skipping 0.
pub open spec fn next_id_after(id: usize) -> usize {
    if id >= isize::MAX as usize { 1 } else { (id + 1) as usize }
}

pub open spec fn has_byte(s: Seq<u8>, b: u8) -> bool {
    exists|i: int| 0 <= i < s.len() && s[i] == b
}

pub open spec fn int_or(v: Option<i32>, d: i32) -> i32 {
    match v {
        Some(x) => x,
        None => d,
    }
}

/// The windows with the one of this id, if any, taken out.
pub open spec fn without(ws: Seq<Window>, id: usize) -> Seq<Window> {
    if has_id(ws, id) {
        ws.remove(choose|i: int| 0 <= i < ws.len() && (#[trigger] ws[i]).id == id)
    } else {
        ws
    }
}

/// The window that `open` makes from `url` (before any cascade placement).
pub open spec fn opened_fields(url: Seq<u8>) -> (bool, bool, i32, i32, i32, i32, Seq<u8>) {
    let flags = field(url, 0, 47u8);
    (
        has_byte(flags, 97u8),
        has_byte(flags, 114u8),
        int_or(parse_i32_spec(field(url, 1, 47u8)), 0),
        int_or(parse_i32_spec(field(url, 2, 47u8)), 0),
        int_or(parse_i32_spec(field(url, 3, 47u8)), 0),
        int_or(parse_i32_spec(field(url, 4, 47u8)), 0),
        rest_from(url, 5, 47u8),
    )
}


/// Whether `b` occurs in `s[..end]`.
fn contains_byte(s: &[u8], end: usize, b: u8) -> (r: bool)
    requires
        end <= s@.len(),
    ensures
        r == has_byte(s@.subrange(0, end as int), b),
{
    let mut i: usize = 0;
    while i < end
        invariant
            end <= s@.len(),
            i <= end,
            forall|j: int| 0 <= j < i ==> s@[j] != b,
        decreases end - i,
    {
        if s[i] == b {
            assert(s@.subrange(0, end as int)[i as int] == b);
            return true;
        }
        i = i + 1;
    }
    proof {
        let t = s@.subrange(0, end as int);
        if has_byte(t, b) {
            let j = choose|j: int| 0 <= j < t.len() && t[j] == b;
            assert(t[j] == s@[j]);
        }
    }
    false
}


/// Replacing a window by one of the same id keeps ids unique.
proof fn lemma_update_unique(ws: Seq<Window>, i: int, w: Window)
    requires
        ids_unique(ws),
        0 <= i < ws.len(),
        w.id == ws[i].id,
    ensures
        ids_unique(ws.update(i, w)),
{
    let u = ws.update(i, w);
    assert forall|a: int, b: int|
        0 <= a < u.len() && 0 <= b < u.len() && (#[trigger] u[a]).id == (#[trigger] u[b]).id
        implies a == b by {
        assert(u[a].id == ws[a].id);
        assert(u[b].id == ws[b].id);
    }
}

/// Ids that are equal mark the same position.
proof fn lemma_without_unique(ws: Seq<Window>, id: usize)
    requires
        ids_unique(ws),
    ensures
        ids_unique(without(ws, id)),
        !has_id(without(ws, id), id),
        forall|x: usize| x != id ==> (has_id(without(ws, id), x) <==> has_id(ws, x)),
{
    if has_id(ws, id) {
        let k = choose|i: int| 0 <= i < ws.len() && (#[trigger] ws[i]).id == id;
        let r = ws.remove(k);
        assert forall|a: int, b: int|
            0 <= a < r.len() && 0 <= b < r.len() && (#[trigger] r[a]).id == (#[trigger] r[b]).id
            implies a == b by {
            let a2 = if a < k { a } else { a + 1 };
            let b2 = if b < k { b } else { b + 1 };
            assert(r[a] == ws[a2]);
            assert(r[b] == ws[b2]);
        }
        if has_id(r, id) {
            let j = choose|i: int| 0 <= i < r.len() && (#[trigger] r[i]).id == id;
            let j2 = if j < k { j } else { j + 1 };
            assert(r[j] == ws[j2]);
        }
        assert forall|x: usize| x != id implies (has_id(r, x) <==> has_id(ws, x)) by {
            if has_id(ws, x) {
                let j = choose|i: int| 0 <= i < ws.len() && (#[trigger] ws[i]).id == x;
                assert(j != k);
                let j2 = if j < k { j } else { j - 1 };
                assert(r[j2] == ws[j]);
            }
            if has_id(r, x) {
                let j = choose|i: int| 0 <= i < r.len() && (#[trigger] r[i]).id == x;
                let j2 = if j < k { j } else { j + 1 };
                assert(r[j] == ws[j2]);
            }
        }
    }
}


/// What `write` does to a window for the message `msg`, where it accepts it:
/// `P,x,y` moves it, `S,w,h` resizes it, `T,title` retitles it. A number that
/// cannot be read keeps the window's value.
pub open spec fn written(w: Window, msg: Seq<u8>, n: Window) -> bool {
    let cmd = field(msg, 0, 44u8);
    let a = parse_i32_spec(field(msg, 1, 44u8));
    let b = parse_i32_spec(field(msg, 2, 44u8));
    &&& n.id == w.id
    &&& n.asynchronous == w.asynchronous
    &&& n.resizable == w.resizable
    &&& n.events@ == w.events@
    &&& cmd == seq![80u8] ==> n.x == int_or(a, w.x) && n.y == int_or(b, w.y)
        && n.width == w.width && n.height == w.height && n.title@ == w.title@
    &&& cmd == seq![83u8] ==> n.width == int_or(a, w.width) && n.height == int_or(b, w.height)
        && n.x == w.x && n.y == w.y && n.title@ == w.title@
    &&& cmd == seq![84u8] ==> n.title@ == field(msg, 1, 44u8)
        && n.x == w.x && n.y == w.y && n.width == w.width && n.height == w.height
}

pub open spec fn known_command(msg: Seq<u8>) -> bool {
    let cmd = field(msg, 0, 44u8);
    cmd == seq![80u8] || cmd == seq![83u8] || cmd == seq![84u8]
}

/// The damage that `write` schedules: the old and new frame for a move or a
/// resize, the title bar for a retitle.
pub open spec fn write_damage(s: Seq<Rect>, w: Window, msg: Seq<u8>, n: Window) -> Seq<Rect> {
    if field(msg, 0, 44u8) == seq![84u8] {
        schedule_spec(s, n.title_rect_spec())
    } else {
        schedule_window_spec(schedule_window_spec(s, w), n)
    }
}


/// The focus order after one Win+Tab: the front moves to the back.
pub open spec fn rotate_once(o: Seq<usize>) -> Seq<usize> {
    if o.len() > 1 { o.drop_first().push(o[0]) } else { o }
}

/// The focus order after `k` presses of Win+Tab.
pub open spec fn rotate_times(o: Seq<usize>, k: nat) -> Seq<usize>
    decreases k,
{
    if k == 0 { o } else { rotate_once(rotate_times(o, (k - 1) as nat)) }
}

/// Rotating moves every window along and keeps the set of windows.
proof fn lemma_rotate_index(o: Seq<usize>, k: nat)
    requires
        o.len() >= 2,
    ensures
        rotate_times(o, k).len() == o.len(),
        forall|j: int| 0 <= j < o.len() ==> #[trigger] rotate_times(o, k)[j] == o[(j + k as int) % (o.len() as int)],
    decreases k,
{
    let n = o.len() as int;
    if k > 0 {
        lemma_rotate_index(o, (k - 1) as nat);
        let p = rotate_times(o, (k - 1) as nat);
        assert forall|j: int| 0 <= j < n implies #[trigger] rotate_times(o, k)[j] == o[(j + k) % n] by {
            if j < n - 1 {
                assert(rotate_times(o, k)[j] == p[j + 1]);
                assert(p[j + 1] == o[(j + 1 + k - 1) % n]);
            } else {
                assert(rotate_times(o, k)[j] == p[0]);
                assert(p[0] == o[(0 + k - 1) % n]);
                assert((k - 1) % n == (n - 1 + k) % n) by (nonlinear_arith)
                    requires
                        n >= 2,
                        k >= 1,
                {
                    assert((n - 1 + k) == (k - 1) + n * 1);
                    vstd::arithmetic::div_mod::lemma_mod_multiples_vanish(1, k - 1, n);
                }
            }
        }
    } else {
        assert forall|j: int| 0 <= j < n implies #[trigger] rotate_times(o, k)[j] == o[(j + k) % n] by {
            vstd::arithmetic::div_mod::lemma_small_mod(j as nat, n as nat);
        }
    }
}

/// Pressing Win+Tab `k` times with at least two windows open brings the
/// window that stood at position `k mod n` of the focus order to the front.
pub proof fn lemma_tab_rotation(o: Seq<usize>, k: nat)
    requires
        o.len() >= 2,
    ensures
        rotate_times(o, k)[0] == o[(k as int) % (o.len() as int)],
{
    lemma_rotate_index(o, k);
    assert(rotate_times(o, k)[0] == o[(0 + k as int) % (o.len() as int)]);
}


/// `v` limited to the range of `i32`.
pub open spec fn clamp32(v: int) -> i32 {
    if v < i32::MIN { i32::MIN } else if v > i32::MAX { i32::MAX } else { v as i32 }
}

/// Which part of the window the point hits: 1 client area, 2 title bar,
/// 3 right border, 4 bottom border, 5 bottom-right corner, 0 none.
pub open spec fn hit_kind(w: Window, px: int, py: int) -> int {
    if w.rect_spec().contains_spec(px, py) {
        1
    } else if w.title_rect_spec().contains_spec(px, py) {
        2
    } else if w.right_border_rect_spec().contains_spec(px, py) {
        3
    } else if w.bottom_border_rect_spec().contains_spec(px, py) {
        4
    } else if w.bottom_right_border_rect_spec().contains_spec(px, py) {
        5
    } else {
        0
    }
}

/// The first window from position `i` on, in focus order, that the point hits;
/// the length where none does.
pub open spec fn first_hit(ws: Seq<Window>, i: int, px: int, py: int) -> int
    decreases ws.len() - i,
{
    if i < 0 || i >= ws.len() {
        ws.len() as int
    } else if hit_kind(ws[i], px, py) != 0 {
        i
    } else {
        first_hit(ws, i + 1, px, py)
    }
}

/// The drag that a left-button press on part `kind` of `w` begins.
pub open spec fn drag_start(w: Window, kind: int, ex: i32, ey: i32) -> DragMode {
    if kind == 2 {
        DragMode::Title(w.id, ex, ey)
    } else if kind == 3 {
        DragMode::RightBorder(w.id, clamp32(ex - (w.x + w.width)))
    } else if kind == 4 {
        DragMode::BottomBorder(w.id, clamp32(ey - (w.y + w.height)))
    } else {
        DragMode::BottomRightBorder(w.id, clamp32(ex - (w.x + w.width)), clamp32(ey - (w.y + w.height)))
    }
}

/// The order after window `t` takes the focus.
pub open spec fn raise(o: Seq<usize>, t: int) -> Seq<usize> {
    seq![o[t]] + o.remove(t)
}


/// Whether a button went down with this event.
pub open spec fn pressed_edge(now: bool, before: bool) -> bool {
    now && !before
}

/// The resize event that a border drag at `(ex, ey)` asks of `w`, if any:
/// a side drag asks when its side is positive and changed, a corner drag when
/// both sides are positive and one changed.
pub open spec fn border_resize(w: Window, off_x: Option<i32>, off_y: Option<i32>, ex: i32, ey: i32) -> Option<Event> {
    let nw: int = match off_x { Some(o) => ex - o - w.x, None => w.width as int };
    let nh: int = match off_y { Some(o) => ey - o - w.y, None => w.height as int };
    let wants = match (off_x, off_y) {
        (Some(_), Some(_)) => nw > 0 && nh > 0 && (nw != w.width || nh != w.height),
        (Some(_), None) => nw > 0 && nw != w.width,
        _ => nh > 0 && nh != w.height,
    };
    if wants {
        Some(Event::Resize { width: nw as i64, height: nh as i64 })
    } else {
        None
    }
}


/// The event that a pointer event with no drag under way queues on the window it hits, if any.
pub open spec fn idle_event(w: Window, kind: int, ex: i32, ey: i32, l: bool, m: bool, r: bool, edge_left: bool) -> Option<Event> {
    if kind == 1 {
        Some(Event::Mouse { x: clamp32(ex - w.x), y: clamp32(ey - w.y), left_button: l, middle_button: m, right_button: r })
    } else if kind == 2 && edge_left && w.exit_contains_spec(ex as int, ey as int) {
        Some(Event::Quit)
    } else {
        None
    }
}

pub open spec fn pushed_opt(s: Seq<Event>, e: Option<Event>) -> Seq<Event> {
    match e {
        Some(x) => s.push(x),
        None => s,
    }
}


/// Everything but the pointer state, the drag, the windows and the damage is the same.
pub open spec fn same_settings(f: OrbitalScheme, o: OrbitalScheme) -> bool {
    &&& f.width == o.width
    &&& f.height == o.height
    &&& f.backgrounds == o.backgrounds
    &&& f.background_i == o.background_i
    &&& f.cursor_width == o.cursor_width
    &&& f.cursor_height == o.cursor_height
    &&& f.win_key == o.win_key
    &&& f.win_tabbing == o.win_tabbing
    &&& f.next_id == o.next_id
    &&& f.next_x == o.next_x
    &&& f.next_y == o.next_y
}

/// The cursor position and button latches are the same.
pub open spec fn same_cursor(f: OrbitalScheme, o: OrbitalScheme) -> bool {
    &&& f.cursor_x == o.cursor_x
    &&& f.cursor_y == o.cursor_y
    &&& f.cursor_left == o.cursor_left
    &&& f.cursor_middle == o.cursor_middle
    &&& f.cursor_right == o.cursor_right
}

/// What one Win+Tab does to the windows, the drag and the damage: with two
/// or more windows the front one goes to the back and loses the focus, the
/// next one gains it, both are damaged, and any drag ends.
pub open spec fn tab_outcome(o: OrbitalScheme, f: OrbitalScheme) -> bool {
    let ow = o.windows@;
    let fw = f.windows@;
    let n = ow.len() as int;
    &&& f.order() == rotate_once(o.order())
    &&& fw.len() == ow.len()
    &&& n > 1 ==> {
        &&& f.dragging == DragMode::Idle
        &&& same_but_events(fw[n - 1], ow[0])
        &&& fw[n - 1].events@ == ow[0].events@.push(Event::Focus { focused: false })
        &&& same_but_events(fw[0], ow[1])
        &&& fw[0].events@ == ow[1].events@.push(Event::Focus { focused: true })
        &&& forall|j: int| 1 <= j < n - 1 ==> #[trigger] fw[j] == ow[j + 1]
        &&& f.redraws@ == schedule_window_spec(schedule_window_spec(o.redraws@, ow[0]), ow[1])
    }
    &&& n <= 1 ==> f.windows == o.windows && f.dragging == o.dragging && f.redraws == o.redraws
}

/// What a key event does. The Win key sets or clears the modifier (a release
/// also hides the switcher). While it is held, a press of Esc sends Quit to the
/// focused window, Tab rotates the focus and shows the switcher, Backspace
/// moves to the next background; other keys and releases do nothing. Without
/// it the key goes to the focused window.
pub open spec fn key_outcome(o: OrbitalScheme, f: OrbitalScheme, character: char, scancode: u8, pressed: bool) -> bool {
    let ow = o.windows@;
    let fw = f.windows@;
    if scancode == K_WIN {
        f == (OrbitalScheme { win_key: pressed, win_tabbing: o.win_tabbing && pressed, ..o })
    } else if o.win_key {
        if pressed && scancode == K_TAB {
            &&& tab_outcome(o, f)
            &&& f.win_tabbing
            &&& f.win_key
            &&& same_cursor(f, o)
            &&& f == (OrbitalScheme { win_tabbing: true, dragging: f.dragging, windows: f.windows, redraws: f.redraws, ..o })
        } else if pressed && scancode == K_BKSP {
            let nb = if o.background_i + 1 >= o.backgrounds@.len() { 0 } else { o.background_i + 1 };
            &&& f.background_i == nb
            &&& f.redraws@ == schedule_spec(schedule_spec(o.redraws@, o.background_rect_spec()), f.background_rect_spec())
            &&& f == (OrbitalScheme { background_i: f.background_i, redraws: f.redraws, ..o })
        } else if pressed && scancode == K_ESC && ow.len() > 0 {
            &&& fw.len() == ow.len()
            &&& same_but_events(fw[0], ow[0])
            &&& fw[0].events@ == ow[0].events@.push(Event::Quit)
            &&& forall|j: int| 1 <= j < fw.len() ==> #[trigger] fw[j] == ow[j]
            &&& f == (OrbitalScheme { windows: f.windows, ..o })
        } else {
            f == o
        }
    } else if ow.len() > 0 {
        &&& fw.len() == ow.len()
        &&& same_but_events(fw[0], ow[0])
        &&& fw[0].events@ == ow[0].events@.push(Event::Key { character, scancode, pressed })
        &&& forall|j: int| 1 <= j < fw.len() ==> #[trigger] fw[j] == ow[j]
        &&& f == (OrbitalScheme { windows: f.windows, ..o })
    } else {
        f == o
    }
}

/// A title drag step: while the button is held and the window is open, it
/// follows the pointer from the grab point and is told its new position;
/// otherwise the drag ends and nothing else changes.
pub open spec fn title_outcome(o: OrbitalScheme, f: OrbitalScheme, id: usize, gx: i32, gy: i32, ex: i32, ey: i32, l: bool) -> bool {
    &&& f.order() == o.order()
    &&& f.windows@.len() == o.windows@.len()
    &&& !(l && has_id(o.windows@, id)) ==> f.dragging == DragMode::Idle && f.windows == o.windows
    &&& l && has_id(o.windows@, id) ==> ({
        let k = choose|i: int| 0 <= i < o.windows@.len() && (#[trigger] o.windows@[i]).id == id;
        let w = o.windows@[k];
        let n = f.windows@[k];
        let moved = gx != ex || gy != ey;
        &&& f.dragging == DragMode::Title(id, ex, ey)
        &&& n.x == clamp32(w.x + ex - gx)
        &&& n.y == clamp32(w.y + ey - gy)
        &&& n.width == w.width && n.height == w.height && n.title@ == w.title@
        &&& n.id == w.id && n.asynchronous == w.asynchronous && n.resizable == w.resizable
        &&& n.events@ == (if moved { w.events@.push(Event::Move { x: n.x, y: n.y }) } else { w.events@ })
        &&& forall|j: int| 0 <= j < f.windows@.len() && j != k ==> #[trigger] f.windows@[j] == o.windows@[j]
    })
}

/// A border drag step: while the button is held and the window is open, it is
/// asked for the size the pointer gives it; otherwise the drag ends.
pub open spec fn border_outcome(o: OrbitalScheme, f: OrbitalScheme, id: usize, off_x: Option<i32>, off_y: Option<i32>, ex: i32, ey: i32, l: bool) -> bool {
    &&& f.order() == o.order()
    &&& f.windows@.len() == o.windows@.len()
    &&& !(l && has_id(o.windows@, id)) ==> f.dragging == DragMode::Idle && f.windows == o.windows
    &&& l && has_id(o.windows@, id) ==> ({
        let k = choose|i: int| 0 <= i < o.windows@.len() && (#[trigger] o.windows@[i]).id == id;
        let w = o.windows@[k];
        let n = f.windows@[k];
        &&& f.dragging == o.dragging
        &&& same_but_events(n, w)
        &&& n.events@ == pushed_opt(w.events@, border_resize(w, off_x, off_y, ex, ey))
        &&& forall|j: int| 0 <= j < f.windows@.len() && j != k ==> #[trigger] f.windows@[j] == o.windows@[j]
    })
}

/// A pointer event with no drag under way. The first window in focus order
/// whose client area, title bar or borders hold the point is hit. A client hit
/// queues the event in window coordinates; a left press on the close button
/// queues Quit, elsewhere on the title bar or a border it begins a drag. A
/// press that hits a window other than the focused one raises it: the old
/// front loses the focus, the hit window gains it.
pub open spec fn idle_outcome(o: OrbitalScheme, f: OrbitalScheme, ex: i32, ey: i32, l: bool, m: bool, r: bool) -> bool {
    let ow = o.windows@;
    let fw = f.windows@;
    let h = first_hit(ow, 0, ex as int, ey as int);
    let edge_left = pressed_edge(l, o.cursor_left);
    let edge_any = edge_left || pressed_edge(m, o.cursor_middle) || pressed_edge(r, o.cursor_right);
    &&& fw.len() == ow.len()
    &&& if h < ow.len() {
        let kind = hit_kind(ow[h], ex as int, ey as int);
        let t = if (kind == 1 && edge_any) || (kind >= 2 && edge_left) { h } else { 0 };
        let e = idle_event(ow[h], kind, ex, ey, l, m, r, edge_left);
        let at = if t > 0 { 0 } else { h };
        &&& f.dragging == (if kind >= 2 && edge_left && !(kind == 2 && ow[h].exit_contains_spec(ex as int, ey as int)) {
            drag_start(ow[h], kind, ex, ey)
        } else {
            DragMode::Idle
        })
        &&& f.order() == (if t > 0 { raise(o.order(), t) } else { o.order() })
        &&& same_but_events(fw[at], ow[h])
        &&& fw[at].events@ == (if t > 0 {
            pushed_opt(ow[h].events@, e).push(Event::Focus { focused: true })
        } else {
            pushed_opt(ow[h].events@, e)
        })
        &&& t == 0 ==> forall|j: int| 0 <= j < fw.len() && j != h ==> #[trigger] fw[j] == ow[j]
        &&& t > 0 ==> {
            &&& same_but_events(fw[1], ow[0])
            &&& fw[1].events@ == ow[0].events@.push(Event::Focus { focused: false })
            &&& forall|j: int| 1 <= j < t ==> #[trigger] fw[j + 1] == ow[j]
            &&& forall|j: int| t < j < fw.len() ==> #[trigger] fw[j] == ow[j]
        }
    } else {
        &&& f.dragging == DragMode::Idle
        &&& f.windows == o.windows
    }
}


/// The damage of a title drag step: the window's old frame and then its new
/// one, where it moved.
pub open spec fn title_damage(o: OrbitalScheme, f: OrbitalScheme, id: usize, gx: i32, gy: i32, ex: i32, ey: i32, l: bool) -> Seq<Rect> {
    if l && has_id(o.windows@, id) && (gx != ex || gy != ey) {
        let k = choose|i: int| 0 <= i < o.windows@.len() && (#[trigger] o.windows@[i]).id == id;
        schedule_window_spec(schedule_window_spec(o.redraws@, o.windows@[k]), f.windows@[k])
    } else {
        o.redraws@
    }
}

/// The damage of a pointer event with no drag under way: where the focus
/// moves, the frames of the window that loses it and of the one that gains it.
pub open spec fn idle_damage(o: OrbitalScheme, ex: i32, ey: i32, l: bool, m: bool, r: bool) -> Seq<Rect> {
    let ow = o.windows@;
    let h = first_hit(ow, 0, ex as int, ey as int);
    let edge_left = pressed_edge(l, o.cursor_left);
    let edge_any = edge_left || pressed_edge(m, o.cursor_middle) || pressed_edge(r, o.cursor_right);
    if h < ow.len() {
        let kind = hit_kind(ow[h], ex as int, ey as int);
        if h > 0 && ((kind == 1 && edge_any) || (kind >= 2 && edge_left)) {
            schedule_window_spec(schedule_window_spec(o.redraws@, ow[0]), ow[h])
        } else {
            o.redraws@
        }
    } else {
        o.redraws@
    }
}

/// The damage of the drag step (or no-drag step) of a pointer event, before the cursor's.
pub open spec fn step_damage(o: OrbitalScheme, f: OrbitalScheme, ex: i32, ey: i32, l: bool, m: bool, r: bool) -> Seq<Rect> {
    match o.dragging {
        DragMode::Idle => idle_damage(o, ex, ey, l, m, r),
        DragMode::Title(id, gx, gy) => title_damage(o, f, id, gx, gy, ex, ey, l),
        _ => o.redraws@,
    }
}

/// What a pointer event does: the step of the drag under way (or of no drag),
/// then the cursor moves to the pointer and the buttons are latched.
pub open spec fn mouse_outcome(o: OrbitalScheme, f: OrbitalScheme, ex: i32, ey: i32, l: bool, m: bool, r: bool) -> bool {
    &&& f.cursor_x == ex
    &&& f.cursor_y == ey
    &&& f.cursor_left == l
    &&& f.cursor_middle == m
    &&& f.cursor_right == r
    &&& same_settings(f, o)
    &&& match o.dragging {
        DragMode::Idle => idle_outcome(o, f, ex, ey, l, m, r),
        DragMode::Title(id, gx, gy) => title_outcome(o, f, id, gx, gy, ex, ey, l),
        DragMode::RightBorder(id, ox) => border_outcome(o, f, id, Some(ox), None, ex, ey, l),
        DragMode::BottomBorder(id, oy) => border_outcome(o, f, id, None, Some(oy), ex, ey, l),
        DragMode::BottomRightBorder(id, ox, oy) => border_outcome(o, f, id, Some(ox), Some(oy), ex, ey, l),
    }
    &&& f.redraws@ == (if ex != o.cursor_x || ey != o.cursor_y {
        schedule_spec(schedule_spec(step_damage(o, f, ex, ey, l, m, r), o.cursor_rect_spec()), f.cursor_rect_spec())
    } else {
        step_damage(o, f, ex, ey, l, m, r)
    })
    &&& (ex != o.cursor_x || ey != o.cursor_y) ==> forall|px: int, py: int|
        o.cursor_rect_spec().contains_spec(px, py) || f.cursor_rect_spec().contains_spec(px, py)
            ==> #[trigger] covers(f.redraws@, px, py)
}


/// The pixel of `img`, placed at `(x, y)`, at the point; `under` where it does not reach.
pub open spec fn image_at(img: Image, x: int, y: int, px: int, py: int, under: u32) -> u32 {
    if x <= px < x + img.width && y <= py < y + img.height { img.pixel(px - x, py - y) } else { under }
}

/// The close icons drawn at the right end of title bars: one for the focused
/// window, one for the others.
pub struct Decorations {
    pub close: Image,
    pub close_unfocused: Image,
}

impl Decorations {
    pub open spec fn wf(&self) -> bool {
        &&& self.close.wf()
        &&& self.close_unfocused.wf()
        &&& self.close.width <= 0x8000_0000
        &&& self.close_unfocused.width <= 0x8000_0000
    }
}

/// The point's color once window `w` is drawn over `under`: its title bar with
/// the close icon blended at its right end, then its client pixels.
pub open spec fn window_over(w: Window, img: Image, d: Decorations, focused: bool, px: int, py: int, under: u32) -> u32 {
    let t = w.title_rect_spec();
    let icon = if focused { d.close } else { d.close_unfocused };
    let ix = t.x + t.w - icon.width;
    let v = if t.contains_spec(px, py) {
        let bar = if focused { BAR_HIGHLIGHT_COLOR } else { BAR_COLOR };
        if ix <= px < ix + icon.width && t.y <= py < t.y + icon.height {
            crate::image::blend_spec(bar, icon.pixel(px - ix, py - t.y))
        } else {
            bar
        }
    } else {
        under
    };
    if w.rect_spec().contains_spec(px, py) { image_at(img, w.x as int, w.y as int, px, py, v) } else { v }
}

/// The point's color with windows `i..` drawn over `under`, back to front.
pub open spec fn windows_over(ws: Seq<Window>, cl: Seq<Image>, d: Decorations, i: int, px: int, py: int, under: u32) -> u32
    decreases ws.len() - i,
{
    if i < 0 || i >= ws.len() {
        under
    } else {
        window_over(ws[i], cl[i], d, i == 0, px, py, windows_over(ws, cl, d, i + 1, px, py, under))
    }
}

/// The damage rectangles clipped to `screen`, empty ones left out, in order.
pub open spec fn clip_all(s: Seq<Rect>, screen: Rect) -> Seq<Rect>
    decreases s.len(),
{
    if s.len() == 0 {
        Seq::empty()
    } else {
        let c = s.last().intersection_spec(screen);
        let pre = clip_all(s.drop_last(), screen);
        if c.is_empty_spec() { pre } else { pre.push(c) }
    }
}

/// Entries of the window switcher beyond this many are not listed.
pub const MAX_LISTED: usize = 0x10_0000;

/// How many windows the switcher lists.
pub open spec fn listed(n: int) -> int {
    if n > MAX_LISTED { MAX_LISTED as int } else { n }
}

/// Row `i` of the switcher standing at `l`: 20 pixels high, below a 2-pixel margin.
pub open spec fn row_rect_spec(l: Rect, i: int) -> Rect {
    Rect { x: l.x, y: (l.y + 2 + 20 * i) as i64, w: 400, h: 20 }
}

/// Where the window switcher stands: 400 pixels wide, 20 per entry plus 4,
/// centred on a `width` by `height` screen.
pub open spec fn window_list_rect_spec(width: int, height: int, n: int) -> Rect {
    let entries = if n > MAX_LISTED { MAX_LISTED as int } else { n };
    let h = entries * 20 + 4;
    crate::window::rect_of(width / 2 - 200, height / 2 - h / 2, 400, h)
}


/// Damage for a window covers its title bar and client area, and keeps what was covered.
pub proof fn lemma_window_damage_covers(s: Seq<Rect>, w: Window)
    requires
        all_wf(s),
    ensures
        all_wf(schedule_window_spec(s, w)),
        forall|px: int, py: int|
            covers(s, px, py) || w.title_rect_spec().contains_spec(px, py) || w.rect_spec().contains_spec(px, py)
                ==> #[trigger] covers(schedule_window_spec(s, w), px, py),
{
    let s1 = schedule_spec(s, w.title_rect_spec());
    crate::rect::lemma_schedule_spec_covers(s, w.title_rect_spec());
    crate::rect::lemma_schedule_spec_covers(s1, w.rect_spec());
    assert forall|px: int, py: int|
        covers(s, px, py) || w.title_rect_spec().contains_spec(px, py) || w.rect_spec().contains_spec(px, py)
            implies #[trigger] covers(schedule_window_spec(s, w), px, py) by {
        if covers(s, px, py) || w.title_rect_spec().contains_spec(px, py) {
            assert(covers(s1, px, py));
        }
    }
}

/// The window's position after a title drag that starts with the grab at `g`
/// and follows the pointer through `pts` (one axis).
pub open spec fn drag_position(x: int, g: int, pts: Seq<int>) -> int
    decreases pts.len(),
{
    if pts.len() == 0 {
        x
    } else {
        let prev = if pts.len() == 1 { g } else { pts[pts.len() - 2] };
        drag_position(x, g, pts.drop_last()) + (pts.last() - prev)
    }
}

/// A title drag moves the window by exactly the pointer's total travel.
pub proof fn lemma_drag_total(x: int, g: int, pts: Seq<int>)
    requires
        pts.len() > 0,
    ensures
        drag_position(x, g, pts) == x + pts.last() - g,
    decreases pts.len(),
{
    let pre = pts.drop_last();
    if pts.len() > 1 {
        lemma_drag_total(x, g, pre);
        assert(pre.last() == pts[pts.len() - 2]);
    } else {
        assert(drag_position(x, g, pre) == x);
    }
}


/// The size a background image takes on a `dw` by `dh` display: `Fill`
/// stretches it to the display, `Scale` fits it inside keeping its aspect,
/// `Zoom` covers the display keeping its aspect, `Center` keeps it. An image
/// with no pixels keeps its size; a side too long for `i32` is cut to its maximum.
pub open spec fn fitted_size_spec(mode: BackgroundMode, dw: int, dh: int, iw: int, ih: int) -> (int, int) {
    match mode {
        BackgroundMode::Center => (iw, ih),
        BackgroundMode::Fill => (dw, dh),
        _ => if iw <= 0 || ih <= 0 {
            (iw, ih)
        } else if (mode == BackgroundMode::Scale) == (dw * ih > iw * dh) {
            (clamp32(iw * dh / ih) as int, dh)
        } else {
            (dw, clamp32(ih * dw / iw) as int)
        },
    }
}


/// After a `T` message, the window's path ends with the title the message gave.
pub proof fn lemma_title_round_trip(w: Window, msg: Seq<u8>, n: Window)
    requires
        written(w, msg, n),
        field(msg, 0, 44u8) == seq![84u8],
    ensures
        n.path_spec().subrange(n.path_spec().len() - field(msg, 1, 44u8).len(), n.path_spec().len() as int)
            == field(msg, 1, 44u8),
{
    let p = n.path_spec();
    let t = field(msg, 1, 44u8);
    assert(p.subrange(p.len() - t.len(), p.len() as int) =~= t);
}


/// Closing the one window that `open` just made leaves no windows, and the
/// damage that close schedules covers its title bar and client area.
pub proof fn lemma_open_close(w: Window, s: Seq<Rect>)
    requires
        all_wf(s),
    ensures
        without(seq![w], w.id).len() == 0,
        forall|px: int, py: int|
            w.title_rect_spec().contains_spec(px, py) || w.rect_spec().contains_spec(px, py)
                ==> #[trigger] covers(schedule_window_spec(s, w), px, py),
{
    let ws = seq![w];
    assert(ws[0].id == w.id);
    assert(has_id(ws, w.id));
    lemma_window_damage_covers(s, w);
}

/// Image sizes are never negative.
pub open spec fn sizes_valid(s: Seq<(i32, i32)>) -> bool {
    forall|i: int| 0 <= i < s.len() ==> (#[trigger] s[i]).0 >= 0 && s[i].1 >= 0
}

/// The compositor: screen, window stack, pointer state and pending damage.
pub struct OrbitalScheme {
    pub width: i32,
    pub height: i32,
    /// Sizes of the background images, already fitted to the display.
    pub backgrounds: Vec<(i32, i32)>,
    pub background_i: usize,
    pub cursor_width: i32,
    pub cursor_height: i32,
    pub cursor_x: i32,
    pub cursor_y: i32,
    pub cursor_left: bool,
    pub cursor_middle: bool,
    pub cursor_right: bool,
    pub dragging: DragMode,
    pub win_key: bool,
    pub win_tabbing: bool,
    pub next_id: usize,
    pub next_x: i32,
    pub next_y: i32,
    /// Open windows, front (focused) first; drawn back to front.
    pub windows: Vec<Window>,
    pub redraws: Vec<Rect>,
}

impl OrbitalScheme {
    pub open spec fn wf(&self) -> bool {
        &&& all_wf(self.redraws@)
        &&& ids_unique(self.windows@)
        &&& self.next_id > 0
        &&& self.next_id <= isize::MAX as usize
        &&& 0 <= self.next_x <= i32::MAX - 20
        &&& 0 <= self.next_y <= i32::MAX - 20
        &&& self.background_i == 0 || self.background_i < self.backgrounds@.len()
        &&& self.width >= 0
        &&& self.height >= 0
        &&& sizes_valid(self.backgrounds@)
    }

    /// The focus order: window ids, front first.
    pub open spec fn order(&self) -> Seq<usize> {
        self.windows@.map_values(|w: Window| w.id)
    }

    /// The ids of the open windows.
    pub open spec fn window_ids(&self) -> Set<usize> {
        Set::new(|id: usize| has_id(self.windows@, id))
    }

    pub open spec fn screen_rect_spec(&self) -> Rect {
        Rect {
            x: 0,
            y: 0,
            w: self.width as i64,
            h: self.height as i64,
        }
    }

    pub open spec fn cursor_rect_spec(&self) -> Rect {
        crate::window::rect_of(self.cursor_x as int, self.cursor_y as int, self.cursor_width as int, self.cursor_height as int)
    }

    /// The active background, centred on the screen; off-screen and empty where there is none.
    pub open spec fn background_rect_spec(&self) -> Rect {
        if self.background_i < self.backgrounds@.len() {
            let (w, h) = self.backgrounds@[self.background_i as int];
            crate::window::rect_of(
                self.width / 2 - w / 2,
                self.height / 2 - h / 2,
                w as int,
                h as int,
            )
        } else {
            Rect { x: -1i64, y: -1i64, w: 0i64, h: 0i64 }
        }
    }

    /// A compositor for a `width` by `height` screen, with the given background
    /// sizes and cursor size; the whole screen is damaged.
    pub fn new(
        width: i32,
        height: i32,
        backgrounds: Vec<(i32, i32)>,
        cursor_width: i32,
        cursor_height: i32,
    ) -> (r: OrbitalScheme)
        requires
            width >= 0,
            height >= 0,
            sizes_valid(backgrounds@),
        ensures
            r.wf(),
            r.width == width,
            r.height == height,
            r.backgrounds@ == backgrounds@,
            r.background_i == 0,
            r.cursor_width == cursor_width,
            r.cursor_height == cursor_height,
            r.cursor_x == 0 && r.cursor_y == 0,
            !r.cursor_left && !r.cursor_middle && !r.cursor_right,
            r.dragging == DragMode::Idle,
            !r.win_key && !r.win_tabbing,
            r.next_id == 1,
            r.next_x == 4 && r.next_y == 32,
            r.windows@.len() == 0,
            r.redraws@ == seq![r.screen_rect_spec()],
    {
        let mut redraws: Vec<Rect> = Vec::new();
        let screen = Rect::new(0, 0, width, height);
        redraws.push(screen);
        let r = OrbitalScheme {
            width,
            height,
            backgrounds,
            background_i: 0,
            cursor_width,
            cursor_height,
            cursor_x: 0,
            cursor_y: 0,
            cursor_left: false,
            cursor_middle: false,
            cursor_right: false,
            dragging: DragMode::Idle,
            win_key: false,
            win_tabbing: false,
            next_id: 1,
            next_x: 4,
            next_y: 32,
            windows: Vec::new(),
            redraws,
        };
        assert(r.redraws@ =~= seq![r.screen_rect_spec()]);
        r
    }

    pub fn screen_rect(&self) -> (r: Rect)
        requires
            self.wf(),
        ensures
            r == self.screen_rect_spec(),
            r.wf(),
    {
        Rect::new(0, 0, self.width, self.height)
    }

    pub fn cursor_rect(&self) -> (r: Rect)
        ensures
            r == self.cursor_rect_spec(),
            r.wf(),
    {
        Rect::new(self.cursor_x, self.cursor_y, self.cursor_width, self.cursor_height)
    }

    pub fn background_rect(&self) -> (r: Rect)
        requires
            self.wf(),
        ensures
            r == self.background_rect_spec(),
            r.wf(),
    {
        if self.background_i < self.backgrounds.len() {
            let (w, h) = self.backgrounds[self.background_i];
            let x = self.width as i64 / 2 - w as i64 / 2;
            let y = self.height as i64 / 2 - h as i64 / 2;
            Rect { x, y, w: w as i64, h: h as i64 }
        } else {
            Rect { x: -1, y: -1, w: 0, h: 0 }
        }
    }

    /// Index of the window with this id, if one is open.
    pub fn find(&self, id: usize) -> (r: Option<usize>)
        ensures
            r is Some ==> r->0 < self.windows@.len() && self.windows@[r->0 as int].id == id,
            r is None ==> !has_id(self.windows@, id),
    {
        let mut i: usize = 0;
        while i < self.windows.len()
            invariant
                i <= self.windows@.len(),
                forall|j: int| 0 <= j < i ==> (#[trigger] self.windows@[j]).id != id,
            decreases self.windows@.len() - i,
        {
            if self.windows[i].id == id {
                return Some(i);
            }
            i = i + 1;
        }
        None
    }

    /// Damages the title bar and client area of window `i`.
    fn schedule_window(&mut self, i: usize)
        requires
            old(self).wf(),
            i < old(self).windows@.len(),
        ensures
            final(self).wf(),
            final(self).redraws@ == schedule_window_spec(old(self).redraws@, old(self).windows@[i as int]),
            final(self).windows == old(self).windows,
            final(self).unchanged_but_redraws(*old(self)),
    {
        let t = self.windows[i].title_rect();
        let c = self.windows[i].rect();
        schedule(&mut self.redraws, t);
        schedule(&mut self.redraws, c);
    }

    /// Every field but the damage list and the windows is the same.
    pub open spec fn same_pointer_state(&self, o: OrbitalScheme) -> bool {
        &&& self.width == o.width
        &&& self.height == o.height
        &&& self.backgrounds == o.backgrounds
        &&& self.background_i == o.background_i
        &&& self.cursor_width == o.cursor_width
        &&& self.cursor_height == o.cursor_height
        &&& self.cursor_x == o.cursor_x
        &&& self.cursor_y == o.cursor_y
        &&& self.cursor_left == o.cursor_left
        &&& self.cursor_middle == o.cursor_middle
        &&& self.cursor_right == o.cursor_right
        &&& self.dragging == o.dragging
        &&& self.win_key == o.win_key
        &&& self.win_tabbing == o.win_tabbing
        &&& self.next_id == o.next_id
        &&& self.next_x == o.next_x
        &&& self.next_y == o.next_y
    }

    pub open spec fn unchanged_but_redraws(&self, o: OrbitalScheme) -> bool {
        self.same_pointer_state(o) && self.windows == o.windows
    }

    /// Queues event `e` on window `i`.
    fn deliver(&mut self, i: usize, e: Event)
        requires
            old(self).wf(),
            i < old(self).windows@.len(),
        ensures
            final(self).wf(),
            final(self).same_pointer_state(*old(self)),
            final(self).redraws == old(self).redraws,
            final(self).windows@.len() == old(self).windows@.len(),
            forall|j: int| 0 <= j < final(self).windows@.len() && j != i ==>
                #[trigger] final(self).windows@[j] == old(self).windows@[j],
            same_but_events(final(self).windows@[i as int], old(self).windows@[i as int]),
            final(self).windows@[i as int].events@ == old(self).windows@[i as int].events@.push(e),
    {
        let mut w = self.windows.remove(i);
        w.event(e);
        self.windows.insert(i, w);
        proof {
            let ws = self.windows@;
            let o = old(self).windows@;
            assert forall|a: int, b: int|
                0 <= a < ws.len() && 0 <= b < ws.len() && (#[trigger] ws[a]).id == (#[trigger] ws[b]).id
                implies a == b by {
                assert(ws[a].id == o[a].id);
                assert(ws[b].id == o[b].id);
            }
        }
    }

    /// Takes the window with this id out of the stack.
    fn remove_window(&mut self, id: usize) -> (r: Option<Window>)
        requires
            old(self).wf(),
        ensures
            final(self).wf(),
            final(self).same_pointer_state(*old(self)),
            final(self).redraws == old(self).redraws,
            final(self).windows@ == without(old(self).windows@, id),
            r is Some <==> has_id(old(self).windows@, id),
            r is Some ==> r->0.id == id,
    {
        proof {
            lemma_without_unique(old(self).windows@, id);
        }
        match self.find(id) {
            Some(i) => {
                let w = self.windows.remove(i);
                proof {
                    let ws = old(self).windows@;
                    let k = choose|j: int| 0 <= j < ws.len() && (#[trigger] ws[j]).id == id;
                    assert(k == i);
                }
                Some(w)
            },
            None => None,
        }
    }

    /// Opens a window described by `url`: `flags/x/y/width/height/title`.
    /// Flags `a` and `r` make it asynchronous and resizable; a missing or
    /// unreadable number is 0; the title is the rest of the url. Where `x` and
    /// `y` are both negative the window is placed by the cascade. The new window
    /// takes the focus, and both it and the window that loses the focus are damaged.
    #[verifier::rlimit(100)]
    #[verifier::spinoff_prover]
    pub fn open(&mut self, url: &[u8], flags: usize, uid: u32, gid: u32) -> (r: Result<usize, SchemeError>)
        requires
            old(self).wf(),
        ensures
            final(self).wf(),
            r is Err <==> !utf8_ok(url@),
            all_ascii(url@) ==> r is Ok,
            r is Err ==> r->Err_0 == SchemeError::InvalidArgument && *final(self) == *old(self),
            r is Ok ==> ({
                let (asy, res, px, py, pw, ph, title) = opened_fields(url@);
                let cascaded = px < 0 && py < 0;
                let w = final(self).windows@[0];
                let s1 = if old(self).windows@.len() > 0 {
                    schedule_window_spec(old(self).redraws@, old(self).windows@[0])
                } else {
                    old(self).redraws@
                };
                &&& r->Ok_0 == old(self).next_id
                &&& final(self).next_id == next_id_after(old(self).next_id)
                &&& w.id == old(self).next_id
                &&& w.asynchronous == asy
                &&& w.resizable == res
                &&& w.x == (if cascaded { old(self).next_x } else { px })
                &&& w.y == (if cascaded { old(self).next_y } else { py })
                &&& w.width == pw
                &&& w.height == ph
                &&& w.title@ == title
                &&& w.events@.len() == 0
                &&& final(self).next_x == (if cascaded { cascade(old(self).next_x as int, old(self).width as int) } else { old(self).next_x as int })
                &&& final(self).next_y == (if cascaded { cascade(old(self).next_y as int, old(self).height as int) } else { old(self).next_y as int })
                &&& final(self).windows@.drop_first() == without(old(self).windows@, old(self).next_id)
                &&& !has_id(old(self).windows@, old(self).next_id) ==> final(self).windows@.drop_first() == old(self).windows@
                    && final(self).order() == seq![old(self).next_id].add(old(self).order())
                &&& !has_id(final(self).windows@.drop_first(), old(self).next_id)
                &&& final(self).redraws@ == schedule_window_spec(s1, w)
                &&& final(self).dragging == old(self).dragging
                &&& final(self).cursor_x == old(self).cursor_x
                &&& final(self).cursor_y == old(self).cursor_y
                &&& final(self).win_tabbing == old(self).win_tabbing
                &&& final(self).win_key == old(self).win_key
                &&& final(self).background_i == old(self).background_i
            }),
    {
        if !is_utf8(url) {
            return Err(SchemeError::InvalidArgument);
        }
        let (_, e0) = first_field(url, 47u8);
        let asy = contains_byte(url, e0, 97u8);
        let res = contains_byte(url, e0, 114u8);
        let (a1, e1) = next_field(url, e0, 47u8, Ghost(0nat));
        let (a2, e2) = next_field(url, e1, 47u8, Ghost(1nat));
        let (a3, e3) = next_field(url, e2, 47u8, Ghost(2nat));
        let (a4, e4) = next_field(url, e3, 47u8, Ghost(3nat));
        let (a5, _) = next_field(url, e4, 47u8, Ghost(4nat));
        let mut x = match parse_i32(url, a1, e1) { Some(v) => v, None => 0 };
        let mut y = match parse_i32(url, a2, e2) { Some(v) => v, None => 0 };
        let width = match parse_i32(url, a3, e3) { Some(v) => v, None => 0 };
        let height = match parse_i32(url, a4, e4) { Some(v) => v, None => 0 };
        let title = copy_range(url, a5, url.len());

        let id = self.next_id;
        self.next_id = if self.next_id >= isize::MAX as usize { 1 } else { self.next_id + 1 };

        if x < 0 && y < 0 {
            x = self.next_x;
            y = self.next_y;
            self.next_x = if self.next_x as i64 + 40 >= self.width as i64 { 20 } else { self.next_x + 20 };
            self.next_y = if self.next_y as i64 + 40 >= self.height as i64 { 20 } else { self.next_y + 20 };
        }

        if self.windows.len() > 0 {
            self.schedule_window(0);
        }
        let _ = self.remove_window(id);
        let window = Window::new(id, x, y, width, height, title, asy, res);
        let t = window.title_rect();
        let c = window.rect();
        schedule(&mut self.redraws, t);
        schedule(&mut self.redraws, c);
        let ghost before = self.windows@;
        self.windows.insert(0, window);
        proof {
            let ws = self.windows@;
            assert(ws.drop_first() =~= before);
            assert forall|a: int, b: int|
                0 <= a < ws.len() && 0 <= b < ws.len() && (#[trigger] ws[a]).id == (#[trigger] ws[b]).id
                implies a == b by {
                if a > 0 {
                    assert(ws[a] == before[a - 1]);
                }
                if b > 0 {
                    assert(ws[b] == before[b - 1]);
                }
                if a == 0 && b > 0 {
                    assert(has_id(before, id));
                }
                if b == 0 && a > 0 {
                    assert(has_id(before, id));
                }
            }
        }
        Ok(id)
    }

    /// Closes the window with this id and damages the area it held; where it
    /// had the focus, the window that gains it is damaged too.
    pub fn close(&mut self, id: usize) -> (r: Result<usize, SchemeError>)
        requires
            old(self).wf(),
        ensures
            final(self).wf(),
            r is Err <==> !has_id(old(self).windows@, id),
            r is Err ==> r->Err_0 == SchemeError::BadHandle && *final(self) == *old(self),
            r is Ok ==> ({
                let k = choose|i: int| 0 <= i < old(self).windows@.len() && (#[trigger] old(self).windows@[i]).id == id;
                let ws = final(self).windows@;
                let s1 = if k == 0 && ws.len() > 0 {
                    schedule_window_spec(old(self).redraws@, ws[0])
                } else {
                    old(self).redraws@
                };
                &&& r->Ok_0 == 0
                &&& ws == without(old(self).windows@, id)
                &&& ws == old(self).windows@.remove(k)
                &&& final(self).redraws@ == schedule_window_spec(s1, old(self).windows@[k])
                &&& final(self).same_pointer_state(*old(self))
            }),
    {
        let i = match self.find(id) {
            Some(i) => i,
            None => return Err(SchemeError::BadHandle),
        };
        proof {
            let ws = old(self).windows@;
            let k = choose|j: int| 0 <= j < ws.len() && (#[trigger] ws[j]).id == id;
            assert(k == i);
            lemma_without_unique(ws, id);
        }
        let w = self.windows.remove(i);
        if i == 0 && self.windows.len() > 0 {
            self.schedule_window(0);
        }
        let t = w.title_rect();
        let c = w.rect();
        schedule(&mut self.redraws, t);
        schedule(&mut self.redraws, c);
        Ok(0)
    }

    /// Takes every event queued for the window, oldest first; an empty queue would block.
    pub fn read(&mut self, id: usize) -> (r: Result<Vec<Event>, SchemeError>)
        requires
            old(self).wf(),
        ensures
            final(self).wf(),
            !has_id(old(self).windows@, id) ==> r == Err::<Vec<Event>, SchemeError>(SchemeError::BadHandle) && *final(self) == *old(self),
            has_id(old(self).windows@, id) ==> ({
                let k = choose|i: int| 0 <= i < old(self).windows@.len() && (#[trigger] old(self).windows@[i]).id == id;
                let w = old(self).windows@[k];
                &&& w.events@.len() == 0 ==> r == Err::<Vec<Event>, SchemeError>(SchemeError::WouldBlock) && *final(self) == *old(self)
                &&& w.events@.len() > 0 ==> {
                    &&& r is Ok
                    &&& r->Ok_0@ == w.events@
                    &&& final(self).windows@.len() == old(self).windows@.len()
                    &&& forall|j: int| 0 <= j < final(self).windows@.len() && j != k ==>
                        #[trigger] final(self).windows@[j] == old(self).windows@[j]
                    &&& same_but_events(final(self).windows@[k], w)
                    &&& final(self).windows@[k].events@.len() == 0
                    &&& final(self).redraws == old(self).redraws
                    &&& final(self).same_pointer_state(*old(self))
                }
            }),
    {
        let i = match self.find(id) {
            Some(i) => i,
            None => return Err(SchemeError::BadHandle),
        };
        proof {
            let ws = old(self).windows@;
            let k = choose|j: int| 0 <= j < ws.len() && (#[trigger] ws[j]).id == id;
            assert(k == i);
        }
        if self.windows[i].events.len() == 0 {
            return Err(SchemeError::WouldBlock);
        }
        let mut w = self.windows.remove(i);
        let events = w.take_events();
        self.windows.insert(i, w);
        proof {
            let ws = self.windows@;
            let o = old(self).windows@;
            assert forall|a: int, b: int|
                0 <= a < ws.len() && 0 <= b < ws.len() && (#[trigger] ws[a]).id == (#[trigger] ws[b]).id
                implies a == b by {
                assert(ws[a].id == o[a].id);
                assert(ws[b].id == o[b].id);
            }
        }
        Ok(events)
    }

    /// Registers interest in the window's events: its id back where it is open.
    pub fn fevent(&mut self, id: usize, flags: usize) -> (r: Result<usize, SchemeError>)
        requires
            old(self).wf(),
        ensures
            *final(self) == *old(self),
            has_id(old(self).windows@, id) ==> r == Ok::<usize, SchemeError>(id),
            !has_id(old(self).windows@, id) ==> r == Err::<usize, SchemeError>(SchemeError::BadHandle),
    {
        match self.find(id) {
            Some(_) => Ok(id),
            None => Err(SchemeError::BadHandle),
        }
    }

    /// The client has finished drawing: damages the window's client area.
    pub fn fsync(&mut self, id: usize) -> (r: Result<usize, SchemeError>)
        requires
            old(self).wf(),
        ensures
            final(self).wf(),
            !has_id(old(self).windows@, id) ==> r == Err::<usize, SchemeError>(SchemeError::BadHandle) && *final(self) == *old(self),
            has_id(old(self).windows@, id) ==> ({
                let k = choose|i: int| 0 <= i < old(self).windows@.len() && (#[trigger] old(self).windows@[i]).id == id;
                &&& r == Ok::<usize, SchemeError>(0)
                &&& final(self).redraws@ == schedule_spec(old(self).redraws@, old(self).windows@[k].rect_spec())
                &&& final(self).unchanged_but_redraws(*old(self))
            }),
    {
        let i = match self.find(id) {
            Some(i) => i,
            None => return Err(SchemeError::BadHandle),
        };
        proof {
            let ws = old(self).windows@;
            let k = choose|j: int| 0 <= j < ws.len() && (#[trigger] ws[j]).id == id;
            assert(k == i);
        }
        let c = self.windows[i].rect();
        schedule(&mut self.redraws, c);
        Ok(0)
    }

    /// Handles a client message to the window with this id (see `written`).
    #[verifier::rlimit(40)]
    pub fn write(&mut self, id: usize, buf: &[u8]) -> (r: Result<usize, SchemeError>)
        requires
            old(self).wf(),
        ensures
            final(self).wf(),
            !has_id(old(self).windows@, id) ==> r == Err::<usize, SchemeError>(SchemeError::BadHandle),
            has_id(old(self).windows@, id) && all_ascii(buf@) && known_command(buf@) ==> r is Ok,
            has_id(old(self).windows@, id) && !(utf8_ok(buf@) && known_command(buf@)) ==> r
                == Err::<usize, SchemeError>(SchemeError::InvalidArgument),
            r is Err ==> *final(self) == *old(self),
            has_id(old(self).windows@, id) && utf8_ok(buf@) && known_command(buf@) ==> ({
                let k = choose|i: int| 0 <= i < old(self).windows@.len() && (#[trigger] old(self).windows@[i]).id == id;
                let w = old(self).windows@[k];
                let n = final(self).windows@[k];
                &&& r == Ok::<usize, SchemeError>(buf@.len() as usize)
                &&& final(self).windows@.len() == old(self).windows@.len()
                &&& forall|j: int| 0 <= j < final(self).windows@.len() && j != k ==>
                    #[trigger] final(self).windows@[j] == old(self).windows@[j]
                &&& written(w, buf@, n)
                &&& final(self).redraws@ == write_damage(old(self).redraws@, w, buf@, n)
                &&& final(self).same_pointer_state(*old(self))
            }),
    {
        let i = match self.find(id) {
            Some(i) => i,
            None => return Err(SchemeError::BadHandle),
        };
        proof {
            let ws = old(self).windows@;
            let k = choose|j: int| 0 <= j < ws.len() && (#[trigger] ws[j]).id == id;
            assert(k == i);
        }
        if !is_utf8(buf) {
            return Err(SchemeError::InvalidArgument);
        }
        let (_, e0) = first_field(buf, 44u8);
        let (a1, e1) = next_field(buf, e0, 44u8, Ghost(0nat));
        let (a2, e2) = next_field(buf, e1, 44u8, Ghost(1nat));
        let ghost cmd = field(buf@, 0, 44u8);
        let is_p = e0 == 1 && buf[0] == 80u8;
        let is_s = e0 == 1 && buf[0] == 83u8;
        let is_t = e0 == 1 && buf[0] == 84u8;
        proof {
            assert(cmd =~= buf@.subrange(0, e0 as int));
            assert(seq![80u8].len() == 1 && seq![83u8].len() == 1 && seq![84u8].len() == 1);
            assert(seq![80u8][0] == 80u8 && seq![83u8][0] == 83u8 && seq![84u8][0] == 84u8);
            if e0 == 1 {
                assert(cmd.len() == 1 && cmd[0] == buf@[0]);
                assert(is_p ==> cmd =~= seq![80u8]);
                assert(is_s ==> cmd =~= seq![83u8]);
                assert(is_t ==> cmd =~= seq![84u8]);
            }
        }
        if !(is_p || is_s || is_t) {
            return Err(SchemeError::InvalidArgument);
        }
        let ghost w0 = self.windows@[i as int];
        let ghost s0 = self.redraws@;
        if is_p || is_s {
            self.schedule_window(i);
        }
        let mut w = self.windows.remove(i);
        if is_p {
            w.x = match parse_i32(buf, a1, e1) { Some(v) => v, None => w.x };
            w.y = match parse_i32(buf, a2, e2) { Some(v) => v, None => w.y };
        } else if is_s {
            w.width = match parse_i32(buf, a1, e1) { Some(v) => v, None => w.width };
            w.height = match parse_i32(buf, a2, e2) { Some(v) => v, None => w.height };
        } else {
            w.title = copy_range(buf, a1, e1);
        }
        if is_t {
            let t = w.title_rect();
            schedule(&mut self.redraws, t);
        } else {
            let t = w.title_rect();
            let c = w.rect();
            schedule(&mut self.redraws, t);
            schedule(&mut self.redraws, c);
        }
        self.windows.insert(i, w);
        proof {
            lemma_update_unique(old(self).windows@, i as int, self.windows@[i as int]);
            assert(self.windows@ =~= old(self).windows@.update(i as int, self.windows@[i as int]));
        }
        Ok(buf.len())
    }

    /// Moves the focus from the front window to the next one; the old front goes to the back.
    pub fn win_tab(&mut self)
        requires
            old(self).wf(),
        ensures
            final(self).wf(),
            tab_outcome(*old(self), *final(self)),
            same_settings(*final(self), *old(self)),
            same_cursor(*final(self), *old(self)),
    {
        if self.windows.len() > 1 {
            self.dragging = DragMode::Idle;
            self.schedule_window(0);
            self.deliver(0, Event::Focus { focused: false });
            let ghost mid = self.windows@;
            let w = self.windows.remove(0);
            self.windows.push(w);
            proof {
                let ws = self.windows@;
                let n = ws.len() as int;
                assert(ws =~= mid.drop_first().push(mid[0]));
                assert forall|a: int, b: int|
                    0 <= a < n && 0 <= b < n && (#[trigger] ws[a]).id == (#[trigger] ws[b]).id
                    implies a == b by {
                    let a2 = if a == n - 1 { 0 } else { a + 1 };
                    let b2 = if b == n - 1 { 0 } else { b + 1 };
                    assert(ws[a] == mid[a2]);
                    assert(ws[b] == mid[b2]);
                }
            }
            self.schedule_window(0);
            self.deliver(0, Event::Focus { focused: true });
            proof {
                assert(self.order() =~= rotate_once(old(self).order()));
            }
        }
    }

    /// A key press or release: the Win combos, or the focused window's input.
    pub fn key_event(&mut self, character: char, scancode: u8, pressed: bool)
        requires
            old(self).wf(),
        ensures
            final(self).wf(),
            key_outcome(*old(self), *final(self), character, scancode, pressed),
    {
        if scancode == K_WIN {
            self.win_key = pressed;
            if !pressed {
                self.win_tabbing = false;
            }
        } else if self.win_key {
            if pressed {
                if scancode == K_ESC {
                    if self.windows.len() > 0 {
                        self.deliver(0, Event::Quit);
                    }
                } else if scancode == K_TAB {
                    self.win_tabbing = true;
                    self.win_tab();
                } else if scancode == K_BKSP {
                    let bg = self.background_rect();
                    schedule(&mut self.redraws, bg);
                    self.background_i = if self.backgrounds.len() == 0 || self.background_i >= self.backgrounds.len() - 1 {
                        0
                    } else {
                        self.background_i + 1
                    };
                    let bg = self.background_rect();
                    schedule(&mut self.redraws, bg);
                }
            }
        } else if self.windows.len() > 0 {
            self.deliver(0, Event::Key { character, scancode, pressed });
        }
    }

    /// The first window in focus order that the point hits, and which part.
    fn hit_test(&self, px: i32, py: i32) -> (r: (usize, u8))
        ensures
            r.0 == first_hit(self.windows@, 0, px as int, py as int),
            r.0 < self.windows@.len() ==> r.1 as int == hit_kind(self.windows@[r.0 as int], px as int, py as int),
            r.0 < self.windows@.len() ==> 1 <= r.1 <= 5,
    {
        let mut i: usize = 0;
        while i < self.windows.len()
            invariant
                i <= self.windows@.len(),
                first_hit(self.windows@, i as int, px as int, py as int) == first_hit(self.windows@, 0, px as int, py as int),
            decreases self.windows@.len() - i,
        {
            let w = &self.windows[i];
            let (x, y) = (px as i64, py as i64);
            let k: u8 = if w.rect().contains(x, y) {
                1
            } else if w.title_rect().contains(x, y) {
                2
            } else if w.right_border_rect().contains(x, y) {
                3
            } else if w.bottom_border_rect().contains(x, y) {
                4
            } else if w.bottom_right_border_rect().contains(x, y) {
                5
            } else {
                0
            };
            if k != 0 {
                return (i, k);
            }
            i = i + 1;
        }
        (i, 0)
    }

    /// Window `t` takes the focus from the front window; both are damaged and told.
    fn raise_window(&mut self, t: usize)
        requires
            old(self).wf(),
            0 < t < old(self).windows@.len(),
        ensures
            final(self).wf(),
            final(self).order() == raise(old(self).order(), t as int),
            final(self).windows@.len() == old(self).windows@.len(),
            same_but_events(final(self).windows@[0], old(self).windows@[t as int]),
            final(self).windows@[0].events@ == old(self).windows@[t as int].events@.push(Event::Focus { focused: true }),
            same_but_events(final(self).windows@[1], old(self).windows@[0]),
            final(self).windows@[1].events@ == old(self).windows@[0].events@.push(Event::Focus { focused: false }),
            forall|j: int| 1 <= j < t ==> #[trigger] final(self).windows@[j + 1] == old(self).windows@[j],
            forall|j: int| t < j < old(self).windows@.len() ==> #[trigger] final(self).windows@[j] == old(self).windows@[j],
            final(self).redraws@ == schedule_window_spec(schedule_window_spec(old(self).redraws@, old(self).windows@[0]), old(self).windows@[t as int]),
            final(self).same_pointer_state(*old(self)),
    {
        self.schedule_window(0);
        self.deliver(0, Event::Focus { focused: false });
        self.schedule_window(t);
        self.deliver(t, Event::Focus { focused: true });
        let ghost mid = self.windows@;
        let w = self.windows.remove(t);
        self.windows.insert(0, w);
        proof {
            let ws = self.windows@;
            let n = ws.len() as int;
            assert(ws =~= seq![mid[t as int]] + mid.remove(t as int));
            let src = |a: int| if a == 0 { t as int } else if a <= t { a - 1 } else { a };
            assert forall|a: int| 0 <= a < n implies #[trigger] ws[a] == mid[src(a)] by {}
            assert forall|a: int, b: int|
                0 <= a < n && 0 <= b < n && (#[trigger] ws[a]).id == (#[trigger] ws[b]).id
                implies a == b by {
                assert(ws[a] == mid[src(a)]);
                assert(ws[b] == mid[src(b)]);
            }
            assert(self.order() =~= raise(old(self).order(), t as int));
        }
    }

    /// A title drag step: the window follows the pointer and is told where it now is.
    fn drag_title(&mut self, id: usize, gx: i32, gy: i32, ex: i32, ey: i32, left: bool)
        requires
            old(self).wf(),
        ensures
            final(self).wf(),
            title_outcome(*old(self), *final(self), id, gx, gy, ex, ey, left),
            final(self).redraws@ == title_damage(*old(self), *final(self), id, gx, gy, ex, ey, left),
            same_settings(*final(self), *old(self)),
            same_cursor(*final(self), *old(self)),
    {
        if !left {
            self.dragging = DragMode::Idle;
            return;
        }
        let i = match self.find(id) {
            Some(i) => i,
            None => {
                self.dragging = DragMode::Idle;
                return;
            },
        };
        proof {
            let ws = old(self).windows@;
            let k = choose|j: int| 0 <= j < ws.len() && (#[trigger] ws[j]).id == id;
            assert(k == i);
        }
        if gx != ex || gy != ey {
            self.schedule_window(i);
            let mut w = self.windows.remove(i);
            let nx = w.x as i64 + ex as i64 - gx as i64;
            let ny = w.y as i64 + ey as i64 - gy as i64;
            w.x = if nx < i32::MIN as i64 { i32::MIN } else if nx > i32::MAX as i64 { i32::MAX } else { nx as i32 };
            w.y = if ny < i32::MIN as i64 { i32::MIN } else if ny > i32::MAX as i64 { i32::MAX } else { ny as i32 };
            let mv = Event::Move { x: w.x, y: w.y };
            w.event(mv);
            let t = w.title_rect();
            let c = w.rect();
            schedule(&mut self.redraws, t);
            schedule(&mut self.redraws, c);
            self.windows.insert(i, w);
            proof {
                lemma_update_unique(old(self).windows@, i as int, self.windows@[i as int]);
                assert(self.windows@ =~= old(self).windows@.update(i as int, self.windows@[i as int]));
                assert(self.order() =~= old(self).order());
            }
        }
        self.dragging = DragMode::Title(id, ex, ey);
    }

    /// A border drag step: the window is asked to take the size the pointer gives it.
    fn drag_border(&mut self, id: usize, off_x: Option<i32>, off_y: Option<i32>, ex: i32, ey: i32, left: bool)
        requires
            old(self).wf(),
        ensures
            final(self).wf(),
            border_outcome(*old(self), *final(self), id, off_x, off_y, ex, ey, left),
            final(self).redraws == old(self).redraws,
            same_settings(*final(self), *old(self)),
            same_cursor(*final(self), *old(self)),
    {
        if !left {
            self.dragging = DragMode::Idle;
            return;
        }
        let i = match self.find(id) {
            Some(i) => i,
            None => {
                self.dragging = DragMode::Idle;
                return;
            },
        };
        proof {
            let ws = old(self).windows@;
            let k = choose|j: int| 0 <= j < ws.len() && (#[trigger] ws[j]).id == id;
            assert(k == i);
        }
        let w = &self.windows[i];
        let nw: i64 = match off_x { Some(o) => ex as i64 - o as i64 - w.x as i64, None => w.width as i64 };
        let nh: i64 = match off_y { Some(o) => ey as i64 - o as i64 - w.y as i64, None => w.height as i64 };
        let wants = match (off_x, off_y) {
            (Some(_), Some(_)) => nw > 0 && nh > 0 && (nw != w.width as i64 || nh != w.height as i64),
            (Some(_), None) => nw > 0 && nw != w.width as i64,
            _ => nh > 0 && nh != w.height as i64,
        };
        if wants {
            self.deliver(i, Event::Resize { width: nw, height: nh });
        }
        proof {
            assert(self.order() =~= old(self).order());
        }
    }

    /// A pointer event with no drag under way: the window under the pointer gets
    /// the event, a press may begin a drag, and a press raises the window.
    #[verifier::rlimit(60)]
    fn mouse_idle(&mut self, ex: i32, ey: i32, l: bool, m: bool, r: bool)
        requires
            old(self).wf(),
            old(self).dragging == DragMode::Idle,
        ensures
            final(self).wf(),
            idle_outcome(*old(self), *final(self), ex, ey, l, m, r),
            final(self).redraws@ == idle_damage(*old(self), ex, ey, l, m, r),
            same_settings(*final(self), *old(self)),
            same_cursor(*final(self), *old(self)),
    {
        let (h, kind) = self.hit_test(ex, ey);
        if h >= self.windows.len() {
            return;
        }
        let edge_left = l && !self.cursor_left;
        let edge_any = edge_left || (m && !self.cursor_middle) || (r && !self.cursor_right);
        let ghost o = self.windows@;
        let mut target: usize = 0;
        if kind == 1 {
            let w = &self.windows[h];
            let mx = ex as i64 - w.x as i64;
            let my = ey as i64 - w.y as i64;
            let cx: i32 = if mx < i32::MIN as i64 { i32::MIN } else if mx > i32::MAX as i64 { i32::MAX } else { mx as i32 };
            let cy: i32 = if my < i32::MIN as i64 { i32::MIN } else if my > i32::MAX as i64 { i32::MAX } else { my as i32 };
            self.deliver(h, Event::Mouse { x: cx, y: cy, left_button: l, middle_button: m, right_button: r });
            if edge_any {
                target = h;
            }
        } else if edge_left {
            target = h;
            let w = &self.windows[h];
            let id = w.id;
            if kind == 2 {
                if w.exit_contains(ex, ey) {
                    self.deliver(h, Event::Quit);
                } else {
                    self.dragging = DragMode::Title(id, ex, ey);
                }
            } else {
                let ox = ex as i64 - (w.x as i64 + w.width as i64);
                let oy = ey as i64 - (w.y as i64 + w.height as i64);
                let cx: i32 = if ox < i32::MIN as i64 { i32::MIN } else if ox > i32::MAX as i64 { i32::MAX } else { ox as i32 };
                let cy: i32 = if oy < i32::MIN as i64 { i32::MIN } else if oy > i32::MAX as i64 { i32::MAX } else { oy as i32 };
                self.dragging = if kind == 3 {
                    DragMode::RightBorder(id, cx)
                } else if kind == 4 {
                    DragMode::BottomBorder(id, cy)
                } else {
                    DragMode::BottomRightBorder(id, cx, cy)
                };
            }
        }
        proof {
            assert(self.order() =~= old(self).order());
            let kk = hit_kind(o[h as int], ex as int, ey as int);
            assert(kk == kind as int);
            let e = idle_event(o[h as int], kk, ex, ey, l, m, r, edge_left);
            assert(same_but_events(self.windows@[h as int], o[h as int]));
            assert(self.windows@[h as int].events@ == pushed_opt(o[h as int].events@, e));
            assert(target == (if (kk == 1 && edge_any) || (kk >= 2 && edge_left) { h as int } else { 0 }));
        }
        if target > 0 {
            self.raise_window(target);
        }
    }

    /// A pointer event: hit testing, focus, drags, and the cursor's damage.
    pub fn mouse_event(&mut self, ex: i32, ey: i32, l: bool, m: bool, r: bool)
        requires
            old(self).wf(),
        ensures
            final(self).wf(),
            mouse_outcome(*old(self), *final(self), ex, ey, l, m, r),
    {
        match self.dragging {
            DragMode::Idle => self.mouse_idle(ex, ey, l, m, r),
            DragMode::Title(id, gx, gy) => self.drag_title(id, gx, gy, ex, ey, l),
            DragMode::RightBorder(id, ox) => self.drag_border(id, Some(ox), None, ex, ey, l),
            DragMode::BottomBorder(id, oy) => self.drag_border(id, None, Some(oy), ex, ey, l),
            DragMode::BottomRightBorder(id, ox, oy) => self.drag_border(id, Some(ox), Some(oy), ex, ey, l),
        }
        let ghost s0 = self.redraws@;
        if ex != self.cursor_x || ey != self.cursor_y {
            let c0 = self.cursor_rect();
            schedule(&mut self.redraws, c0);
            let ghost s1 = self.redraws@;
            self.cursor_x = ex;
            self.cursor_y = ey;
            let c1 = self.cursor_rect();
            schedule(&mut self.redraws, c1);
            proof {
                assert forall|px: int, py: int|
                    c0.contains_spec(px, py) || c1.contains_spec(px, py) implies #[trigger] covers(self.redraws@, px, py) by {
                    if c0.contains_spec(px, py) {
                        assert(covers(s1, px, py));
                    }
                }
            }
        }
        self.cursor_left = l;
        self.cursor_middle = m;
        self.cursor_right = r;
    }

    /// The rectangle of the window switcher for the windows now open.
    pub fn window_list_rect(&self) -> (r: Rect)
        requires
            self.wf(),
        ensures
            r == window_list_rect_spec(self.width as int, self.height as int, self.windows@.len() as int),
            r.wf(),
    {
        let n = if self.windows.len() > MAX_LISTED { MAX_LISTED } else { self.windows.len() };
        let h = n as i64 * 20 + 4;
        Rect { x: self.width as i64 / 2 - 200, y: self.height as i64 / 2 - h / 2, w: 400, h }
    }

    /// Draws the pending damage into the framebuffer `fb`: each rectangle,
    /// clipped to the screen, gets the composite of background color,
    /// background image, windows back to front and cursor (see
    /// `composite_spec`); `clients` holds the windows' pixels in focus order and
    /// `background` the active background image. While the window switcher
    /// shows it is drawn on top and its rectangle damaged again, so that it is
    /// cleared once it goes. Returns the rectangles drawn and, while the
    /// switcher shows, its rows with the labels that the caller renders.
    pub fn redraw(&mut self, fb: &mut Image, clients: &Vec<Image>, decorations: &Decorations, background: &Image, cursor: &Image) -> (r: (Vec<Rect>, Vec<(Rect, Vec<u8>)>))
        requires
            old(self).wf(),
            old(fb).wf(),
            old(fb).width == old(self).width as usize,
            old(fb).height == old(self).height as usize,
            clients@.len() == old(self).windows@.len(),
            forall|i: int| 0 <= i < clients@.len() ==> (#[trigger] clients@[i]).wf(),
            background.wf(),
            cursor.wf(),
            decorations.wf(),
        ensures
            final(self).wf(),
            r.0@ == clip_all(old(self).redraws@, old(self).screen_rect_spec()),
            final(self).redraws@ == (if old(self).win_tabbing {
                seq![window_list_rect_spec(old(self).width as int, old(self).height as int, old(self).windows@.len() as int)]
            } else {
                Seq::empty()
            }),
            final(self).unchanged_but_redraws(*old(self)),
            final(fb).wf(),
            final(fb).width == old(fb).width,
            final(fb).height == old(fb).height,
            forall|px: int, py: int| 0 <= px < old(fb).width && 0 <= py < old(fb).height ==>
                #[trigger] final(fb).pixel(px, py) == (
                    if old(self).win_tabbing && old(self).windows@.len() > 0 && old(self).highlight_rect_spec().contains_spec(px, py) {
                        BAR_HIGHLIGHT_COLOR
                    } else if old(self).win_tabbing && window_list_rect_spec(old(self).width as int, old(self).height as int, old(self).windows@.len() as int).contains_spec(px, py) {
                        BAR_COLOR
                    } else if covers(r.0@, px, py) {
                        old(self).composite_spec(clients@, *decorations, *background, *cursor, px, py)
                    } else {
                        old(fb).pixel(px, py)
                    }),
            r.1@.len() == (if old(self).win_tabbing { listed(old(self).windows@.len() as int) } else { 0 }),
            forall|i: int| 0 <= i < r.1@.len() ==> {
                &&& (#[trigger] r.1@[i]).0 == row_rect_spec(window_list_rect_spec(old(self).width as int, old(self).height as int, old(self).windows@.len() as int), i)
                &&& r.1@[i].1@ == old(self).windows@[i].label_spec()
            },
    {
        let screen = self.screen_rect();
        let mut out: Vec<Rect> = Vec::new();
        let mut i: usize = 0;
        while i < self.redraws.len()
            invariant
                *self == *old(self),
                self.wf(),
                screen == old(self).screen_rect_spec(),
                screen.wf(),
                all_wf(self.redraws@),
                i <= self.redraws@.len(),
                out@ == clip_all(self.redraws@.take(i as int), screen),
                fb.wf(),
                fb.width == old(fb).width && fb.height == old(fb).height,
                fb.width == self.width as usize && fb.height == self.height as usize,
                clients@.len() == self.windows@.len(),
                forall|k: int| 0 <= k < clients@.len() ==> (#[trigger] clients@[k]).wf(),
                background.wf(),
                cursor.wf(),
                decorations.wf(),
                forall|px: int, py: int| 0 <= px < fb.width && 0 <= py < fb.height ==>
                    #[trigger] fb.pixel(px, py) == (if covers(out@, px, py) {
                        self.composite_spec(clients@, *decorations, *background, *cursor, px, py)
                    } else {
                        old(fb).pixel(px, py)
                    }),
            decreases self.redraws@.len() - i,
        {
            let c = self.redraws[i].intersection(&screen);
            proof {
                let t = self.redraws@.take(i + 1);
                assert(t.drop_last() =~= self.redraws@.take(i as int));
                assert(t.last() == self.redraws@[i as int]);
            }
            if !c.is_empty() {
                let ghost prev = out@;
                let ghost f0 = *fb;
                self.paint_rect(fb, c, clients, decorations, background, cursor);
                out.push(c);
                proof {
                    assert forall|px: int, py: int| 0 <= px < fb.width && 0 <= py < fb.height implies
                        #[trigger] fb.pixel(px, py) == (if covers(out@, px, py) {
                            self.composite_spec(clients@, *decorations, *background, *cursor, px, py)
                        } else {
                            old(fb).pixel(px, py)
                        }) by {
                        assert(f0.pixel(px, py) == (if covers(prev, px, py) {
                            self.composite_spec(clients@, *decorations, *background, *cursor, px, py)
                        } else {
                            old(fb).pixel(px, py)
                        }));
                        if covers(prev, px, py) {
                            let k = choose|k: int| 0 <= k < prev.len() && (#[trigger] prev[k]).contains_spec(px, py);
                            assert(out@[k] == prev[k]);
                        }
                        if c.contains_spec(px, py) {
                            assert(out@[prev.len() as int] == c);
                        }
                        if covers(out@, px, py) && !c.contains_spec(px, py) {
                            let k = choose|k: int| 0 <= k < out@.len() && (#[trigger] out@[k]).contains_spec(px, py);
                            assert(k < prev.len());
                            assert(prev[k] == out@[k]);
                        }
                    }
                }
            }
            i = i + 1;
        }
        proof {
            assert(self.redraws@.take(i as int) =~= self.redraws@);
        }
        self.redraws = Vec::new();
        let mut rows: Vec<(Rect, Vec<u8>)> = Vec::new();
        if self.win_tabbing {
            rows = self.draw_window_list(fb);
            assert(self.redraws@ =~= seq![window_list_rect_spec(old(self).width as int, old(self).height as int, old(self).windows@.len() as int)]);
        }
        assert(self.redraws@ =~= (if old(self).win_tabbing {
                seq![window_list_rect_spec(old(self).width as int, old(self).height as int, old(self).windows@.len() as int)]
            } else {
                Seq::empty()
            }));
        (out, rows)
    }

    /// Hands an input event to the compositor: keys, pointer motion and
    /// buttons, and scrolling, which goes to the focused window. Other kinds
    /// come from the compositor itself and are ignored here.
    pub fn event(&mut self, e: Event)
        requires
            old(self).wf(),
        ensures
            final(self).wf(),
            final(self).windows@.len() == old(self).windows@.len(),
            match e {
                Event::Key { character, scancode, pressed } => key_outcome(*old(self), *final(self), character, scancode, pressed),
                Event::Mouse { x, y, left_button, middle_button, right_button } =>
                    mouse_outcome(*old(self), *final(self), x, y, left_button, middle_button, right_button),
                Event::Scroll { .. } => if old(self).windows@.len() > 0 {
                    &&& same_but_events(final(self).windows@[0], old(self).windows@[0])
                    &&& final(self).windows@[0].events@ == old(self).windows@[0].events@.push(e)
                    &&& forall|j: int| 1 <= j < final(self).windows@.len() ==> #[trigger] final(self).windows@[j] == old(self).windows@[j]
                    &&& *final(self) == (OrbitalScheme { windows: final(self).windows, ..*old(self) })
                } else {
                    *final(self) == *old(self)
                },
                _ => *final(self) == *old(self),
            },
    {
        match e {
            Event::Key { character, scancode, pressed } => self.key_event(character, scancode, pressed),
            Event::Mouse { x, y, left_button, middle_button, right_button } =>
                self.mouse_event(x, y, left_button, middle_button, right_button),
            Event::Scroll { .. } => {
                if self.windows.len() > 0 {
                    self.deliver(0, e);
                }
            },
            _ => {},
        }
    }

    /// The focus order and the set of open windows name the same ids, each once.
    pub proof fn lemma_order_matches_windows(&self)
        requires
            self.wf(),
        ensures
            self.order().to_set() == self.window_ids(),
            self.order().no_duplicates(),
    {
        let o = self.order();
        assert forall|id: usize| o.to_set().contains(id) <==> self.window_ids().contains(id) by {
            if o.to_set().contains(id) {
                let i = choose|i: int| 0 <= i < o.len() && o[i] == id;
                assert(self.windows@[i].id == id);
            }
            if has_id(self.windows@, id) {
                let i = choose|i: int| 0 <= i < self.windows@.len() && (#[trigger] self.windows@[i]).id == id;
                assert(o[i] == id);
            }
        }
        assert(o.to_set() =~= self.window_ids());
        assert forall|i: int, j: int| 0 <= i < o.len() && 0 <= j < o.len() && i != j implies o[i] != o[j] by {
            assert(o[i] == self.windows@[i].id);
            assert(o[j] == self.windows@[j].id);
        }
    }

    /// The path of the window with this id (see `Window::path_spec`).
    pub fn fpath(&mut self, id: usize) -> (r: Result<Vec<u8>, SchemeError>)
        requires
            old(self).wf(),
        ensures
            *final(self) == *old(self),
            !has_id(old(self).windows@, id) ==> r is Err && r->Err_0 == SchemeError::BadHandle,
            has_id(old(self).windows@, id) ==> ({
                let k = choose|i: int| 0 <= i < old(self).windows@.len() && (#[trigger] old(self).windows@[i]).id == id;
                r is Ok && r->Ok_0@ == old(self).windows@[k].path_spec()
            }),
    {
        let i = match self.find(id) {
            Some(i) => i,
            None => return Err(SchemeError::BadHandle),
        };
        proof {
            let ws = old(self).windows@;
            let k = choose|j: int| 0 <= j < ws.len() && (#[trigger] ws[j]).id == id;
            assert(k == i);
        }
        Ok(self.windows[i].path())
    }

    /// The bar of the switcher's first entry, which stands for the focused window.
    pub open spec fn highlight_rect_spec(&self) -> Rect {
        let l = window_list_rect_spec(self.width as int, self.height as int, self.windows@.len() as int);
        Rect { x: l.x, y: (l.y + 2) as i64, w: 400, h: 20 }
    }

    /// Draws the window switcher's bars into `fb` and damages its rectangle so
    /// that it is cleared once the switcher goes. Returns one row per listed
    /// window, in focus order: where its label goes and what it reads. The
    /// glyphs are left to the caller, which holds the font.
    pub fn draw_window_list(&mut self, fb: &mut Image) -> (rows: Vec<(Rect, Vec<u8>)>)
        requires
            old(self).wf(),
            old(fb).wf(),
            old(fb).width <= 0x100_0000_0000,
            old(fb).height <= 0x100_0000_0000,
        ensures
            final(self).wf(),
            final(fb).wf(),
            final(fb).width == old(fb).width,
            final(fb).height == old(fb).height,
            forall|px: int, py: int| 0 <= px < old(fb).width && 0 <= py < old(fb).height ==>
                #[trigger] final(fb).pixel(px, py) == (
                    if old(self).windows@.len() > 0 && old(self).highlight_rect_spec().contains_spec(px, py) {
                        BAR_HIGHLIGHT_COLOR
                    } else if window_list_rect_spec(old(self).width as int, old(self).height as int, old(self).windows@.len() as int).contains_spec(px, py) {
                        BAR_COLOR
                    } else {
                        old(fb).pixel(px, py)
                    }),
            final(self).redraws@ == schedule_spec(old(self).redraws@, window_list_rect_spec(old(self).width as int, old(self).height as int, old(self).windows@.len() as int)),
            final(self).unchanged_but_redraws(*old(self)),
            rows@.len() == listed(old(self).windows@.len() as int),
            forall|i: int| 0 <= i < rows@.len() ==> {
                &&& (#[trigger] rows@[i]).0 == row_rect_spec(window_list_rect_spec(old(self).width as int, old(self).height as int, old(self).windows@.len() as int), i)
                &&& rows@[i].1@ == old(self).windows@[i].label_spec()
            },
    {
        let l = self.window_list_rect();
        let n = if self.windows.len() > MAX_LISTED { MAX_LISTED } else { self.windows.len() };
        let mut rows: Vec<(Rect, Vec<u8>)> = Vec::new();
        let mut i: usize = 0;
        while i < n
            invariant
                n == listed(self.windows@.len() as int),
                n <= self.windows@.len(),
                n <= MAX_LISTED,
                i <= n,
                l == window_list_rect_spec(self.width as int, self.height as int, self.windows@.len() as int),
                -0x1_0000_0000 <= l.y <= 0x1_0000_0000,
                rows@.len() == i,
                forall|k: int| 0 <= k < i ==> {
                    &&& (#[trigger] rows@[k]).0 == row_rect_spec(l, k)
                    &&& rows@[k].1@ == self.windows@[k].label_spec()
                },
            decreases n - i,
        {
            let row = Rect { x: l.x, y: l.y + 2 + 20 * i as i64, w: 400, h: 20 };
            rows.push((row, self.windows[i].label()));
            i = i + 1;
        }
        fb.rect_fill(l, BAR_COLOR);
        if self.windows.len() > 0 {
            let hl = Rect { x: l.x, y: l.y + 2, w: 400, h: 20 };
            fb.rect_fill(hl, BAR_HIGHLIGHT_COLOR);
        }
        schedule(&mut self.redraws, l);
        rows
    }

    /// What the screen shows at a point: the background color, the active
    /// background image, the windows back to front, and the cursor blended on top.
    pub open spec fn composite_spec(&self, clients: Seq<Image>, decorations: Decorations, background: Image, cursor: Image, px: int, py: int) -> u32 {
        let b = self.background_rect_spec();
        let base = image_at(background, b.x as int, b.y as int, px, py, BACKGROUND_COLOR);
        let win = windows_over(self.windows@, clients, decorations, 0, px, py, base);
        if self.cursor_x <= px < self.cursor_x + cursor.width && self.cursor_y <= py < self.cursor_y + cursor.height {
            crate::image::blend_spec(win, cursor.pixel(px - self.cursor_x, py - self.cursor_y))
        } else {
            win
        }
    }

    /// Paints the damage rectangle `c` (already inside the screen) of `fb`.
    #[verifier::rlimit(60)]
    fn paint_rect(&self, fb: &mut Image, c: Rect, clients: &Vec<Image>, decorations: &Decorations, background: &Image, cursor: &Image)
        requires
            self.wf(),
            c.wf(),
            old(fb).wf(),
            old(fb).width <= 0x100_0000_0000,
            old(fb).height <= 0x100_0000_0000,
            clients@.len() == self.windows@.len(),
            forall|i: int| 0 <= i < clients@.len() ==> (#[trigger] clients@[i]).wf(),
            background.wf(),
            cursor.wf(),
            decorations.wf(),
        ensures
            final(fb).wf(),
            final(fb).width == old(fb).width,
            final(fb).height == old(fb).height,
            forall|px: int, py: int| 0 <= px < old(fb).width && 0 <= py < old(fb).height ==>
                #[trigger] final(fb).pixel(px, py) == (if c.contains_spec(px, py) {
                    self.composite_spec(clients@, *decorations, *background, *cursor, px, py)
                } else {
                    old(fb).pixel(px, py)
                }),
    {
        let b = self.background_rect();
        fb.rect_fill(c, BACKGROUND_COLOR);
        fb.blit(b.x, b.y, background, c);
        let ghost base = *fb;
        assert forall|px: int, py: int| 0 <= px < fb.width && 0 <= py < fb.height implies
            #[trigger] fb.pixel(px, py) == (if c.contains_spec(px, py) {
                windows_over(self.windows@, clients@, *decorations, self.windows@.len() as int, px, py,
                    image_at(*background, b.x as int, b.y as int, px, py, BACKGROUND_COLOR))
            } else {
                old(fb).pixel(px, py)
            }) by {}
        let mut i = self.windows.len();
        while i > 0
            invariant
                self.wf(),
                c.wf(),
                fb.wf(),
                fb.width == old(fb).width && fb.height == old(fb).height,
                fb.width <= 0x100_0000_0000 && fb.height <= 0x100_0000_0000,
                clients@.len() == self.windows@.len(),
                forall|k: int| 0 <= k < clients@.len() ==> (#[trigger] clients@[k]).wf(),
                b == self.background_rect_spec(),
                decorations.wf(),
                i <= self.windows@.len(),
                forall|px: int, py: int| 0 <= px < fb.width && 0 <= py < fb.height ==>
                    #[trigger] fb.pixel(px, py) == (if c.contains_spec(px, py) {
                        windows_over(self.windows@, clients@, *decorations, i as int, px, py,
                            image_at(*background, b.x as int, b.y as int, px, py, BACKGROUND_COLOR))
                    } else {
                        old(fb).pixel(px, py)
                    }),
            decreases i,
        {
            i = i - 1;
            let w = &self.windows[i];
            let t = c.intersection(&w.title_rect());
            let ghost f0 = *fb;
            fb.rect_fill(t, if i == 0 { BAR_HIGHLIGHT_COLOR } else { BAR_COLOR });
            let icon = if i == 0 { &decorations.close } else { &decorations.close_unfocused };
            let tr = w.title_rect();
            fb.blend(tr.x + tr.w - icon.width as i64, tr.y, icon, t);
            let cr = c.intersection(&w.rect());
            fb.blit(w.x as i64, w.y as i64, &clients[i], cr);
            proof {
                assert forall|px: int, py: int| 0 <= px < fb.width && 0 <= py < fb.height implies
                    #[trigger] fb.pixel(px, py) == (if c.contains_spec(px, py) {
                        windows_over(self.windows@, clients@, *decorations, i as int, px, py,
                            image_at(*background, b.x as int, b.y as int, px, py, BACKGROUND_COLOR))
                    } else {
                        old(fb).pixel(px, py)
                    }) by {
                    assert(f0.pixel(px, py) == (if c.contains_spec(px, py) {
                        windows_over(self.windows@, clients@, *decorations, i + 1, px, py,
                            image_at(*background, b.x as int, b.y as int, px, py, BACKGROUND_COLOR))
                    } else {
                        old(fb).pixel(px, py)
                    }));
                }
            }
        }
        let ghost f1 = *fb;
        fb.blend(self.cursor_x as i64, self.cursor_y as i64, cursor, c);
        proof {
            assert forall|px: int, py: int| 0 <= px < fb.width && 0 <= py < fb.height implies
                #[trigger] fb.pixel(px, py) == (if c.contains_spec(px, py) {
                    self.composite_spec(clients@, *decorations, *background, *cursor, px, py)
                } else {
                    old(fb).pixel(px, py)
                }) by {
                assert(f1.pixel(px, py) == (if c.contains_spec(px, py) {
                    windows_over(self.windows@, clients@, *decorations, 0, px, py,
                        image_at(*background, b.x as int, b.y as int, px, py, BACKGROUND_COLOR))
                } else {
                    old(fb).pixel(px, py)
                }));
            }
        }
    }
}

} // verus!
