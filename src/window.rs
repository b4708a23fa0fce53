use vstd::prelude::*;
use crate::rect::{Rect, max_int};

verus! {

/// Height of the title bar drawn above a window's client area.
pub const TITLE_HEIGHT: i32 = 18;
/// Width of the resize strips at the right and bottom of a window.
pub const BORDER_WIDTH: i32 = 8;

/// An input or window-management event as queued for a client.
#[derive(Clone, Copy, Debug, PartialEq, Eq, Structural)]
pub enum Event {
    Key { character: char, scancode: u8, pressed: bool },
    Mouse { x: i32, y: i32, left_button: bool, middle_button: bool, right_button: bool },
    Scroll { x: i32, y: i32 },
    Focus { focused: bool },
    Quit,
    Move { x: i32, y: i32 },
    Resize { width: i64, height: i64 },
}

/// The rectangle at `(x, y)` of size `w` by `h`, a negative size taken as zero.
pub open spec fn rect_of(x: int, y: int, w: int, h: int) -> Rect {
    Rect { x: x as i64, y: y as i64, w: max_int(w, 0) as i64, h: max_int(h, 0) as i64 }
}


/// Decimal digits of `n`, most significant first.
pub open spec fn decimal(n: nat) -> Seq<u8>
    decreases n,
{
    if n < 10 {
        seq![(48 + n) as u8]
    } else {
        decimal(n / 10).push((48 + n % 10) as u8)
    }
}

/// `v` written in decimal, with a leading `-` where it is negative.
pub open spec fn signed_decimal(v: int) -> Seq<u8> {
    if v < 0 { seq![45u8] + decimal((-v) as nat) } else { decimal(v as nat) }
}

/// Appends the decimal digits of `n`.
pub(crate) fn push_decimal(out: &mut Vec<u8>, n: u64)
    ensures
        final(out)@ == old(out)@ + decimal(n as nat),
    decreases n,
{
    if n >= 10 {
        push_decimal(out, n / 10);
    }
    out.push((48 + n % 10) as u8);
    proof {
        assert(final(out)@ =~= old(out)@ + decimal(n as nat));
    }
}

/// Appends `v` in decimal.
fn push_signed(out: &mut Vec<u8>, v: i32)
    ensures
        final(out)@ == old(out)@ + signed_decimal(v as int),
{
    if v < 0 {
        out.push(45u8);
        push_decimal(out, (0 - v as i64) as u64);
        assert(final(out)@ =~= old(out)@ + signed_decimal(v as int));
    } else {
        push_decimal(out, v as u64);
    }
}

/// One client window: geometry of its client area, title, flags and pending events.
#[derive(Debug)]
pub struct Window {
    pub id: usize,
    pub x: i32,
    pub y: i32,
    pub width: i32,
    pub height: i32,
    pub title: Vec<u8>,
    pub asynchronous: bool,
    pub resizable: bool,
    pub events: Vec<Event>,
}

impl Window {
    pub open spec fn rect_spec(&self) -> Rect {
        rect_of(self.x as int, self.y as int, self.width as int, self.height as int)
    }

    pub open spec fn title_rect_spec(&self) -> Rect {
        rect_of(self.x as int, self.y - TITLE_HEIGHT, self.width as int, TITLE_HEIGHT as int)
    }

    pub open spec fn right_border_rect_spec(&self) -> Rect {
        rect_of(self.x + self.width, self.y as int, BORDER_WIDTH as int, self.height as int)
    }

    pub open spec fn bottom_border_rect_spec(&self) -> Rect {
        rect_of(self.x as int, self.y + self.height, self.width as int, BORDER_WIDTH as int)
    }

    pub open spec fn bottom_right_border_rect_spec(&self) -> Rect {
        rect_of(self.x + self.width, self.y + self.height, BORDER_WIDTH as int, BORDER_WIDTH as int)
    }

    /// The close button: the right-most square of the title bar.
    pub open spec fn exit_contains_spec(&self, px: int, py: int) -> bool {
        self.title_rect_spec().contains_spec(px, py) && px >= self.x + self.width - TITLE_HEIGHT
    }

    /// A window with an empty event queue.
    pub fn new(
        id: usize,
        x: i32,
        y: i32,
        width: i32,
        height: i32,
        title: Vec<u8>,
        asynchronous: bool,
        resizable: bool,
    ) -> (r: Window)
        ensures
            r.id == id,
            r.x == x,
            r.y == y,
            r.width == width,
            r.height == height,
            r.title@ == title@,
            r.asynchronous == asynchronous,
            r.resizable == resizable,
            r.events@.len() == 0,
    {
        Window { id, x, y, width, height, title, asynchronous, resizable, events: Vec::new() }
    }

    fn make_rect(x: i64, y: i64, w: i64, h: i64) -> (r: Rect)
        requires
            -0x1_0000_0000 <= x <= 0x1_0000_0000,
            -0x1_0000_0000 <= y <= 0x1_0000_0000,
            w <= 0x1_0000_0000,
            h <= 0x1_0000_0000,
        ensures
            r == rect_of(x as int, y as int, w as int, h as int),
            r.wf(),
    {
        Rect { x, y, w: if w < 0 { 0 } else { w }, h: if h < 0 { 0 } else { h } }
    }

    /// The client area.
    pub fn rect(&self) -> (r: Rect)
        ensures
            r == self.rect_spec(),
            r.wf(),
    {
        Self::make_rect(self.x as i64, self.y as i64, self.width as i64, self.height as i64)
    }

    /// The title bar, directly above the client area.
    pub fn title_rect(&self) -> (r: Rect)
        ensures
            r == self.title_rect_spec(),
            r.wf(),
    {
        Self::make_rect(
            self.x as i64,
            self.y as i64 - TITLE_HEIGHT as i64,
            self.width as i64,
            TITLE_HEIGHT as i64,
        )
    }

    /// The strip along the right edge of the client area.
    pub fn right_border_rect(&self) -> (r: Rect)
        ensures
            r == self.right_border_rect_spec(),
            r.wf(),
    {
        Self::make_rect(
            self.x as i64 + self.width as i64,
            self.y as i64,
            BORDER_WIDTH as i64,
            self.height as i64,
        )
    }

    /// The strip along the bottom edge of the client area.
    pub fn bottom_border_rect(&self) -> (r: Rect)
        ensures
            r == self.bottom_border_rect_spec(),
            r.wf(),
    {
        Self::make_rect(
            self.x as i64,
            self.y as i64 + self.height as i64,
            self.width as i64,
            BORDER_WIDTH as i64,
        )
    }

    /// The square at the bottom-right corner of the client area.
    pub fn bottom_right_border_rect(&self) -> (r: Rect)
        ensures
            r == self.bottom_right_border_rect_spec(),
            r.wf(),
    {
        Self::make_rect(
            self.x as i64 + self.width as i64,
            self.y as i64 + self.height as i64,
            BORDER_WIDTH as i64,
            BORDER_WIDTH as i64,
        )
    }

    /// Whether the point lies on the close button of the title bar.
    pub fn exit_contains(&self, px: i32, py: i32) -> (r: bool)
        ensures
            r == self.exit_contains_spec(px as int, py as int),
    {
        let t = self.title_rect();
        t.contains(px as i64, py as i64) && px as i64 >= self.x as i64 + self.width as i64
            - TITLE_HEIGHT as i64
    }

    /// Appends an event to the queue.
    pub fn event(&mut self, e: Event)
        ensures
            final(self).events@ == old(self).events@.push(e),
            final(self).id == old(self).id,
            final(self).x == old(self).x,
            final(self).y == old(self).y,
            final(self).width == old(self).width,
            final(self).height == old(self).height,
            final(self).title@ == old(self).title@,
            final(self).asynchronous == old(self).asynchronous,
            final(self).resizable == old(self).resizable,
    {
        self.events.push(e);
    }

    /// Takes every queued event, oldest first, leaving the queue empty.
    pub fn take_events(&mut self) -> (r: Vec<Event>)
        ensures
            r@ == old(self).events@,
            final(self).events@.len() == 0,
            final(self).id == old(self).id,
            final(self).x == old(self).x,
            final(self).y == old(self).y,
            final(self).width == old(self).width,
            final(self).height == old(self).height,
            final(self).title@ == old(self).title@,
            final(self).asynchronous == old(self).asynchronous,
            final(self).resizable == old(self).resizable,
    {
        let mut taken: Vec<Event> = Vec::new();
        std::mem::swap(&mut self.events, &mut taken);
        taken
    }

    /// The window's path: `orbital:`, its flags (`a`, `r`), then x, y, width,
    /// height and title, separated by `/`.
    pub open spec fn path_spec(&self) -> Seq<u8> {
        let flags = (if self.asynchronous { seq![97u8] } else { Seq::empty() }) + (if self.resizable { seq![114u8] } else { Seq::empty() });
        seq![111u8, 114u8, 98u8, 105u8, 116u8, 97u8, 108u8, 58u8] + flags
            + seq![47u8] + signed_decimal(self.x as int)
            + seq![47u8] + signed_decimal(self.y as int)
            + seq![47u8] + signed_decimal(self.width as int)
            + seq![47u8] + signed_decimal(self.height as int)
            + seq![47u8] + self.title@
    }

    /// The window's path, as `path_spec` gives it.
    pub fn path(&self) -> (r: Vec<u8>)
        ensures
            r@ == self.path_spec(),
    {
        let mut out: Vec<u8> = Vec::new();
        let prefix: [u8; 8] = [111u8, 114u8, 98u8, 105u8, 116u8, 97u8, 108u8, 58u8];
        let mut i: usize = 0;
        while i < 8
            invariant
                i <= 8,
                out@ == prefix@.take(i as int),
            decreases 8 - i,
        {
            out.push(prefix[i]);
            i = i + 1;
            assert(out@ =~= prefix@.take(i as int));
        }
        let ghost p0 = out@;
        if self.asynchronous {
            out.push(97u8);
        }
        if self.resizable {
            out.push(114u8);
        }
        let ghost p1 = out@;
        out.push(47u8);
        push_signed(&mut out, self.x);
        out.push(47u8);
        push_signed(&mut out, self.y);
        out.push(47u8);
        push_signed(&mut out, self.width);
        out.push(47u8);
        push_signed(&mut out, self.height);
        out.push(47u8);
        let ghost p2 = out@;
        let mut j: usize = 0;
        while j < self.title.len()
            invariant
                j <= self.title@.len(),
                out@ == p2 + self.title@.take(j as int),
            decreases self.title@.len() - j,
        {
            out.push(self.title[j]);
            j = j + 1;
            assert(out@ =~= p2 + self.title@.take(j as int));
        }
        proof {
            assert(prefix@ =~= seq![111u8, 114u8, 98u8, 105u8, 116u8, 97u8, 108u8, 58u8]);
            assert(prefix@.take(8) =~= prefix@);
            assert(self.title@.take(j as int) =~= self.title@);
            assert(out@ =~= self.path_spec());
        }
        out
    }

    /// The window's name in lists: its title, or `[unnamed #<id>]` where the title is empty.
    pub open spec fn label_spec(&self) -> Seq<u8> {
        if self.title@.len() == 0 {
            seq![91u8, 117u8, 110u8, 110u8, 97u8, 109u8, 101u8, 100u8, 32u8, 35u8] + decimal(self.id as nat) + seq![93u8]
        } else {
            self.title@
        }
    }

    /// The window's name in lists, as `label_spec` gives it.
    pub fn label(&self) -> (r: Vec<u8>)
        ensures
            r@ == self.label_spec(),
    {
        let mut out: Vec<u8> = Vec::new();
        if self.title.len() == 0 {
            let prefix: [u8; 10] = [91u8, 117u8, 110u8, 110u8, 97u8, 109u8, 101u8, 100u8, 32u8, 35u8];
            let mut i: usize = 0;
            while i < 10
                invariant
                    i <= 10,
                    out@ == prefix@.take(i as int),
                decreases 10 - i,
            {
                out.push(prefix[i]);
                i = i + 1;
                assert(out@ =~= prefix@.take(i as int));
            }
            push_decimal(&mut out, self.id as u64);
            out.push(93u8);
            proof {
                assert(prefix@ =~= seq![91u8, 117u8, 110u8, 110u8, 97u8, 109u8, 101u8, 100u8, 32u8, 35u8]);
                assert(prefix@.take(10) =~= prefix@);
                assert(out@ =~= self.label_spec());
            }
        } else {
            let mut j: usize = 0;
            while j < self.title.len()
                invariant
                    j <= self.title@.len(),
                    out@ == self.title@.take(j as int),
                decreases self.title@.len() - j,
            {
                out.push(self.title[j]);
                j = j + 1;
                assert(out@ =~= self.title@.take(j as int));
            }
            assert(self.title@.take(j as int) =~= self.title@);
        }
        out
    }
}

} // verus!
