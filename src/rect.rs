use vstd::prelude::*;

verus! {

/// Coordinates of every rectangle stay within this distance of the origin.
pub const COORD_BOUND: i64 = 0x100_0000_0000;

/// An axis-aligned rectangle: top-left corner `(x, y)`, width `w`, height `h`.
#[derive(Clone, Copy, Debug, PartialEq, Eq, Structural)]
pub struct Rect {
    pub x: i64,
    pub y: i64,
    pub w: i64,
    pub h: i64,
}

pub open spec fn min_int(a: int, b: int) -> int {
    if a <= b { a } else { b }
}

pub open spec fn max_int(a: int, b: int) -> int {
    if a >= b { a } else { b }
}

impl Rect {
    /// Sizes are non-negative and both edges lie within the coordinate bound.
    pub open spec fn wf(self) -> bool {
        &&& -COORD_BOUND <= self.x
        &&& 0 <= self.w
        &&& self.x + self.w <= COORD_BOUND
        &&& -COORD_BOUND <= self.y
        &&& 0 <= self.h
        &&& self.y + self.h <= COORD_BOUND
    }

    pub open spec fn contains_spec(self, px: int, py: int) -> bool {
        self.x <= px < self.x + self.w && self.y <= py < self.y + self.h
    }

    pub open spec fn area_spec(self) -> int {
        self.w * self.h
    }

    pub open spec fn container_spec(self, o: Rect) -> Rect {
        let l = min_int(self.x as int, o.x as int);
        let t = min_int(self.y as int, o.y as int);
        let r = max_int(self.x + self.w, o.x + o.w);
        let b = max_int(self.y + self.h, o.y + o.h);
        Rect { x: l as i64, y: t as i64, w: (r - l) as i64, h: (b - t) as i64 }
    }

    pub open spec fn intersection_spec(self, o: Rect) -> Rect {
        let l = max_int(self.x as int, o.x as int);
        let t = max_int(self.y as int, o.y as int);
        let r = min_int(self.x + self.w, o.x + o.w);
        let b = min_int(self.y + self.h, o.y + o.h);
        Rect { x: l as i64, y: t as i64, w: max_int(r - l, 0) as i64, h: max_int(b - t, 0) as i64 }
    }

    pub open spec fn is_empty_spec(self) -> bool {
        self.w <= 0 || self.h <= 0
    }

    /// A rectangle from an `i32` position and size; a negative size is taken as zero.
    pub fn new(x: i32, y: i32, w: i32, h: i32) -> (r: Rect)
        ensures
            r.wf(),
            r.x == x as i64,
            r.y == y as i64,
            r.w == max_int(w as int, 0),
            r.h == max_int(h as int, 0),
    {
        let w2: i64 = if w < 0 { 0 } else { w as i64 };
        let h2: i64 = if h < 0 { 0 } else { h as i64 };
        Rect { x: x as i64, y: y as i64, w: w2, h: h2 }
    }

    pub fn contains(&self, px: i64, py: i64) -> (r: bool)
        requires
            self.wf(),
        ensures
            r == self.contains_spec(px as int, py as int),
    {
        self.x <= px && px < self.x + self.w && self.y <= py && py < self.y + self.h
    }

    pub fn area(&self) -> (r: i128)
        requires
            self.wf(),
        ensures
            r == self.area_spec(),
            0 <= r <= 0x4_0000_0000_0000_0000_0000,
    {
        proof {
            assert(0 <= self.w * self.h <= 0x4_0000_0000_0000_0000_0000) by (nonlinear_arith)
                requires
                    0 <= self.w <= 0x200_0000_0000,
                    0 <= self.h <= 0x200_0000_0000,
            ;
        }
        (self.w as i128) * (self.h as i128)
    }

    pub fn is_empty(&self) -> (r: bool)
        ensures
            r == self.is_empty_spec(),
    {
        self.w <= 0 || self.h <= 0
    }

    /// The smallest rectangle holding both `self` and `o`.
    pub fn container(&self, o: &Rect) -> (r: Rect)
        requires
            self.wf(),
            o.wf(),
        ensures
            r == self.container_spec(*o),
            r.wf(),
    {
        let l = if self.x <= o.x { self.x } else { o.x };
        let t = if self.y <= o.y { self.y } else { o.y };
        let r = if self.x + self.w >= o.x + o.w { self.x + self.w } else { o.x + o.w };
        let b = if self.y + self.h >= o.y + o.h { self.y + self.h } else { o.y + o.h };
        Rect { x: l, y: t, w: r - l, h: b - t }
    }

    /// The overlap of `self` and `o`; empty where they do not meet.
    pub fn intersection(&self, o: &Rect) -> (r: Rect)
        requires
            self.wf(),
            o.wf(),
        ensures
            r == self.intersection_spec(*o),
            r.wf(),
            forall|px: int, py: int|
                r.contains_spec(px, py) <==> (self.contains_spec(px, py) && o.contains_spec(px, py)),
    {
        let l = if self.x >= o.x { self.x } else { o.x };
        let t = if self.y >= o.y { self.y } else { o.y };
        let r = if self.x + self.w <= o.x + o.w { self.x + self.w } else { o.x + o.w };
        let b = if self.y + self.h <= o.y + o.h { self.y + self.h } else { o.y + o.h };
        let w = if r - l > 0 { r - l } else { 0 };
        let h = if b - t > 0 { b - t } else { 0 };
        Rect { x: l, y: t, w, h }
    }
}

/// Every point of `self` and of `o` lies in their container.
pub proof fn lemma_container_covers(a: Rect, b: Rect)
    requires
        a.wf(),
        b.wf(),
    ensures
        forall|px: int, py: int|
            #![trigger a.container_spec(b).contains_spec(px, py)]
            a.contains_spec(px, py) || b.contains_spec(px, py) ==> a.container_spec(b).contains_spec(px, py),
{
}

/// A point lies in some rectangle of `s`.
pub open spec fn covers(s: Seq<Rect>, px: int, py: int) -> bool {
    exists|i: int| 0 <= i < s.len() && (#[trigger] s[i]).contains_spec(px, py)
}

pub open spec fn all_wf(s: Seq<Rect>) -> bool {
    forall|i: int| 0 <= i < s.len() ==> (#[trigger] s[i]).wf()
}

/// Merging `r` into `e` costs no more area than keeping both.
pub open spec fn merges(e: Rect, r: Rect) -> bool {
    e.container_spec(r).area_spec() <= e.area_spec() + r.area_spec()
}

/// The damage list after `schedule`: the first entry that `r` merges with
/// grows to their container; where there is none, `r` is appended.
pub open spec fn schedule_spec(s: Seq<Rect>, r: Rect) -> Seq<Rect> {
    if exists|i: int| 0 <= i < s.len() && merges(#[trigger] s[i], r) {
        let i = choose|i: int|
            0 <= i < s.len() && merges(s[i], r) && forall|j: int| 0 <= j < i ==> !merges(#[trigger] s[j], r);
        s.update(i, s[i].container_spec(r))
    } else {
        s.push(r)
    }
}

proof fn lemma_first_merge(s: Seq<Rect>, r: Rect, k: int)
    requires
        0 <= k < s.len(),
        merges(s[k], r),
        forall|j: int| 0 <= j < k ==> !merges(#[trigger] s[j], r),
    ensures
        schedule_spec(s, r) == s.update(k, s[k].container_spec(r)),
{
    let i = choose|i: int|
        0 <= i < s.len() && merges(s[i], r) && forall|j: int| 0 <= j < i ==> !merges(#[trigger] s[j], r);
    assert(0 <= i < s.len() && merges(s[i], r) && forall|j: int| 0 <= j < i ==> !merges(#[trigger] s[j], r));
    if i < k {
        assert(!merges(s[i], r));
    } else if k < i {
        assert(!merges(s[k], r));
    }
}

/// Adds the damage rectangle `request` to `redraws`, merging it into the
/// first existing rectangle whose container costs no more area than the two apart.
pub fn schedule(redraws: &mut Vec<Rect>, request: Rect)
    requires
        all_wf(old(redraws)@),
        request.wf(),
    ensures
        final(redraws)@ == schedule_spec(old(redraws)@, request),
        all_wf(final(redraws)@),
        forall|px: int, py: int|
            covers(old(redraws)@, px, py) || request.contains_spec(px, py) ==> #[trigger] covers(final(redraws)@, px, py),
{
    let n = redraws.len();
    let mut i: usize = 0;
    while i < n
        invariant
            n == redraws.len(),
            redraws@ == old(redraws)@,
            all_wf(redraws@),
            request.wf(),
            i <= n,
            forall|j: int| 0 <= j < i ==> !merges(#[trigger] redraws@[j], request),
        decreases n - i,
    {
        let e = redraws[i];
        let c = e.container(&request);
        if c.area() <= e.area() + request.area() {
            redraws.set(i, c);
            proof {
                lemma_first_merge(old(redraws)@, request, i as int);
                lemma_container_covers(e, request);
                let s = old(redraws)@;
                assert forall|px: int, py: int|
                    covers(s, px, py) || request.contains_spec(px, py) implies covers(
                    redraws@, px, py) by {
                    if request.contains_spec(px, py) {
                        assert(c.contains_spec(px, py));
                        assert(redraws@[i as int] == c);
                    } else {
                        let k = choose|k: int| 0 <= k < s.len() && (#[trigger] s[k]).contains_spec(px, py);
                        if k == i {
                            assert(c.contains_spec(px, py));
                            assert(redraws@[k] == c);
                        } else {
                            assert(redraws@[k] == s[k]);
                        }
                    }
                }
            }
            return;
        }
        i = i + 1;
    }
    redraws.push(request);
    proof {
        let s = old(redraws)@;
        assert forall|px: int, py: int|
            covers(s, px, py) || request.contains_spec(px, py) implies covers(redraws@, px, py) by {
            if request.contains_spec(px, py) {
                assert(redraws@[s.len() as int] == request);
            } else {
                let k = choose|k: int| 0 <= k < s.len() && (#[trigger] s[k]).contains_spec(px, py);
                assert(redraws@[k] == s[k]);
            }
        }
    }
}


/// Scheduling keeps every rectangle well formed, keeps what was covered, and covers the request.
pub proof fn lemma_schedule_spec_covers(s: Seq<Rect>, r: Rect)
    requires
        all_wf(s),
        r.wf(),
    ensures
        all_wf(schedule_spec(s, r)),
        forall|px: int, py: int|
            covers(s, px, py) || r.contains_spec(px, py) ==> #[trigger] covers(schedule_spec(s, r), px, py),
{
    let n = schedule_spec(s, r);
    if exists|i: int| 0 <= i < s.len() && merges(#[trigger] s[i], r) {
        let i = choose|i: int|
            0 <= i < s.len() && merges(s[i], r) && forall|j: int| 0 <= j < i ==> !merges(#[trigger] s[j], r);
        // the first merging index exists
        let w = choose|i: int| 0 <= i < s.len() && merges(#[trigger] s[i], r);
        lemma_least_merge(s, r, w);
        assert(0 <= i < s.len());
        let c = s[i].container_spec(r);
        lemma_container_covers(s[i], r);
        assert(n == s.update(i, c));
        assert forall|px: int, py: int| covers(s, px, py) || r.contains_spec(px, py) implies #[trigger] covers(n, px, py) by {
            if r.contains_spec(px, py) {
                assert(n[i].contains_spec(px, py));
            } else {
                let k = choose|k: int| 0 <= k < s.len() && (#[trigger] s[k]).contains_spec(px, py);
                if k == i {
                    assert(n[k].contains_spec(px, py));
                } else {
                    assert(n[k] == s[k]);
                }
            }
        }
    } else {
        assert forall|px: int, py: int| covers(s, px, py) || r.contains_spec(px, py) implies #[trigger] covers(n, px, py) by {
            if r.contains_spec(px, py) {
                assert(n[s.len() as int] == r);
            } else {
                let k = choose|k: int| 0 <= k < s.len() && (#[trigger] s[k]).contains_spec(px, py);
                assert(n[k] == s[k]);
            }
        }
    }
}

proof fn lemma_least_merge(s: Seq<Rect>, r: Rect, w: int)
    requires
        0 <= w < s.len(),
        merges(s[w], r),
    ensures
        exists|i: int| 0 <= i < s.len() && merges(s[i], r) && forall|j: int| 0 <= j < i ==> !merges(#[trigger] s[j], r),
    decreases w,
{
    if exists|j: int| 0 <= j < w && merges(#[trigger] s[j], r) {
        let j = choose|j: int| 0 <= j < w && merges(#[trigger] s[j], r);
        lemma_least_merge(s, r, j);
    } else {
        assert(forall|j: int| 0 <= j < w ==> !merges(#[trigger] s[j], r));
    }
}

/// The damage list after scheduling each of `rs` in turn, starting from `s`.
pub open spec fn schedule_all(s: Seq<Rect>, rs: Seq<Rect>) -> Seq<Rect>
    decreases rs.len(),
{
    if rs.len() == 0 {
        s
    } else {
        schedule_spec(schedule_all(s, rs.drop_last()), rs.last())
    }
}

/// Scheduling any sequence of rectangles, one by one from an empty list,
/// leaves a list that covers every point of every one of them.
pub proof fn lemma_schedule_all_covers(rs: Seq<Rect>)
    requires
        all_wf(rs),
    ensures
        all_wf(schedule_all(Seq::empty(), rs)),
        forall|px: int, py: int| covers(rs, px, py) ==> #[trigger] covers(schedule_all(Seq::empty(), rs), px, py),
    decreases rs.len(),
{
    if rs.len() > 0 {
        let pre = rs.drop_last();
        lemma_schedule_all_covers(pre);
        let s = schedule_all(Seq::empty(), pre);
        lemma_schedule_spec_covers(s, rs.last());
        assert forall|px: int, py: int| covers(rs, px, py) implies #[trigger] covers(schedule_all(Seq::empty(), rs), px, py) by {
            let k = choose|k: int| 0 <= k < rs.len() && (#[trigger] rs[k]).contains_spec(px, py);
            if k < rs.len() - 1 {
                assert(pre[k] == rs[k]);
                assert(covers(pre, px, py));
                assert(covers(s, px, py));
            }
        }
    }
}

/// Scheduling the same rectangle twice on an empty list leaves just that rectangle.
pub proof fn lemma_schedule_twice(r: Rect)
    requires
        r.wf(),
    ensures
        schedule_spec(schedule_spec(Seq::empty(), r), r) == seq![r],
{
    let s1 = schedule_spec(Seq::empty(), r);
    assert(s1 == seq![r]);
    assert(r.container_spec(r) == r);
    assert(r.area_spec() >= 0) by (nonlinear_arith)
        requires
            r.w >= 0,
            r.h >= 0,
    ;
    assert(merges(s1[0], r));
    lemma_least_merge(s1, r, 0);
    assert(s1.update(0, r) =~= seq![r]);
}


/// `a` lies within `b`.
pub open spec fn inside(a: Rect, b: Rect) -> bool {
    b.x <= a.x && a.x + a.w <= b.x + b.w && b.y <= a.y && a.y + a.h <= b.y + b.h
}

proof fn lemma_schedule_spec_inside(s: Seq<Rect>, r: Rect, b: Rect)
    requires
        forall|i: int| 0 <= i < s.len() ==> inside(#[trigger] s[i], b),
        inside(r, b),
    ensures
        forall|i: int| 0 <= i < schedule_spec(s, r).len() ==> inside(#[trigger] schedule_spec(s, r)[i], b),
        schedule_spec(s, r).len() <= s.len() + 1,
{
    if exists|i: int| 0 <= i < s.len() && merges(#[trigger] s[i], r) {
        let w = choose|i: int| 0 <= i < s.len() && merges(#[trigger] s[i], r);
        lemma_least_merge(s, r, w);
        let i = choose|i: int|
            0 <= i < s.len() && merges(s[i], r) && forall|j: int| 0 <= j < i ==> !merges(#[trigger] s[j], r);
        assert(inside(s[i], b));
        assert(inside(s[i].container_spec(r), b));
    }
}

/// Scheduling rectangles one by one from an empty list never leaves more
/// rectangles than were scheduled, and none reaches outside a rectangle that
/// holds all of them.
pub proof fn lemma_schedule_all_bounded(rs: Seq<Rect>, b: Rect)
    requires
        forall|i: int| 0 <= i < rs.len() ==> inside(#[trigger] rs[i], b),
    ensures
        schedule_all(Seq::empty(), rs).len() <= rs.len(),
        forall|i: int| 0 <= i < schedule_all(Seq::empty(), rs).len() ==> inside(#[trigger] schedule_all(Seq::empty(), rs)[i], b),
    decreases rs.len(),
{
    if rs.len() > 0 {
        let pre = rs.drop_last();
        assert forall|i: int| 0 <= i < pre.len() implies inside(#[trigger] pre[i], b) by {
            assert(pre[i] == rs[i]);
        }
        lemma_schedule_all_bounded(pre, b);
        lemma_schedule_spec_inside(schedule_all(Seq::empty(), pre), rs.last(), b);
    }
}

} // verus!
