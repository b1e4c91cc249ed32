//! Docking: a window dragged to the top, left or right edge of the screen
//! sticks there, slides away until only a thin strip is visible, and comes
//! back when the pointer touches the strip. Here: the geometry.

use vstd::prelude::*;

use crate::text;

verus! {

/// Visible strip of a hidden window, in physical pixels.
pub const STRIP: i32 = 4;

/// A window this close to an edge docks there.
pub const SNAP: i32 = 12;

/// The pointer must stay away this long before the window hides, in
/// milliseconds.
pub const LEAVE_DELAY: u64 = 450;

/// How long the window takes to slide, in milliseconds.
pub const SLIDE: u64 = 160;

/// Between checks after a move, until the mouse button is released, in
/// milliseconds.
pub const DRAG_POLL: u64 = 120;

/// A rectangle in physical pixels; `right` and `bottom` are just outside.
#[derive(Clone, Copy, Debug, PartialEq, Eq, Structural)]
pub struct Bounds {
    pub left: i32,
    pub top: i32,
    pub right: i32,
    pub bottom: i32,
}

impl Bounds {
    /// How wide it is.
    pub open spec fn wide(self) -> int {
        self.right - self.left
    }

    /// How high it is.
    pub open spec fn high(self) -> int {
        self.bottom - self.top
    }
}

/// An edge that a window can dock at.
#[derive(Clone, Copy, Debug, PartialEq, Eq, Structural)]
pub enum Edge {
    Top,
    Left,
    Right,
}

/// How an edge is written in the settings.
pub open spec fn edge_name(edge: Edge) -> Seq<char> {
    match edge {
        Edge::Top => "top"@,
        Edge::Left => "left"@,
        Edge::Right => "right"@,
    }
}

proof fn lemma_edge_names()
    ensures
        "top"@ != "left"@,
        "top"@ != "right"@,
        "left"@ != "right"@,
{
    reveal_strlit("top");
    reveal_strlit("left");
    reveal_strlit("right");
    assert("top"@.len() == 3 && "left"@.len() == 4 && "right"@.len() == 5);
}

/// The edge written as `name`.
pub open spec fn edge_named(name: Seq<char>) -> Option<Edge> {
    if name == "top"@ {
        Some(Edge::Top)
    } else if name == "left"@ {
        Some(Edge::Left)
    } else if name == "right"@ {
        Some(Edge::Right)
    } else {
        None
    }
}

impl Edge {
    /// How the edge is written in the settings.
    pub fn name(self) -> (r: &'static str)
        ensures
            r@ == edge_name(self),
    {
        match self {
            Edge::Top => "top",
            Edge::Left => "left",
            Edge::Right => "right",
        }
    }

    /// The edge written as `name`.
    pub fn from_name(name: &str) -> (r: Option<Edge>)
        ensures
            r == edge_named(name@),
    {
        if text::same(name, "top") {
            Some(Edge::Top)
        } else if text::same(name, "left") {
            Some(Edge::Left)
        } else if text::same(name, "right") {
            Some(Edge::Right)
        } else {
            None
        }
    }
}

/// An edge is read back from its name, and no other name means it.
pub proof fn law_edge_names(edge: Edge, name: Seq<char>)
    ensures
        edge_named(edge_name(edge)) == Some(edge),
        edge_named(name) == Some(edge) ==> name == edge_name(edge),
{
    lemma_edge_names();
}

/// The number by which the docked edge is shared between windows.
pub open spec fn edge_number(edge: Option<Edge>) -> int {
    match edge {
        None => 0,
        Some(Edge::Top) => 1,
        Some(Edge::Left) => 2,
        Some(Edge::Right) => 3,
    }
}

/// The number by which the docked edge is shared between windows.
pub fn edge_code(edge: Option<Edge>) -> (r: u8)
    ensures
        r == edge_number(edge),
{
    match edge {
        None => 0,
        Some(Edge::Top) => 1,
        Some(Edge::Left) => 2,
        Some(Edge::Right) => 3,
    }
}

/// The edge shared as `code`; anything unknown is no edge.
pub fn docked_edge(code: u8) -> (r: Option<Edge>)
    ensures
        edge_number(r) == (if code <= 3 {
            code as int
        } else {
            0
        }),
{
    match code {
        1 => Some(Edge::Top),
        2 => Some(Edge::Left),
        3 => Some(Edge::Right),
        _ => None,
    }
}

/// Half of `n`, towards zero.
pub open spec fn half(n: int) -> int {
    if n >= 0 {
        n / 2
    } else {
        -((-n) / 2)
    }
}

/// `a` and `b` are close enough to snap.
pub open spec fn is_near(a: int, b: int) -> bool {
    -SNAP <= a - b <= SNAP
}

/// The frame is close to this edge of the work area.
pub open spec fn near_edge(frame: Bounds, work: Bounds, edge: Edge) -> bool {
    match edge {
        Edge::Top => is_near(frame.top as int, work.top as int),
        Edge::Left => is_near(frame.left as int, work.left as int),
        Edge::Right => is_near(frame.right as int, work.right as int),
    }
}

/// The point just past an edge, in the middle of the frame.
pub open spec fn past_edge(frame: Bounds, work: Bounds, edge: Edge) -> (int, int) {
    match edge {
        Edge::Top => (half(frame.left + frame.right), work.top - 1),
        Edge::Left => (work.left - 1, half(frame.top + frame.bottom)),
        Edge::Right => (work.right as int, half(frame.top + frame.bottom)),
    }
}

/// `neighbour` answered `answer` for the point just past this edge.
pub open spec fn answered<F: Fn(i32, i32) -> bool>(
    neighbour: F,
    frame: Bounds,
    work: Bounds,
    edge: Edge,
    answer: bool,
) -> bool {
    let (x, y) = past_edge(frame, work, edge);
    call_ensures(neighbour, (x as i32, y as i32), answer)
}

/// The frame can dock at this edge.
pub open spec fn free<F: Fn(i32, i32) -> bool>(neighbour: F, frame: Bounds, work: Bounds, edge: Edge) -> bool {
    near_edge(frame, work, edge) && answered(neighbour, frame, work, edge, false)
}

/// The frame cannot: it is away from the edge, or a monitor continues there.
pub open spec fn taken<F: Fn(i32, i32) -> bool>(neighbour: F, frame: Bounds, work: Bounds, edge: Edge) -> bool {
    !near_edge(frame, work, edge) || answered(neighbour, frame, work, edge, true)
}

fn middle(a: i32, b: i32) -> (r: i32)
    ensures
        r == half(a + b),
{
    let sum: i64 = a as i64 + b as i64;
    let half: i64 = if sum >= 0 {
        sum / 2
    } else {
        let away: i64 = -sum;
        -(away / 2)
    };
    half as i32
}

fn near(a: i32, b: i32) -> (r: bool)
    ensures
        r == is_near(a as int, b as int),
{
    let apart: i64 = a as i64 - b as i64;
    -12 <= apart && apart <= 12
}

/// The edge that `frame` (what the user sees of the window) is dragged to,
/// if any: the first of top, left and right that is near and not shared
/// with another monitor. `neighbour` tells whether a monitor continues past
/// a point; at such an edge the hidden window would show.
pub fn snap_edge<F: Fn(i32, i32) -> bool>(frame: Bounds, work: Bounds, neighbour: F) -> (r: Option<Edge>)
    requires
        work.top > i32::MIN,
        work.left > i32::MIN,
        forall|x: i32, y: i32| call_requires(neighbour, (x, y)),
    ensures
        r == Some(Edge::Top) ==> free(neighbour, frame, work, Edge::Top),
        r != Some(Edge::Top) ==> taken(neighbour, frame, work, Edge::Top),
        r == Some(Edge::Left) ==> free(neighbour, frame, work, Edge::Left),
        r == Some(Edge::Right) || r is None ==> taken(neighbour, frame, work, Edge::Left),
        r == Some(Edge::Right) ==> free(neighbour, frame, work, Edge::Right),
        r is None ==> taken(neighbour, frame, work, Edge::Right),
{
    let mid_x: i32 = middle(frame.left, frame.right);
    let mid_y: i32 = middle(frame.top, frame.bottom);
    if near(frame.top, work.top) && !neighbour(mid_x, work.top - 1) {
        return Some(Edge::Top);
    }
    if near(frame.left, work.left) && !neighbour(work.left - 1, mid_y) {
        return Some(Edge::Left);
    }
    if near(frame.right, work.right) && !neighbour(work.right, mid_y) {
        return Some(Edge::Right);
    }
    None
}

/// `at`, moved as little as possible so that something `size` long lies
/// between `low` and `high`; where it does not fit, it starts at `low`.
pub open spec fn kept_inside(at: int, size: int, low: int, high: int) -> int {
    if at > high - size && high - size > low {
        high - size
    } else if at < low || high - size <= low {
        low
    } else {
        at
    }
}

/// Where the frame's corner goes, docked at `edge`.
pub open spec fn docked_corner(edge: Edge, frame: Bounds, work: Bounds, hidden: bool) -> (int, int) {
    let along_x = kept_inside(frame.left as int, frame.wide(), work.left as int, work.right as int);
    let along_y = kept_inside(frame.top as int, frame.high(), work.top as int, work.bottom as int);
    match (edge, hidden) {
        (Edge::Top, false) => (along_x, work.top as int),
        (Edge::Top, true) => (along_x, work.top + STRIP - frame.high()),
        (Edge::Left, false) => (work.left as int, along_y),
        (Edge::Left, true) => (work.left + STRIP - frame.wide(), along_y),
        (Edge::Right, false) => (work.right - frame.wide(), along_y),
        (Edge::Right, true) => (work.right - STRIP, along_y),
    }
}

fn inside(at: i64, size: i64, low: i64, high: i64) -> (r: i64)
    requires
        -0x1_0000_0000 <= high <= 0x1_0000_0000,
        -0x1_0000_0000 <= size <= 0x1_0000_0000,
    ensures
        r == kept_inside(at as int, size as int, low as int, high as int),
{
    let last: i64 = high - size;
    let last: i64 = if last > low {
        last
    } else {
        low
    };
    if at < low {
        low
    } else if at > last {
        last
    } else {
        at
    }
}

/// Where the window's corner goes, docked at `edge`: its visible part, the
/// frame, goes to `docked_corner`.
pub open spec fn window_corner(edge: Edge, window: Bounds, frame: Bounds, work: Bounds, hidden: bool) -> (int, int) {
    let corner = docked_corner(edge, frame, work, hidden);
    (corner.0 - (frame.left - window.left), corner.1 - (frame.top - window.top))
}

/// Where the window rectangle (`window`, borders included) goes, docked at
/// `edge`, shown or hidden. `frame` is the visible part of the same window.
pub fn docked_position(edge: Edge, window: Bounds, frame: Bounds, work: Bounds, hidden: bool) -> (r: (i32, i32))
    requires
        i32::MIN <= window_corner(edge, window, frame, work, hidden).0 <= i32::MAX,
        i32::MIN <= window_corner(edge, window, frame, work, hidden).1 <= i32::MAX,
    ensures
        (r.0 as int, r.1 as int) == window_corner(edge, window, frame, work, hidden),
{
    let wide: i64 = frame.right as i64 - frame.left as i64;
    let high: i64 = frame.bottom as i64 - frame.top as i64;
    let away_x: i64 = if hidden {
        wide - STRIP as i64
    } else {
        0
    };
    let away_y: i64 = if hidden {
        high - STRIP as i64
    } else {
        0
    };
    let (x, y): (i64, i64) = match edge {
        Edge::Top => (
            inside(frame.left as i64, wide, work.left as i64, work.right as i64),
            work.top as i64 - away_y,
        ),
        Edge::Left => (
            work.left as i64 - away_x,
            inside(frame.top as i64, high, work.top as i64, work.bottom as i64),
        ),
        Edge::Right => (
            work.right as i64 - wide + away_x,
            inside(frame.top as i64, high, work.top as i64, work.bottom as i64),
        ),
    };
    (
        (x - (frame.left as i64 - window.left as i64)) as i32,
        (y - (frame.top as i64 - window.top as i64)) as i32,
    )
}

/// Shown, the frame touches its edge; hidden, only the strip of it is left
/// inside the work area at that edge. The window goes with its frame.
pub proof fn law_docked_at_the_edge(edge: Edge, window: Bounds, frame: Bounds, work: Bounds)
    ensures
        ({
            let s = window_corner(edge, window, frame, work, false);
            let h = window_corner(edge, window, frame, work, true);
            let (dx, dy) = (frame.left - window.left, frame.top - window.top);
            match edge {
                Edge::Top => s.1 + dy == work.top && h == (s.0, s.1 - (frame.high() - STRIP)),
                Edge::Left => s.0 + dx == work.left && h == (s.0 - (frame.wide() - STRIP), s.1),
                Edge::Right => s.0 + dx + frame.wide() == work.right && h == (s.0 + (frame.wide() - STRIP), s.1),
            }
        }),
        edge is Top ==> {
            &&& docked_corner(edge, frame, work, false).1 == work.top
            &&& docked_corner(edge, frame, work, true).1 + frame.high() == work.top + STRIP
        },
        edge is Left ==> {
            &&& docked_corner(edge, frame, work, false).0 == work.left
            &&& docked_corner(edge, frame, work, true).0 + frame.wide() == work.left + STRIP
        },
        edge is Right ==> {
            &&& docked_corner(edge, frame, work, false).0 + frame.wide() == work.right
            &&& docked_corner(edge, frame, work, true).0 == work.right - STRIP
        },
{
}

/// Hiding and showing move the window across its edge only, and along the
/// edge a frame that fits stays inside the work area.
pub proof fn law_slides_straight(edge: Edge, frame: Bounds, work: Bounds, hidden: bool)
    ensures
        edge is Top ==> docked_corner(edge, frame, work, false).0 == docked_corner(edge, frame, work, true).0,
        edge !is Top ==> docked_corner(edge, frame, work, false).1 == docked_corner(edge, frame, work, true).1,
        edge is Top && 0 <= frame.wide() <= work.wide() ==> work.left <= docked_corner(edge, frame, work, hidden).0
            && docked_corner(edge, frame, work, hidden).0 + frame.wide() <= work.right,
        edge !is Top && 0 <= frame.high() <= work.high() ==> work.top <= docked_corner(edge, frame, work, hidden).1
            && docked_corner(edge, frame, work, hidden).1 + frame.high() <= work.bottom,
{
}

/// How long a slide takes, in nanoseconds.
pub const SLIDE_NANOS: u64 = 160_000_000;

/// A slide from one position to another; times are in nanoseconds.
#[derive(Clone, Copy, Debug, PartialEq, Eq)]
pub struct Slide {
    pub from: (i32, i32),
    pub to: (i32, i32),
    pub started: u64,
}

/// The third power.
pub open spec fn cube(x: int) -> int {
    x * x * x
}

/// How far along a slide is after some nanoseconds, eased: this over the
/// cube of its length.
pub open spec fn eased(elapsed: int) -> int {
    let n = SLIDE_NANOS as int;
    if elapsed >= n {
        cube(n)
    } else {
        cube(n) - cube(n - elapsed)
    }
}

/// The whole number nearest to `x / d`, halves away from zero.
pub open spec fn nearest(x: int, d: int) -> int {
    if x >= 0 {
        (2 * x + d) / (2 * d)
    } else {
        -((2 * -x + d) / (2 * d))
    }
}

/// Where one coordinate is after some nanoseconds.
pub open spec fn slid(from: int, to: int, elapsed: int) -> int {
    from + nearest((to - from) * eased(elapsed), cube(SLIDE_NANOS as int))
}

proof fn lemma_eased(elapsed: int)
    requires
        0 <= elapsed,
    ensures
        cube(SLIDE_NANOS as int) == 4_096_000_000_000_000_000_000_000,
        0 <= eased(elapsed) <= cube(SLIDE_NANOS as int),
        elapsed < SLIDE_NANOS ==> cube(SLIDE_NANOS - elapsed) <= cube(SLIDE_NANOS as int),
        elapsed < SLIDE_NANOS ==> cube(SLIDE_NANOS - elapsed) >= 0,
        elapsed == 0 ==> eased(elapsed) == 0,
{
    let n = SLIDE_NANOS as int;
    assert(160_000_000int * 160_000_000int * 160_000_000int == 4_096_000_000_000_000_000_000_000int) by (nonlinear_arith);
    if elapsed < n {
        let m = n - elapsed;
        assert(0 <= m * m <= n * n) by (nonlinear_arith)
            requires
                0 <= m <= n,
        ;
        assert(0 <= (m * m) * m <= (n * n) * n) by (nonlinear_arith)
            requires
                0 <= m <= n,
                0 <= m * m <= n * n,
        ;
    }
}

proof fn lemma_nearest(total: int, k: int, d: int)
    requires
        d > 0,
        0 <= k <= d,
    ensures
        total >= 0 ==> 0 <= nearest(total * k, d) <= total,
        total <= 0 ==> total <= nearest(total * k, d) <= 0,
        k == 0 ==> nearest(total * k, d) == 0,
        k == d ==> nearest(total * k, d) == total,
{
    let a = if total >= 0 {
        total
    } else {
        -total
    };
    assert(0 <= a * k <= a * d) by (nonlinear_arith)
        requires
            0 <= k <= d,
            a >= 0,
    ;
    let q = (2 * (a * k) + d) / (2 * d);
    assert(0 <= q <= a) by (nonlinear_arith)
        requires
            q == (2 * (a * k) + d) / (2 * d),
            0 <= a * k <= a * d,
            d > 0,
    ;
    if k == d {
        assert(q == a) by (nonlinear_arith)
            requires
                q == (2 * (a * k) + d) / (2 * d),
                k == d,
                d > 0,
        ;
    }
    if k == 0 {
        assert(q == 0) by (nonlinear_arith)
            requires
                q == (2 * (a * k) + d) / (2 * d),
                k == 0,
                d > 0,
        ;
    }
    if total < 0 {
        assert(total * k == -(a * k)) by (nonlinear_arith)
            requires
                total == -a,
        ;
        if a * k == 0 {
            assert(q == 0) by (nonlinear_arith)
                requires
                    q == (2 * (a * k) + d) / (2 * d),
                    a * k == 0,
                    d > 0,
            ;
            assert(k != d) by (nonlinear_arith)
                requires
                    a * k == 0,
                    a > 0,
                    d > 0,
            ;
        } else {
            assert(nearest(total * k, d) == -q);
        }
    }
}

/// A slide begins where it starts from, ends where it goes to, and never
/// leaves the way between.
pub proof fn law_slides_end_where_they_should(from: int, to: int, elapsed: int)
    requires
        0 <= elapsed,
    ensures
        elapsed == 0 ==> slid(from, to, elapsed) == from,
        elapsed >= SLIDE_NANOS ==> slid(from, to, elapsed) == to,
        from <= to ==> from <= slid(from, to, elapsed) <= to,
        to <= from ==> to <= slid(from, to, elapsed) <= from,
{
    lemma_eased(elapsed);
    lemma_nearest(to - from, eased(elapsed), cube(SLIDE_NANOS as int));
}

fn slide_one(from: i32, to: i32, elapsed: u64) -> (r: i32)
    ensures
        r == slid(from as int, to as int, elapsed as int),
{
    let n: i128 = 160_000_000;
    let d: i128 = 4_096_000_000_000_000_000_000_000;
    proof {
        lemma_eased(elapsed as int);
        lemma_nearest(to - from, eased(elapsed as int), d as int);
    }
    let left: i128 = if elapsed >= SLIDE_NANOS {
        0
    } else {
        n - elapsed as i128
    };
    proof {
        assert(0 <= left * left <= 25_600_000_000_000_000) by (nonlinear_arith)
            requires
                0 <= left <= 160_000_000,
        ;
        assert(0 <= (left * left) * left <= 4_096_000_000_000_000_000_000_000) by (nonlinear_arith)
            requires
                0 <= left <= 160_000_000,
                0 <= left * left <= 25_600_000_000_000_000,
        ;
    }
    let k: i128 = d - left * left * left;
    let total: i128 = to as i128 - from as i128;
    let size: i128 = if total >= 0 {
        total
    } else {
        -total
    };
    proof {
        assert(0 <= size * k <= 4_294_967_295int * 4_096_000_000_000_000_000_000_000int) by (nonlinear_arith)
            requires
                0 <= size <= 4_294_967_295,
                0 <= k <= 4_096_000_000_000_000_000_000_000,
        ;
        if total < 0 {
            assert(total * k == -(size * k)) by (nonlinear_arith)
                requires
                    total == -size,
            ;
        }
    }
    let moved: i128 = (2 * (size * k) + d) / (2 * d);
    if total >= 0 {
        (from as i128 + moved) as i32
    } else {
        (from as i128 - moved) as i32
    }
}

impl Slide {
    /// The position at `now` (eased), and whether the slide is over.
    pub fn at(&self, now: u64) -> (r: ((i32, i32), bool))
        ensures
            ({
                let elapsed = if now >= self.started {
                    now - self.started
                } else {
                    0
                };
                &&& r.0.0 == slid(self.from.0 as int, self.to.0 as int, elapsed)
                &&& r.0.1 == slid(self.from.1 as int, self.to.1 as int, elapsed)
                &&& r.1 == (elapsed >= SLIDE_NANOS)
            }),
    {
        let elapsed: u64 = if now >= self.started {
            now - self.started
        } else {
            0
        };
        (
            (slide_one(self.from.0, self.to.0, elapsed), slide_one(self.from.1, self.to.1, elapsed)),
            elapsed >= SLIDE_NANOS,
        )
    }
}

/// A window docks where it is at most twelve pixels from an edge of the
/// screen; the other side of that edge is looked at in the frame's middle.
pub proof fn law_snapping(frame: Bounds, work: Bounds)
    ensures
        near_edge(frame, work, Edge::Top) <==> -12 <= frame.top - work.top <= 12,
        near_edge(frame, work, Edge::Left) <==> -12 <= frame.left - work.left <= 12,
        near_edge(frame, work, Edge::Right) <==> -12 <= frame.right - work.right <= 12,
        past_edge(frame, work, Edge::Top).1 == work.top - 1,
        past_edge(frame, work, Edge::Left).0 == work.left - 1,
        past_edge(frame, work, Edge::Right).0 == work.right,
        frame.left + frame.right >= 0 ==> past_edge(frame, work, Edge::Top).0 == (frame.left + frame.right) / 2,
        frame.top + frame.bottom >= 0 ==> past_edge(frame, work, Edge::Left).1 == (frame.top + frame.bottom) / 2 && past_edge(
            frame,
            work,
            Edge::Right,
        ).1 == (frame.top + frame.bottom) / 2,
{
}

/// The numbers under which edges are kept: each its own, zero for none.
pub proof fn law_edge_numbers(a: Option<Edge>, b: Option<Edge>)
    ensures
        edge_number(None) == 0 && edge_number(Some(Edge::Top)) == 1 && edge_number(Some(Edge::Left)) == 2 && edge_number(
            Some(Edge::Right),
        ) == 3,
        edge_number(a) == edge_number(b) ==> a == b,
{
}

/// A frame is moved along its edge only as far as the screen asks for, and
/// where it has no room it begins where the screen does.
pub proof fn law_kept_on_the_screen(at: int, size: int, low: int, high: int)
    ensures
        low <= at && at + size <= high ==> kept_inside(at, size, low, high) == at,
        at < low ==> kept_inside(at, size, low, high) == low,
        at + size > high && high - size > low ==> kept_inside(at, size, low, high) == high - size,
        high - size <= low ==> kept_inside(at, size, low, high) == low,
{
}

/// A slide slows down to its end: what is left of the way is the cube of
/// what is left of the time, to the nearest pixel.
pub proof fn law_slides_slow_down(from: int, to: int, left: int)
    requires
        0 <= left <= 160_000_000,
    ensures
        eased(160_000_000 - left) == 160_000_000int * 160_000_000int * 160_000_000int - left * left * left,
        eased(160_000_000) == 160_000_000int * 160_000_000int * 160_000_000int,
        slid(from, to, 160_000_000 - left) == from + nearest(
            (to - from) * (160_000_000int * 160_000_000int * 160_000_000int - left * left * left),
            160_000_000int * 160_000_000int * 160_000_000int,
        ),
{
    let n = SLIDE_NANOS as int;
    assert(n == 160_000_000);
    assert(cube(n) == n * n * n);
    assert(n - (160_000_000 - left) == left);
    assert(160_000_000int * 160_000_000int * 160_000_000int == n * n * n) by (nonlinear_arith)
        requires
            n == 160_000_000,
    ;
    if left == 0 {
        assert(left * left * left == 0) by (nonlinear_arith)
            requires
                left == 0,
        ;
    }
    assert(0int * 0 * 0 == 0);
}

/// A hidden window leaves a strip of 4 pixels, goes 450 milliseconds after
/// the pointer left and slides for 160; a drag is looked at every 120.
pub proof fn law_dock_times()
    ensures
        STRIP == 4,
        LEAVE_DELAY == 450,
        SLIDE == 160,
        SLIDE_NANOS == SLIDE * 1_000_000,
        DRAG_POLL == 120,
{
}

/// An edge that the window is not near is never free; one that it is near is
/// free where no screen is beyond it, at the point past the edge.
pub proof fn law_free_edges<F: Fn(i32, i32) -> bool>(neighbour: F, frame: Bounds, work: Bounds, edge: Edge)
    ensures
        ({
            let (x, y) = past_edge(frame, work, edge);
            let near = near_edge(frame, work, edge);
            &&& !near ==> taken(neighbour, frame, work, edge) && !free(neighbour, frame, work, edge)
            &&& near ==> (free(neighbour, frame, work, edge) <==> call_ensures(neighbour, (x as i32, y as i32), false))
            &&& near ==> (taken(neighbour, frame, work, edge) <==> call_ensures(neighbour, (x as i32, y as i32), true))
        }),
{
}

} // verus!
