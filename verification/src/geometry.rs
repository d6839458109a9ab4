//! Points, rectangles, transforms and paths in fixed-point coordinates.

use vstd::prelude::*;

use crate::fixed::{Fixed, ONE};

verus! {

/// A point, or an offset.
#[derive(Debug, Clone, Copy, PartialEq, Eq, Structural)]
pub struct Point {
    pub x: Fixed,
    pub y: Fixed,
}

/// The extent of a canvas.
#[derive(Debug, Clone, Copy, PartialEq, Eq, Structural)]
pub struct Size {
    pub width: Fixed,
    pub height: Fixed,
}

/// An axis-aligned rectangle.
#[derive(Debug, Clone, Copy, PartialEq, Eq, Structural)]
pub struct Rect {
    pub x0: Fixed,
    pub y0: Fixed,
    pub x1: Fixed,
    pub y1: Fixed,
}

/// An affine map: `(x, y)` goes to `(xx * x + xy * y + dx, yx * x + yy * y + dy)`.
#[derive(Debug, Clone, Copy, PartialEq, Eq, Structural)]
pub struct Affine {
    pub xx: Fixed,
    pub yx: Fixed,
    pub xy: Fixed,
    pub yy: Fixed,
    pub dx: Fixed,
    pub dy: Fixed,
}

/// One step of a path.
#[derive(Debug, Clone, Copy, PartialEq, Eq, Structural)]
pub enum PathEl {
    MoveTo(Point),
    LineTo(Point),
    QuadTo(Point, Point),
    CurveTo(Point, Point, Point),
    ClosePath,
}

/// Which points are inside a path that crosses itself.
#[derive(Debug, Clone, Copy, PartialEq, Eq, Structural)]
pub enum FillRule {
    NonZero,
    EvenOdd,
}

/// A path: its steps in drawing order.
#[derive(Debug)]
pub struct Path {
    pub elements: Vec<PathEl>,
}

impl View for Path {
    type V = Seq<PathEl>;

    open spec fn view(&self) -> Seq<PathEl> {
        self.elements@
    }
}

/// The map that leaves every point where it is.
pub open spec fn identity() -> Affine {
    Affine {
        xx: Fixed { nanos: ONE },
        yx: Fixed { nanos: 0 },
        xy: Fixed { nanos: 0 },
        yy: Fixed { nanos: ONE },
        dx: Fixed { nanos: 0 },
        dy: Fixed { nanos: 0 },
    }
}

impl Affine {
    /// The map that leaves every point where it is.
    pub fn identity() -> (t: Affine)
        ensures
            t == identity(),
    {
        Affine {
            xx: Fixed { nanos: ONE },
            yx: Fixed { nanos: 0 },
            xy: Fixed { nanos: 0 },
            yy: Fixed { nanos: ONE },
            dx: Fixed { nanos: 0 },
            dy: Fixed { nanos: 0 },
        }
    }

    /// The map that moves every point by `(dx, dy)`.
    pub fn translate(dx: Fixed, dy: Fixed) -> (t: Affine)
        ensures
            t == (Affine { dx, dy, ..identity() }),
    {
        let mut t = Affine::identity();
        t.dx = dx;
        t.dy = dy;
        t
    }

    /// Where the map takes `p`.
    pub open spec fn spec_apply(self, p: Point) -> Point {
        Point {
            x: self.xx.spec_times(p.x).spec_plus(self.xy.spec_times(p.y)).spec_plus(self.dx),
            y: self.yx.spec_times(p.x).spec_plus(self.yy.spec_times(p.y)).spec_plus(self.dy),
        }
    }

    /// Where the map takes `p`.
    pub fn apply(self, p: Point) -> (q: Point)
        ensures
            q == self.spec_apply(p),
    {
        Point {
            x: self.xx.times(p.x).plus(self.xy.times(p.y)).plus(self.dx),
            y: self.yx.times(p.x).plus(self.yy.times(p.y)).plus(self.dy),
        }
    }
}

/// True when `t` leaves every point where it is.
pub fn is_identity(t: Affine) -> (r: bool)
    ensures
        r == (t == identity()),
{
    t == Affine::identity()
}

/// One path step carried through a map.
pub open spec fn map_element(t: Affine, el: PathEl) -> PathEl {
    match el {
        PathEl::MoveTo(p) => PathEl::MoveTo(t.spec_apply(p)),
        PathEl::LineTo(p) => PathEl::LineTo(t.spec_apply(p)),
        PathEl::QuadTo(a, p) => PathEl::QuadTo(t.spec_apply(a), t.spec_apply(p)),
        PathEl::CurveTo(a, b, p) => PathEl::CurveTo(
            t.spec_apply(a),
            t.spec_apply(b),
            t.spec_apply(p),
        ),
        PathEl::ClosePath => PathEl::ClosePath,
    }
}

/// A path carried through a map, step by step.
pub open spec fn map_path(t: Affine, path: Seq<PathEl>) -> Seq<PathEl> {
    Seq::new(path.len(), |i: int| map_element(t, path[i]))
}

impl Path {
    /// The path with no steps.
    pub fn new() -> (p: Path)
        ensures
            p@ == Seq::<PathEl>::empty(),
    {
        Path { elements: Vec::new() }
    }

    /// Add one step at the end.
    pub fn push(&mut self, el: PathEl)
        ensures
            final(self)@ == old(self)@.push(el),
    {
        self.elements.push(el);
    }

    /// The outline of `r`: its four corners from `(x0, y0)` and a close.
    pub fn rect(r: Rect) -> (p: Path)
        ensures
            p@ == rect_path(r),
    {
        let mut p = Path::new();
        p.push(PathEl::MoveTo(Point { x: r.x0, y: r.y0 }));
        p.push(PathEl::LineTo(Point { x: r.x1, y: r.y0 }));
        p.push(PathEl::LineTo(Point { x: r.x1, y: r.y1 }));
        p.push(PathEl::LineTo(Point { x: r.x0, y: r.y1 }));
        p.push(PathEl::ClosePath);
        assert(p@ =~= rect_path(r));
        p
    }

    /// A path with the same steps.
    pub fn copied(&self) -> (p: Path)
        ensures
            p@ == self@,
    {
        let mut p = Path::new();
        let mut i: usize = 0;
        while i < self.elements.len()
            invariant
                i <= self.elements@.len(),
                p@ == self@.subrange(0, i as int),
            decreases self.elements@.len() - i,
        {
            p.push(self.elements[i]);
            i = i + 1;
            assert(self@.subrange(0, i as int) =~= self@.subrange(0, i - 1).push(self@[i - 1]));
        }
        assert(self@.subrange(0, i as int) =~= self@);
        p
    }

    /// The path carried through `t`.
    pub fn transformed(&self, t: Affine) -> (p: Path)
        ensures
            p@ == map_path(t, self@),
    {
        let mut p = Path::new();
        let mut i: usize = 0;
        while i < self.elements.len()
            invariant
                i <= self.elements@.len(),
                p@.len() == i,
                forall|j: int| 0 <= j < i ==> p@[j] == map_element(t, self@[j]),
            decreases self.elements@.len() - i,
        {
            let el = match self.elements[i] {
                PathEl::MoveTo(p) => PathEl::MoveTo(t.apply(p)),
                PathEl::LineTo(p) => PathEl::LineTo(t.apply(p)),
                PathEl::QuadTo(a, p) => PathEl::QuadTo(t.apply(a), t.apply(p)),
                PathEl::CurveTo(a, b, p) => PathEl::CurveTo(t.apply(a), t.apply(b), t.apply(p)),
                PathEl::ClosePath => PathEl::ClosePath,
            };
            p.push(el);
            i = i + 1;
        }
        assert(p@ =~= map_path(t, self@));
        p
    }

    /// True when both paths take the same steps.
    pub fn same(&self, other: &Path) -> (r: bool)
        ensures
            r == (self@ == other@),
    {
        if self.elements.len() != other.elements.len() {
            return false;
        }
        let mut i: usize = 0;
        while i < self.elements.len()
            invariant
                i <= self.elements@.len(),
                self.elements@.len() == other.elements@.len(),
                forall|j: int| 0 <= j < i ==> self@[j] == other@[j],
            decreases self.elements@.len() - i,
        {
            if self.elements[i] != other.elements[i] {
                assert(self@[i as int] != other@[i as int]);
                return false;
            }
            i = i + 1;
        }
        assert(self@ =~= other@);
        true
    }
}

/// The outline of `r`: its four corners from `(x0, y0)` and a close.
pub open spec fn rect_path(r: Rect) -> Seq<PathEl> {
    seq![
        PathEl::MoveTo(Point { x: r.x0, y: r.y0 }),
        PathEl::LineTo(Point { x: r.x1, y: r.y0 }),
        PathEl::LineTo(Point { x: r.x1, y: r.y1 }),
        PathEl::LineTo(Point { x: r.x0, y: r.y1 }),
        PathEl::ClosePath,
    ]
}

/// How near two coordinates must lie to count as one: a millionth.
pub const NEAR: i64 = 1_000;

/// The corner a step stands at, when it is a straight one.
pub open spec fn corner_of(el: PathEl) -> Option<Point> {
    match el {
        PathEl::MoveTo(p) => Some(p),
        PathEl::LineTo(p) => Some(p),
        _ => None,
    }
}

/// True when the first `n` steps are all straight or a close.
pub open spec fn straight(path: Seq<PathEl>, n: int) -> bool {
    forall|i: int|
        0 <= i < n ==> (corner_of(#[trigger] path[i]) is Some || path[i] == PathEl::ClosePath)
}

/// The corners of the first `n` steps, closes left out.
pub open spec fn corners(path: Seq<PathEl>, n: nat) -> Seq<Point>
    decreases n,
{
    if n == 0 {
        seq![]
    } else {
        let before = corners(path, (n - 1) as nat);
        match corner_of(path[n - 1]) {
            Some(p) => before.push(p),
            None => before,
        }
    }
}

/// The least of four coordinates.
pub open spec fn least(a: int, b: int, c: int, d: int) -> int {
    let m = if a < b { a } else { b };
    let k = if c < d { c } else { d };
    if m < k { m } else { k }
}

/// The greatest of four coordinates.
pub open spec fn greatest(a: int, b: int, c: int, d: int) -> int {
    let m = if a > b { a } else { b };
    let k = if c > d { c } else { d };
    if m > k { m } else { k }
}

/// True when `a` and `b` are less than a millionth apart.
pub open spec fn near(a: int, b: int) -> bool {
    -NEAR < a - b < NEAR
}

/// True when `p` and `q` are at most a millionth apart in the plane.
pub open spec fn same_place(p: Point, q: Point) -> bool {
    let dx = p.x.nanos - q.x.nanos;
    let dy = p.y.nanos - q.y.nanos;
    dx * dx + dy * dy <= NEAR * NEAR
}

/// The box around four corners.
pub open spec fn bounds(c: Seq<Point>) -> Rect {
    Rect {
        x0: Fixed {
            nanos: least(
                c[0].x.nanos as int,
                c[1].x.nanos as int,
                c[2].x.nanos as int,
                c[3].x.nanos as int,
            ) as i64,
        },
        y0: Fixed {
            nanos: least(
                c[0].y.nanos as int,
                c[1].y.nanos as int,
                c[2].y.nanos as int,
                c[3].y.nanos as int,
            ) as i64,
        },
        x1: Fixed {
            nanos: greatest(
                c[0].x.nanos as int,
                c[1].x.nanos as int,
                c[2].x.nanos as int,
                c[3].x.nanos as int,
            ) as i64,
        },
        y1: Fixed {
            nanos: greatest(
                c[0].y.nanos as int,
                c[1].y.nanos as int,
                c[2].y.nanos as int,
                c[3].y.nanos as int,
            ) as i64,
        },
    }
}

/// True when `a` and `b` are near the two ends `low` and `high`, one each.
pub open spec fn crosses(a: int, b: int, low: int, high: int) -> bool {
    (near(a, low) && near(b, high)) || (near(a, high) && near(b, low))
}

/// True when the edge from `p` to `q` runs across `r`, from one upright side
/// to the other.
pub open spec fn level(p: Point, q: Point, r: Rect) -> bool {
    near(p.y.nanos as int, q.y.nanos as int) && crosses(
        p.x.nanos as int,
        q.x.nanos as int,
        r.x0.nanos as int,
        r.x1.nanos as int,
    )
}

/// True when the edge from `p` to `q` runs down `r`, from one level side to
/// the other, or up it.
pub open spec fn upright(p: Point, q: Point, r: Rect) -> bool {
    near(p.x.nanos as int, q.x.nanos as int) && crosses(
        p.y.nanos as int,
        q.y.nanos as int,
        r.y0.nanos as int,
        r.y1.nanos as int,
    )
}

/// True when the four corners go round `r`, each edge along a side of it and
/// the sides across and down by turns.
pub open spec fn goes_round(c: Seq<Point>, r: Rect) -> bool {
    ||| level(c[0], c[1], r) && upright(c[1], c[2], r) && level(c[2], c[3], r) && upright(
        c[3],
        c[0],
        r,
    )
    ||| upright(c[0], c[1], r) && level(c[1], c[2], r) && upright(c[2], c[3], r) && level(
        c[3],
        c[0],
        r,
    )
}

/// The rectangle that `path` describes under `transform`, when it is an
/// axis-aligned one: four straight corners, or five that end where they
/// began, that go round the box about them, under a map that neither turns
/// nor skews.
pub open spec fn rect_of(path: Seq<PathEl>, transform: Affine) -> Option<Rect> {
    let c = corners(path, path.len());
    if transform.yx.nanos != 0 || transform.xy.nanos != 0 {
        None
    } else if !straight(path, path.len() as int) {
        None
    } else if c.len() < 4 || c.len() > 5 {
        None
    } else if c.len() == 5 && !same_place(c[4], c[0]) {
        None
    } else if goes_round(c, bounds(c)) {
        Some(bounds(c))
    } else {
        None
    }
}

fn lesser(a: i64, b: i64) -> (r: i64)
    ensures
        r == (if a < b { a } else { b }),
{
    if a < b {
        a
    } else {
        b
    }
}

fn larger(a: i64, b: i64) -> (r: i64)
    ensures
        r == (if a > b { a } else { b }),
{
    if a > b {
        a
    } else {
        b
    }
}

fn is_near(a: Fixed, b: Fixed) -> (r: bool)
    ensures
        r == near(a.nanos as int, b.nanos as int),
{
    let d: i128 = a.nanos as i128 - b.nanos as i128;
    -(NEAR as i128) < d && d < NEAR as i128
}

fn is_same_place(p: Point, q: Point) -> (r: bool)
    ensures
        r == same_place(p, q),
{
    let dx: i128 = p.x.nanos as i128 - q.x.nanos as i128;
    let dy: i128 = p.y.nanos as i128 - q.y.nanos as i128;
    let limit: i128 = NEAR as i128;
    if dx > limit || dx < -limit {
        assert(dx * dx + dy * dy > NEAR * NEAR) by (nonlinear_arith)
            requires
                dx > 1000 || dx < -1000,
                NEAR == 1000,
        ;
        return false;
    }
    if dy > limit || dy < -limit {
        assert(dx * dx + dy * dy > NEAR * NEAR) by (nonlinear_arith)
            requires
                dy > 1000 || dy < -1000,
                NEAR == 1000,
        ;
        return false;
    }
    assert(0 <= dx * dx <= 1_000_000) by (nonlinear_arith)
        requires
            -1000 <= dx <= 1000,
    ;
    assert(0 <= dy * dy <= 1_000_000) by (nonlinear_arith)
        requires
            -1000 <= dy <= 1000,
    ;
    dx * dx + dy * dy <= limit * limit
}

fn does_cross(a: Fixed, b: Fixed, low: Fixed, high: Fixed) -> (r: bool)
    ensures
        r == crosses(a.nanos as int, b.nanos as int, low.nanos as int, high.nanos as int),
{
    (is_near(a, low) && is_near(b, high)) || (is_near(a, high) && is_near(b, low))
}

fn is_level(p: Point, q: Point, r: Rect) -> (b: bool)
    ensures
        b == level(p, q, r),
{
    is_near(p.y, q.y) && does_cross(p.x, q.x, r.x0, r.x1)
}

fn is_upright(p: Point, q: Point, r: Rect) -> (b: bool)
    ensures
        b == upright(p, q, r),
{
    is_near(p.x, q.x) && does_cross(p.y, q.y, r.y0, r.y1)
}

/// The rectangle `path` describes, when it is an axis-aligned one drawn
/// under `transform`.
///
/// `None` means "draw it normally", so a shape that is not recognized costs
/// a duplicated rule and never a missing graphic.
pub fn axis_aligned_rect(path: &Path, transform: Affine) -> (r: Option<Rect>)
    ensures
        r == rect_of(path@, transform),
{
    if !is_identity(transform) && (transform.yx.nanos != 0 || transform.xy.nanos != 0) {
        return None;
    }
    let mut pts: Vec<Point> = Vec::new();
    let mut i: usize = 0;
    while i < path.elements.len()
        invariant
            i <= path.elements@.len(),
            transform.yx.nanos == 0 && transform.xy.nanos == 0,
            straight(path@, i as int),
            pts@ == corners(path@, i as nat),
        decreases path.elements@.len() - i,
    {
        match path.elements[i] {
            PathEl::MoveTo(p) => pts.push(p),
            PathEl::LineTo(p) => pts.push(p),
            PathEl::ClosePath => {},
            _ => {
                assert(corner_of(path@[i as int]) is None);
                return None;
            },
        }
        i = i + 1;
    }
    if pts.len() < 4 || pts.len() > 5 {
        return None;
    }
    if pts.len() == 5 && !is_same_place(pts[4], pts[0]) {
        return None;
    }
    let (a, b, c, d) = (pts[0], pts[1], pts[2], pts[3]);
    let around = Rect {
        x0: Fixed {
            nanos: lesser(lesser(a.x.nanos, b.x.nanos), lesser(c.x.nanos, d.x.nanos)),
        },
        y0: Fixed {
            nanos: lesser(lesser(a.y.nanos, b.y.nanos), lesser(c.y.nanos, d.y.nanos)),
        },
        x1: Fixed {
            nanos: larger(larger(a.x.nanos, b.x.nanos), larger(c.x.nanos, d.x.nanos)),
        },
        y1: Fixed {
            nanos: larger(larger(a.y.nanos, b.y.nanos), larger(c.y.nanos, d.y.nanos)),
        },
    };
    assert(around == bounds(pts@));
    // The edges have to go round the bounding box for this to be a rectangle
    // rather than some other shape on its corners.
    let across_first = is_level(a, b, around) && is_upright(b, c, around) && is_level(c, d, around)
        && is_upright(d, a, around);
    let down_first = is_upright(a, b, around) && is_level(b, c, around) && is_upright(c, d, around)
        && is_level(d, a, around);
    if !across_first && !down_first {
        return None;
    }
    Some(around)
}

/// True when `p` is near the place with these coordinates.
pub open spec fn near_point(p: Point, x: Fixed, y: Fixed) -> bool {
    near(p.x.nanos as int, x.nanos as int) && near(p.y.nanos as int, y.nanos as int)
}

/// What is taken for a rectangle, when that is large enough to tell its sides
/// apart, stands on every corner of it: a triangle, or a shape that crosses
/// itself, is never taken for one.
pub proof fn lemma_rect_stands_on_every_corner(path: Seq<PathEl>, transform: Affine)
    requires
        rect_of(path, transform) is Some,
        rect_of(path, transform)->0.x1.nanos - rect_of(path, transform)->0.x0.nanos >= 4 * NEAR,
        rect_of(path, transform)->0.y1.nanos - rect_of(path, transform)->0.y0.nanos >= 4 * NEAR,
    ensures
        ({
            let r = rect_of(path, transform)->0;
            let c = corners(path, path.len());
            let first = near_point(c[0], r.x0, r.y0) || near_point(c[2], r.x0, r.y0);
            &&& first ==> (near_point(c[0], r.x1, r.y1) || near_point(c[2], r.x1, r.y1)) && (
            near_point(c[1], r.x1, r.y0) && near_point(c[3], r.x0, r.y1) || near_point(
                c[3],
                r.x1,
                r.y0,
            ) && near_point(c[1], r.x0, r.y1))
            &&& !first ==> (near_point(c[1], r.x0, r.y0) && near_point(c[3], r.x1, r.y1)
                || near_point(c[3], r.x0, r.y0) && near_point(c[1], r.x1, r.y1)) && (near_point(
                c[0],
                r.x1,
                r.y0,
            ) && near_point(c[2], r.x0, r.y1) || near_point(c[2], r.x1, r.y0) && near_point(
                c[0],
                r.x0,
                r.y1,
            ))
        }),
{
}

/// The outline of a rectangle is recognized as that rectangle, provided its
/// corners are in order.
pub proof fn lemma_rect_outline_is_recognized(r: Rect)
    requires
        r.x0.nanos <= r.x1.nanos,
        r.y0.nanos <= r.y1.nanos,
    ensures
        rect_of(rect_path(r), identity()) == Some(r),
{
    let path = rect_path(r);
    reveal_with_fuel(corners, 6);
    let c = corners(path, 5);
    assert(c.len() == 4);
    assert(straight(path, 5));
    assert(bounds(c) == r);
}

/// A map takes a point across by what it makes of the way across and of the way
/// down, and down likewise, each to within a billionth, wherever no step of the
/// sum is too large to hold.
pub proof fn lemma_map_moves_points(t: Affine, p: Point)
    requires
        ({
            let room = 2_000_000_000_000_000_000int * 1_000_000_000;
            &&& -room <= t.xx.nanos * p.x.nanos <= room && -room <= t.xy.nanos * p.y.nanos <= room
            &&& -room <= t.yx.nanos * p.x.nanos <= room && -room <= t.yy.nanos * p.y.nanos <= room
            &&& -room <= t.dx.nanos * 1_000_000_000 <= room
            &&& -room <= t.dy.nanos * 1_000_000_000 <= room
        }),
    ensures
        ({
            let unit = 1_000_000_000int;
            let q = t.spec_apply(p);
            &&& -unit <= q.x.nanos * unit - (t.xx.nanos * p.x.nanos + t.xy.nanos * p.y.nanos
                + t.dx.nanos * unit) <= unit
            &&& -unit <= q.y.nanos * unit - (t.yx.nanos * p.x.nanos + t.yy.nanos * p.y.nanos
                + t.dy.nanos * unit) <= unit
        }),
{
    let unit = 1_000_000_000int;
    crate::fixed::lemma_scaling_is_nearest(t.xx, p.x.nanos as int, unit);
    crate::fixed::lemma_scaling_is_nearest(t.xy, p.y.nanos as int, unit);
    crate::fixed::lemma_scaling_is_nearest(t.yx, p.x.nanos as int, unit);
    crate::fixed::lemma_scaling_is_nearest(t.yy, p.y.nanos as int, unit);
}

/// A map takes a path step by step, every point of it, and leaves what kind of
/// step each is.
pub proof fn lemma_map_moves_paths(t: Affine, path: Seq<PathEl>, i: int)
    requires
        0 <= i < path.len(),
    ensures
        map_path(t, path).len() == path.len(),
        match (path[i], map_path(t, path)[i]) {
            (PathEl::MoveTo(p), PathEl::MoveTo(q)) => q == t.spec_apply(p),
            (PathEl::LineTo(p), PathEl::LineTo(q)) => q == t.spec_apply(p),
            (PathEl::QuadTo(a, p), PathEl::QuadTo(b, q)) => b == t.spec_apply(a) && q
                == t.spec_apply(p),
            (PathEl::CurveTo(a, b, p), PathEl::CurveTo(c, d, q)) => c == t.spec_apply(a) && d
                == t.spec_apply(b) && q == t.spec_apply(p),
            (PathEl::ClosePath, PathEl::ClosePath) => true,
            _ => false,
        },
{
}

/// Only a path of straight steps, under a map that turns and slants nothing, is
/// taken for a rectangle, and that reaches exactly as far as its corners do.
pub proof fn lemma_rectangles_are_upright(path: Seq<PathEl>, transform: Affine, i: int)
    requires
        rect_of(path, transform) is Some,
        0 <= i < path.len(),
    ensures
        ({
            let r = rect_of(path, transform)->0;
            let c = corners(path, path.len());
            &&& transform.yx.nanos == 0 && transform.xy.nanos == 0
            &&& path[i] is MoveTo || path[i] is LineTo || path[i] is ClosePath
            &&& 4 <= c.len() <= 5
            &&& forall|k: int|
                0 <= k < 4 ==> r.x0.nanos <= (#[trigger] c[k]).x.nanos <= r.x1.nanos && r.y0.nanos
                    <= c[k].y.nanos <= r.y1.nanos
            &&& exists|k: int| 0 <= k < 4 && (#[trigger] c[k]).x == r.x0
            &&& exists|k: int| 0 <= k < 4 && (#[trigger] c[k]).x == r.x1
            &&& exists|k: int| 0 <= k < 4 && (#[trigger] c[k]).y == r.y0
            &&& exists|k: int| 0 <= k < 4 && (#[trigger] c[k]).y == r.y1
        }),
{
    let c = corners(path, path.len());
    assert(corner_of(path[i]) is Some || path[i] == PathEl::ClosePath);
    let a = c[0];
    let b = c[1];
    let d = c[2];
    let e = c[3];
}

} // verus!
