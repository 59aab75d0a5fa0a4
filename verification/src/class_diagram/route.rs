//! The paths of relationships: straight or orthogonal lines from the edge of
//! one entity to the edge of another.

use crate::class_diagram::layers::is_a;
use crate::class_diagram::model::{ClassDef, ClassDefView, RelationType};
use crate::number::{num, Num};
use vstd::prelude::*;

verus! {

/// How far a path that goes round stays away from the entities, in
/// thousandths.
pub const ROUTE_MARGIN: i64 = 15_000;

/// The vertical distance of the centres above which a hierarchy is drawn
/// from top to bottom, in thousandths.
pub const VERTICAL_GAP: i64 = 20_000;

/// The horizontal distance below which two ends count as aligned, in
/// thousandths.
pub const ALIGN_TOLERANCE: i64 = 10_000;

/// The middle of an entity, from left to right.
pub open spec fn center_x(e: ClassDefView) -> Num {
    e.x.sum(e.width.halved())
}

/// The middle of an entity, from top to bottom.
pub open spec fn center_y(e: ClassDefView) -> Num {
    e.y.sum(e.height.halved())
}

/// The right edge of an entity.
pub open spec fn right_of(e: ClassDefView) -> Num {
    e.x.sum(e.width)
}

/// The lower edge of an entity.
pub open spec fn bottom_of(e: ClassDefView) -> Num {
    e.y.sum(e.height)
}

/// The value half way between two others.
pub open spec fn midway(a: Num, b: Num) -> Num {
    a.sum(b).halved()
}

/// A path from `s` to `e` with one horizontal stretch, half way down.
pub open spec fn by_mid_height(s: (Num, Num), e: (Num, Num)) -> Seq<(Num, Num)> {
    seq![s, (s.0, midway(s.1, e.1)), (e.0, midway(s.1, e.1)), e]
}

/// A path from `s` to `e` with one vertical stretch, half way across.
pub open spec fn by_mid_width(s: (Num, Num), e: (Num, Num)) -> Seq<(Num, Num)> {
    seq![s, (midway(s.0, e.0), s.1), (midway(s.0, e.0), e.1), e]
}

/// A path from `s` to `e` that leaves by `out`, runs at the height `level`,
/// and arrives by `back`.
pub open spec fn by_detour(s: (Num, Num), e: (Num, Num), out: Num, back: Num, level: Num) -> Seq<
    (Num, Num),
> {
    seq![s, (out, s.1), (out, level), (back, level), (back, e.1), e]
}

/// Where a vertical path begins: in the middle of the edge of `from` that
/// faces `to`.
pub open spec fn vertical_start(from: ClassDefView, down: bool) -> (Num, Num) {
    if down {
        (center_x(from), bottom_of(from))
    } else {
        (center_x(from), from.y)
    }
}

/// Where a vertical path ends: in the middle of the edge of `to` that faces
/// `from`.
pub open spec fn vertical_end(to: ClassDefView, down: bool) -> (Num, Num) {
    if down {
        (center_x(to), to.y)
    } else {
        (center_x(to), bottom_of(to))
    }
}

/// The height at which a detour runs: above both entities where `from` lies
/// lower than `to`, else below both.
pub open spec fn detour_level(from: ClassDefView, to: ClassDefView) -> Num {
    if center_y(from)@ > center_y(to)@ {
        from.y.lesser(to.y).difference(num(ROUTE_MARGIN as int))
    } else {
        bottom_of(from).greater(bottom_of(to)).sum(num(ROUTE_MARGIN as int))
    }
}

/// The horizontal path: through the middle of the gap where the gap is wide
/// enough, else round the entities.
pub open spec fn horizontal_route(from: ClassDefView, to: ClassDefView) -> Seq<(Num, Num)> {
    let margin = num(ROUTE_MARGIN as int);
    if center_x(to).difference(center_x(from))@ > 0 {
        let s = (right_of(from), center_y(from));
        let e = (to.x, center_y(to));
        if e.0.difference(s.0)@ > margin.doubled()@ {
            by_mid_width(s, e)
        } else {
            by_detour(s, e, s.0.sum(margin), e.0.difference(margin), detour_level(from, to))
        }
    } else {
        let s = (from.x, center_y(from));
        let e = (right_of(to), center_y(to));
        if s.0.difference(e.0)@ > margin.doubled()@ {
            by_mid_width(s, e)
        } else {
            by_detour(s, e, s.0.difference(margin), e.0.sum(margin), detour_level(from, to))
        }
    }
}

/// The vertical path: straight where that is allowed and the ends are
/// aligned, else through the middle of the gap.
pub open spec fn vertical_route(from: ClassDefView, to: ClassDefView, straight: bool) -> Seq<
    (Num, Num),
> {
    let down = center_y(to).difference(center_y(from))@ > 0;
    let s = vertical_start(from, down);
    let e = vertical_end(to, down);
    if straight && s.0.difference(e.0).size()@ < ALIGN_TOLERANCE {
        seq![s, e]
    } else {
        by_mid_height(s, e)
    }
}

/// The path of a relationship of the given kind from one entity to another.
/// A hierarchy whose ends lie clearly one above the other is drawn
/// vertically. Any other relationship is drawn horizontally, unless it is a
/// hierarchy whose ends lie at least as far apart in height as in width: that
/// one is drawn vertically through the middle of the gap.
pub open spec fn route(from: ClassDefView, to: ClassDefView, kind: RelationType) -> Seq<(Num, Num)> {
    let dx = center_x(to).difference(center_x(from));
    let dy = center_y(to).difference(center_y(from));
    if is_a(kind) && dy.size()@ > VERTICAL_GAP {
        vertical_route(from, to, true)
    } else if dx.size()@ > dy.size()@ || !is_a(kind) {
        horizontal_route(from, to)
    } else {
        vertical_route(from, to, false)
    }
}

/// A point in the middle of one of the four edges of an entity.
pub open spec fn on_edge(e: ClassDefView, p: (Num, Num)) -> bool {
    ||| p == (center_x(e), e.y)
    ||| p == (center_x(e), bottom_of(e))
    ||| p == (e.x, center_y(e))
    ||| p == (right_of(e), center_y(e))
}

/// Each stretch of the path runs straight up and down or straight across.
pub open spec fn orthogonal(path: Seq<(Num, Num)>) -> bool {
    forall|k: int|
        0 <= k < path.len() - 1 ==> (#[trigger] path[k]).0 == path[k + 1].0 || path[k].1 == path[k
            + 1].1
}

/// A path joins its two entities: it begins in the middle of an edge of the
/// one and ends in the middle of an edge of the other. It is a straight line
/// between two ends that are aligned within the tolerance, or it has four or
/// six points and each of its stretches runs straight up and down or
/// straight across.
pub proof fn route_joins_the_entities(from: ClassDefView, to: ClassDefView, kind: RelationType)
    ensures
        route(from, to, kind).len() >= 2,
        on_edge(from, route(from, to, kind).first()),
        on_edge(to, route(from, to, kind).last()),
        route(from, to, kind).len() == 2 ==> is_a(kind) && route(from, to, kind)[0].0.difference(
            route(from, to, kind)[1].0,
        ).size()@ < ALIGN_TOLERANCE,
        route(from, to, kind).len() != 2 ==> orthogonal(route(from, to, kind)) && (route(
            from,
            to,
            kind,
        ).len() == 4 || route(from, to, kind).len() == 6),
{
}

fn path4(a: (Num, Num), b: (Num, Num), c: (Num, Num), d: (Num, Num)) -> (r: Vec<(Num, Num)>)
    ensures
        r@ == seq![a, b, c, d],
{
    let mut r: Vec<(Num, Num)> = Vec::new();
    r.push(a);
    r.push(b);
    r.push(c);
    r.push(d);
    assert(r@ =~= seq![a, b, c, d]);
    r
}

fn mid_height_path(s: (Num, Num), e: (Num, Num)) -> (r: Vec<(Num, Num)>)
    ensures
        r@ == by_mid_height(s, e),
{
    let mid = s.1.plus(e.1).half();
    path4(s, (s.0, mid), (e.0, mid), e)
}

fn mid_width_path(s: (Num, Num), e: (Num, Num)) -> (r: Vec<(Num, Num)>)
    ensures
        r@ == by_mid_width(s, e),
{
    let mid = s.0.plus(e.0).half();
    path4(s, (mid, s.1), (mid, e.1), e)
}

fn detour_path(s: (Num, Num), e: (Num, Num), out: Num, back: Num, level: Num) -> (r: Vec<
    (Num, Num),
>)
    ensures
        r@ == by_detour(s, e, out, back, level),
{
    let mut r: Vec<(Num, Num)> = Vec::new();
    r.push(s);
    r.push((out, s.1));
    r.push((out, level));
    r.push((back, level));
    r.push((back, e.1));
    r.push(e);
    assert(r@ =~= by_detour(s, e, out, back, level));
    r
}

fn middle_x(e: &ClassDef) -> (r: Num)
    ensures
        r == center_x(e@),
{
    e.x.plus(e.width.half())
}

fn middle_y(e: &ClassDef) -> (r: Num)
    ensures
        r == center_y(e@),
{
    e.y.plus(e.height.half())
}

fn vertical_path(from: &ClassDef, to: &ClassDef, straight: bool) -> (r: Vec<(Num, Num)>)
    ensures
        r@ == vertical_route(from@, to@, straight),
{
    let down = middle_y(to).minus(middle_y(from)).above(Num::zero());
    let s = if down {
        (middle_x(from), from.y.plus(from.height))
    } else {
        (middle_x(from), from.y)
    };
    let e = if down {
        (middle_x(to), to.y)
    } else {
        (middle_x(to), to.y.plus(to.height))
    };
    if straight && s.0.minus(e.0).abs().below(Num::from_milli(ALIGN_TOLERANCE)) {
        let mut r: Vec<(Num, Num)> = Vec::new();
        r.push(s);
        r.push(e);
        assert(r@ =~= seq![s, e]);
        r
    } else {
        mid_height_path(s, e)
    }
}

fn horizontal_path(from: &ClassDef, to: &ClassDef) -> (r: Vec<(Num, Num)>)
    ensures
        r@ == horizontal_route(from@, to@),
{
    let margin = Num::from_milli(ROUTE_MARGIN);
    let level = if middle_y(from).above(middle_y(to)) {
        from.y.min(to.y).minus(margin)
    } else {
        from.y.plus(from.height).max(to.y.plus(to.height)).plus(margin)
    };
    if middle_x(to).minus(middle_x(from)).above(Num::zero()) {
        let s = (from.x.plus(from.width), middle_y(from));
        let e = (to.x, middle_y(to));
        if e.0.minus(s.0).above(margin.twice()) {
            mid_width_path(s, e)
        } else {
            detour_path(s, e, s.0.plus(margin), e.0.minus(margin), level)
        }
    } else {
        let s = (from.x, middle_y(from));
        let e = (to.x.plus(to.width), middle_y(to));
        if s.0.minus(e.0).above(margin.twice()) {
            mid_width_path(s, e)
        } else {
            detour_path(s, e, s.0.minus(margin), e.0.plus(margin), level)
        }
    }
}

/// The path of a relationship of the given kind from one entity to another.
pub fn calculate_path(from: &ClassDef, to: &ClassDef, rel_type: RelationType) -> (r: Vec<
    (Num, Num),
>)
    ensures
        r@ == route(from@, to@, rel_type),
        r@.len() == 2 || r@.len() == 4 || r@.len() == 6,
{
    let dx = middle_x(to).minus(middle_x(from));
    let dy = middle_y(to).minus(middle_y(from));
    let prefer_vertical = match rel_type {
        RelationType::Inheritance => true,
        RelationType::Realization => true,
        _ => false,
    };
    if prefer_vertical && dy.abs().above(Num::from_milli(VERTICAL_GAP)) {
        vertical_path(from, to, true)
    } else if dx.abs().above(dy.abs()) || !prefer_vertical {
        horizontal_path(from, to)
    } else {
        vertical_path(from, to, false)
    }
}

} // verus!
