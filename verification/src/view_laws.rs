//! What the view of a picture promises: it fits, the point under the cursor
//! stays, and a drag can be taken back.

use vstd::prelude::*;

use crate::arith::{is_single, plus, single, times, Arithmetic};
use crate::bits::Single;
use crate::exact::{exact, finite_leaves, lemma_one_values, single_value, Functions};
use crate::interp::SINGLE_ONE;
use crate::lossless::{lemma_lossless_single, lossless};
use crate::preview::{anchored, fit_formula, is_dragged, is_drawn_size, is_zoom_about};
use crate::preview::{Point, View2d};

verus! {

pub open spec fn finite_point(p: Point) -> bool {
    p.x.finite() && p.y.finite()
}

/// An image that is drawn at the scale that fits lies within the space, and is
/// as large as it can be: without rounding, it fills the space on one axis, or
/// is drawn at its own size.
pub proof fn lemma_fits<A: Arithmetic>(
    ar: &A,
    g: Functions,
    space: Point,
    image: Point,
    fit: Single,
    zoom: Single,
    drawn: Point,
)
    requires
        lossless(ar, g),
        finite_point(space) && finite_point(image),
        0real < single_value(space.x) && 0real < single_value(space.y),
        0real < single_value(image.x) && 0real < single_value(image.y),
        is_single(ar, fit_formula(space, image), fit),
        zoom.bits == SINGLE_ONE,
        is_drawn_size(ar, image, fit, zoom, drawn),
    ensures
        finite_point(drawn),
        single_value(drawn.x) <= single_value(space.x),
        single_value(drawn.y) <= single_value(space.y),
        single_value(drawn.x) <= single_value(image.x),
        single_value(drawn.y) <= single_value(image.y),
        single_value(drawn.x) * single_value(image.y) == single_value(image.x) * single_value(
            drawn.y,
        ),
        single_value(drawn.x) == single_value(space.x) || single_value(drawn.y) == single_value(
            space.y,
        ) || (single_value(drawn.x) == single_value(image.x) && single_value(drawn.y)
            == single_value(image.y)),
{
    lemma_one_values();
    assert(zoom == Single { bits: SINGLE_ONE });
    reveal_with_fuel(exact, 4);
    reveal_with_fuel(finite_leaves, 4);
    lemma_lossless_single(ar, g, fit_formula(space, image), fit);
    let scale = times(single(fit), single(zoom));
    lemma_lossless_single(ar, g, times(single(image.x), scale), drawn.x);
    lemma_lossless_single(ar, g, times(single(image.y), scale), drawn.y);
    let (a, b) = (single_value(space.x), single_value(space.y));
    let (w, h) = (single_value(image.x), single_value(image.y));
    let f = single_value(fit);
    assert(f * 1real == f) by (nonlinear_arith);
    lemma_share(a, w, f);
    lemma_share(b, h, f);
    assert((w * f) * h == w * (h * f)) by (nonlinear_arith);
}

proof fn lemma_share(a: real, w: real, f: real)
    by (nonlinear_arith)
    requires
        0real < w,
    ensures
        f <= a / w ==> w * f <= a,
        f == a / w ==> w * f == a,
        f <= 1real ==> w * f <= w,
        f == 1real ==> w * f == w,
{
    let q = a / w;
    assert(q * w == a);
}

/// What lies under the cursor stays there: without rounding, the distance of
/// the cursor from the middle of the image grows as the zoom does.
pub proof fn lemma_zoom_keeps_point<A: Arithmetic>(
    ar: &A,
    g: Functions,
    view: View2d,
    centre: Point,
    cursor: Point,
    factor: Single,
    r: View2d,
)
    requires
        lossless(ar, g),
        finite_point(view.pan) && finite_point(centre) && finite_point(cursor),
        view.zoom.finite() && r.zoom.finite(),
        0real < single_value(view.zoom),
        is_zoom_about(ar, view, centre, Some(cursor), factor, r),
    ensures
        finite_point(r.pan),
        (single_value(cursor.x) - single_value(centre.x) - single_value(r.pan.x)) * single_value(
            view.zoom,
        ) == (single_value(cursor.x) - single_value(centre.x) - single_value(view.pan.x))
            * single_value(r.zoom),
        (single_value(cursor.y) - single_value(centre.y) - single_value(r.pan.y)) * single_value(
            view.zoom,
        ) == (single_value(cursor.y) - single_value(centre.y) - single_value(view.pan.y))
            * single_value(r.zoom),
{
    lemma_anchored(ar, g, centre.x, view.pan.x, cursor.x, view.zoom, r.zoom, r.pan.x);
    lemma_anchored(ar, g, centre.y, view.pan.y, cursor.y, view.zoom, r.zoom, r.pan.y);
}

proof fn lemma_anchored<A: Arithmetic>(
    ar: &A,
    g: Functions,
    centre: Single,
    pan: Single,
    cursor: Single,
    before: Single,
    after: Single,
    r: Single,
)
    requires
        lossless(ar, g),
        centre.finite() && pan.finite() && cursor.finite() && before.finite() && after.finite(),
        0real < single_value(before),
        is_single(ar, anchored(centre, pan, cursor, before, after), r),
    ensures
        r.finite(),
        (single_value(cursor) - single_value(centre) - single_value(r)) * single_value(before) == (
        single_value(cursor) - single_value(centre) - single_value(pan)) * single_value(after),
{
    lemma_one_values();
    reveal_with_fuel(exact, 5);
    reveal_with_fuel(finite_leaves, 5);
    lemma_lossless_single(ar, g, anchored(centre, pan, cursor, before, after), r);
    let (a, b) = (single_value(after), single_value(before));
    let o = single_value(cursor) - (single_value(centre) + single_value(pan));
    let q = a / b;
    assert(q * b == a) by (nonlinear_arith)
        requires
            q == a / b,
            0real < b,
    ;
    assert((o - o * (1real - q)) * b == o * (q * b)) by (nonlinear_arith);
}

/// A drag shifts the image and no more: without rounding, the opposite drag
/// takes it back.
pub proof fn lemma_drag_taken_back<A: Arithmetic>(
    ar: &A,
    g: Functions,
    view: View2d,
    by: Point,
    back: Point,
    there: View2d,
    r: View2d,
)
    requires
        lossless(ar, g),
        finite_point(view.pan) && finite_point(by) && finite_point(back),
        single_value(back.x) == -single_value(by.x),
        single_value(back.y) == -single_value(by.y),
        is_dragged(ar, view, by, there),
        is_dragged(ar, there, back, r),
    ensures
        r.zoom == view.zoom,
        single_value(r.pan.x) == single_value(view.pan.x),
        single_value(r.pan.y) == single_value(view.pan.y),
        single_value(there.pan.x) - single_value(view.pan.x) == single_value(by.x),
        single_value(there.pan.y) - single_value(view.pan.y) == single_value(by.y),
{
    reveal_with_fuel(exact, 2);
    reveal_with_fuel(finite_leaves, 2);
    lemma_lossless_single(ar, g, plus(single(view.pan.x), single(by.x)), there.pan.x);
    lemma_lossless_single(ar, g, plus(single(view.pan.y), single(by.y)), there.pan.y);
    lemma_lossless_single(ar, g, plus(single(there.pan.x), single(back.x)), r.pan.x);
    lemma_lossless_single(ar, g, plus(single(there.pan.y), single(back.y)), r.pan.y);
}

} // verus!
