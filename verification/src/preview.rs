//! The preview: how large an image is drawn, and where.

use vstd::prelude::*;

use crate::arith::{is_single, minus, over, plus, rounds_to, single, smaller, times, unary, widen};
use crate::arith::{Arithmetic, Formula, Rounding, Traced, Unary};
use crate::bits::Single;
use crate::interp::SINGLE_ONE;
use crate::text::{join, signed_decimal, signed_decimal_string};

verus! {

/// A point or a shift on the screen.
#[derive(Clone, Copy, Debug, PartialEq, Eq, Structural)]
pub struct Point {
    pub x: Single,
    pub y: Single,
}

/// The zoom on top of the scale that fits the image, and the shift of its
/// centre.
#[derive(Clone, Copy, Debug, PartialEq, Eq, Structural)]
pub struct View2d {
    pub zoom: Single,
    pub pan: Point,
}

/// The view that fits the image.
pub open spec fn fitting() -> View2d {
    View2d {
        zoom: Single { bits: SINGLE_ONE },
        pan: Point { x: Single { bits: 0 }, y: Single { bits: 0 } },
    }
}

/// The view that fits the image.
pub fn fit() -> (r: View2d)
    ensures
        r == fitting(),
{
    View2d {
        zoom: Single { bits: SINGLE_ONE },
        pan: Point { x: Single { bits: 0 }, y: Single { bits: 0 } },
    }
}

// ── Scale ────────────────────────────────────────────────────────────────

/// The scale at which an image fits the space, and never more than 1.
pub open spec fn fit_formula(space: Point, image: Point) -> Formula {
    smaller(
        smaller(
            over(single(space.x), single(image.x)),
            over(single(space.y), single(image.y)),
        ),
        single(Single { bits: SINGLE_ONE }),
    )
}

/// The scale at which an image fits the space.
pub fn fit_scale<A: Arithmetic>(ar: &A, space: Point, image: Point) -> (r: Single)
    ensures
        is_single(ar, fit_formula(space, image), r),
{
    let ax: Traced<Single> = Traced::new(ar, space.x);
    let ay: Traced<Single> = Traced::new(ar, space.y);
    let ix: Traced<Single> = Traced::new(ar, image.x);
    let iy: Traced<Single> = Traced::new(ar, image.y);
    let one: Traced<Single> = Traced::new(ar, Single { bits: SINGLE_ONE });
    ax.over(ar, ix).smaller(ar, ay.over(ar, iy)).smaller(ar, one).value
}

/// `r` is the size at which an image is drawn.
pub open spec fn is_drawn_size<A: Arithmetic>(
    ar: &A,
    image: Point,
    fit: Single,
    zoom: Single,
    r: Point,
) -> bool {
    let scale = times(single(fit), single(zoom));
    is_single(ar, times(single(image.x), scale), r.x) && is_single(
        ar,
        times(single(image.y), scale),
        r.y,
    )
}

/// The size at which an image is drawn.
pub fn drawn_size<A: Arithmetic>(ar: &A, image: Point, fit: Single, zoom: Single) -> (r: Point)
    ensures
        is_drawn_size(ar, image, fit, zoom, r),
{
    let f: Traced<Single> = Traced::new(ar, fit);
    let scale = f.times(ar, Traced::new(ar, zoom));
    let ix: Traced<Single> = Traced::new(ar, image.x);
    let iy: Traced<Single> = Traced::new(ar, image.y);
    Point { x: ix.times(ar, scale).value, y: iy.times(ar, scale).value }
}

// ── Zoom ─────────────────────────────────────────────────────────────────

/// `r` is the factor of a scroll: small steps on a logarithmic scale, and
/// none below a threshold.
pub open spec fn is_scroll_factor<A: Arithmetic>(ar: &A, scroll: Single, r: Single) -> bool {
    exists|size: Single| #[trigger]
        is_single(ar, unary(Unary::Absolute, single(scroll)), size) && if (Single {
            bits: 0x3c23_d70a,
        }).below(size) {
            is_single(
                ar,
                unary(Unary::Exp, times(single(scroll), single(Single { bits: 0x3ac4_9ba6 }))),
                r,
            )
        } else {
            r.bits == SINGLE_ONE
        }
}

fn scroll_factor<A: Arithmetic>(ar: &A, scroll: Single) -> (r: Single)
    ensures
        is_scroll_factor(ar, scroll, r),
{
    let s: Traced<Single> = Traced::new(ar, scroll);
    let size = s.unary(ar, Unary::Absolute).value;
    assert(is_single(ar, unary(Unary::Absolute, single(scroll)), size));
    let least = Single { bits: 0x3c23_d70a };
    if least.is_below(size) {
        let step: Traced<Single> = Traced::new(ar, Single { bits: 0x3ac4_9ba6 });
        s.times(ar, step).unary(ar, Unary::Exp).value
    } else {
        Single { bits: SINGLE_ONE }
    }
}

/// The factor changes something.
pub open spec fn is_notable<A: Arithmetic>(ar: &A, factor: Single, r: bool) -> bool {
    exists|off: Single| #[trigger]
        is_single(
            ar,
            unary(
                Unary::Absolute,
                minus(single(factor), single(Single { bits: SINGLE_ONE })),
            ),
            off,
        ) && r == (Single { bits: 0x38d1_b717 }).below(off)
}

fn notable<A: Arithmetic>(ar: &A, factor: Single) -> (r: bool)
    ensures
        is_notable(ar, factor, r),
{
    let v: Traced<Single> = Traced::new(ar, factor);
    let one: Traced<Single> = Traced::new(ar, Single { bits: SINGLE_ONE });
    let off = v.minus(ar, one).unary(ar, Unary::Absolute).value;
    proof {
        assert(is_single(
            ar,
            unary(
                Unary::Absolute,
                minus(single(factor), single(Single { bits: SINGLE_ONE })),
            ),
            off,
        ));
    }
    let least = Single { bits: 0x38d1_b717 };
    least.is_below(off)
}

/// A zoom kept between 0.1 and 32; a NaN stays.
pub open spec fn kept_zoom(z: Single) -> Single {
    if z.below(Single { bits: 0x3dcc_cccd }) {
        Single { bits: 0x3dcc_cccd }
    } else if (Single { bits: 0x4200_0000 }).below(z) {
        Single { bits: 0x4200_0000 }
    } else {
        z
    }
}

fn keep_zoom(z: Single) -> (r: Single)
    ensures
        r == kept_zoom(z),
{
    let low = Single { bits: 0x3dcc_cccd };
    let high = Single { bits: 0x4200_0000 };
    if z.is_below(low) {
        low
    } else if high.is_below(z) {
        high
    } else {
        z
    }
}

/// The zoom after a factor.
pub open spec fn is_zoomed<A: Arithmetic>(ar: &A, zoom: Single, factor: Single, r: Single) -> bool {
    exists|z: Single| #[trigger]
        is_single(ar, times(single(zoom), single(factor)), z) && r == kept_zoom(z)
}

/// The shift after a zoom, on one axis: the point under the cursor stays
/// where it is.
pub open spec fn anchored(
    centre: Single,
    pan: Single,
    cursor: Single,
    before: Single,
    after: Single,
) -> Formula {
    let offset = minus(single(cursor), plus(single(centre), single(pan)));
    let ratio = over(single(after), single(before));
    plus(single(pan), times(offset, minus(single(Single { bits: SINGLE_ONE }), ratio)))
}

fn anchor<A: Arithmetic>(
    ar: &A,
    centre: Single,
    pan: Single,
    cursor: Single,
    before: Single,
    after: Single,
) -> (r: Single)
    ensures
        is_single(ar, anchored(centre, pan, cursor, before, after), r),
{
    let c: Traced<Single> = Traced::new(ar, centre);
    let p: Traced<Single> = Traced::new(ar, pan);
    let at: Traced<Single> = Traced::new(ar, cursor);
    let a: Traced<Single> = Traced::new(ar, after);
    let one: Traced<Single> = Traced::new(ar, Single { bits: SINGLE_ONE });
    let offset = at.minus(ar, c.plus(ar, p));
    let ratio = a.over(ar, Traced::new(ar, before));
    p.plus(ar, offset.times(ar, one.minus(ar, ratio))).value
}

/// `r` is the view after a zoom by a factor about the cursor.
pub open spec fn is_zoom_about<A: Arithmetic>(
    ar: &A,
    view: View2d,
    centre: Point,
    cursor: Option<Point>,
    factor: Single,
    r: View2d,
) -> bool {
    &&& is_zoomed(ar, view.zoom, factor, r.zoom)
    &&& match cursor {
        Some(at) => {
            &&& is_single(
                ar,
                anchored(centre.x, view.pan.x, at.x, view.zoom, r.zoom),
                r.pan.x,
            )
            &&& is_single(
                ar,
                anchored(centre.y, view.pan.y, at.y, view.zoom, r.zoom),
                r.pan.y,
            )
        },
        None => r.pan == view.pan,
    }
}

/// `r` is the view after a pinch and a scroll.
pub open spec fn is_zoom<A: Arithmetic>(
    ar: &A,
    view: View2d,
    centre: Point,
    cursor: Option<Point>,
    pinch: Single,
    scroll: Single,
    r: View2d,
) -> bool {
    exists|step: Single, factor: Single, notable: bool|
        {
            &&& #[trigger] is_scroll_factor(ar, scroll, step)
            &&& #[trigger] is_single(ar, times(single(pinch), single(step)), factor)
            &&& #[trigger] is_notable(ar, factor, notable)
            &&& if notable {
                is_zoom_about(ar, view, centre, cursor, factor, r)
            } else {
                r == view
            }
        }
}

/// Zooms about the cursor. `centre` is the middle of the space.
pub fn zoom_view<A: Arithmetic>(
    ar: &A,
    view: View2d,
    centre: Point,
    cursor: Option<Point>,
    pinch: Single,
    scroll: Single,
) -> (r: View2d)
    ensures
        is_zoom(ar, view, centre, cursor, pinch, scroll, r),
{
    let step = scroll_factor(ar, scroll);
    let p: Traced<Single> = Traced::new(ar, pinch);
    let factor = p.times(ar, Traced::new(ar, step)).value;
    let change = notable(ar, factor);
    proof {
        assert(is_scroll_factor(ar, scroll, step));
        assert(is_single(ar, times(single(pinch), single(step)), factor));
        assert(is_notable(ar, factor, change));
    }
    if !change {
        return view;
    }
    let old_zoom: Traced<Single> = Traced::new(ar, view.zoom);
    let z = old_zoom.times(ar, Traced::new(ar, factor)).value;
    assert(is_single(ar, times(single(view.zoom), single(factor)), z));
    let zoom = keep_zoom(z);
    let pan = match cursor {
        Some(at) => Point {
            x: anchor(ar, centre.x, view.pan.x, at.x, view.zoom, zoom),
            y: anchor(ar, centre.y, view.pan.y, at.y, view.zoom, zoom),
        },
        None => view.pan,
    };
    let r = View2d { zoom, pan };
    assert(is_zoom_about(ar, view, centre, cursor, factor, r));
    r
}

/// `r` is the view after a drag.
pub open spec fn is_dragged<A: Arithmetic>(ar: &A, view: View2d, by: Point, r: View2d) -> bool {
    &&& r.zoom == view.zoom
    &&& is_single(ar, plus(single(view.pan.x), single(by.x)), r.pan.x)
    &&& is_single(ar, plus(single(view.pan.y), single(by.y)), r.pan.y)
}

/// Shifts the view with a drag.
pub fn drag_view<A: Arithmetic>(ar: &A, view: View2d, by: Point) -> (r: View2d)
    ensures
        is_dragged(ar, view, by, r),
{
    let x: Traced<Single> = Traced::new(ar, view.pan.x);
    let y: Traced<Single> = Traced::new(ar, view.pan.y);
    View2d {
        zoom: view.zoom,
        pan: Point {
            x: x.plus(ar, Traced::new(ar, by.x)).value,
            y: y.plus(ar, Traced::new(ar, by.y)).value,
        },
    }
}

// ── Labels ───────────────────────────────────────────────────────────────

/// The view is as good as the one that fits.
pub open spec fn is_nearly_fit<A: Arithmetic>(ar: &A, view: View2d, r: bool) -> bool {
    exists|off: Single, far: Single|
        {
            &&& #[trigger] is_single(
                ar,
                unary(
                    Unary::Absolute,
                    minus(single(view.zoom), single(Single { bits: SINGLE_ONE })),
                ),
                off,
            )
            &&& #[trigger] is_single(
                ar,
                plus(
                    times(single(view.pan.x), single(view.pan.x)),
                    times(single(view.pan.y), single(view.pan.y)),
                ),
                far,
            )
            &&& r == (off.below(Single { bits: 0x3a83_126f }) && far.below(
                Single { bits: SINGLE_ONE },
            ))
        }
}

fn nearly_fit<A: Arithmetic>(ar: &A, view: View2d) -> (r: bool)
    ensures
        is_nearly_fit(ar, view, r),
{
    let z: Traced<Single> = Traced::new(ar, view.zoom);
    let one: Traced<Single> = Traced::new(ar, Single { bits: SINGLE_ONE });
    let x: Traced<Single> = Traced::new(ar, view.pan.x);
    let y: Traced<Single> = Traced::new(ar, view.pan.y);
    let off = z.minus(ar, one).unary(ar, Unary::Absolute).value;
    let far = x.times(ar, x).plus(ar, y.times(ar, y)).value;
    proof {
        assert(is_single(
            ar,
            unary(
                Unary::Absolute,
                minus(single(view.zoom), single(Single { bits: SINGLE_ONE })),
            ),
            off,
        ));
        assert(is_single(
            ar,
            plus(
                times(single(view.pan.x), single(view.pan.x)),
                times(single(view.pan.y), single(view.pan.y)),
            ),
            far,
        ));
    }
    off.is_below(Single { bits: 0x3a83_126f }) && far.is_below(Single { bits: SINGLE_ONE })
}

/// A whole number kept to 32 bits.
pub open spec fn kept_32(n: i64) -> int {
    if n < i32::MIN {
        i32::MIN as int
    } else if n > i32::MAX {
        i32::MAX as int
    } else {
        n as int
    }
}

/// The scale of the image, in per cent.
pub open spec fn percent_formula(fit: Single, zoom: Single) -> Formula {
    times(times(single(zoom), single(fit)), single(Single { bits: 0x42c8_0000 }))
}

/// `r` is the label of a view.
pub open spec fn is_zoom_label<A: Arithmetic>(
    ar: &A,
    fit: Single,
    view: View2d,
    r: Seq<char>,
) -> bool {
    exists|near: bool, n: i64|
        {
            &&& #[trigger] is_nearly_fit(ar, view, near)
            &&& #[trigger] rounds_to(
                ar,
                Rounding::Nearest,
                widen(percent_formula(fit, view.zoom)),
                n,
            )
            &&& r == if near {
                "fit"@
            } else {
                signed_decimal(kept_32(n)) + " %  (double-click to reset)"@
            }
        }
}

/// The label of a view.
pub fn zoom_label<A: Arithmetic>(ar: &A, fit: Single, view: View2d) -> (r: String)
    ensures
        is_zoom_label(ar, fit, view, r@),
{
    let near = nearly_fit(ar, view);
    let z: Traced<Single> = Traced::new(ar, view.zoom);
    let f: Traced<Single> = Traced::new(ar, fit);
    let hundred: Traced<Single> = Traced::new(ar, Single { bits: 0x42c8_0000 });
    let n: i64 = z.times(ar, f).times(ar, hundred).widen(ar).rounded(ar, Rounding::Nearest);
    proof {
        assert(is_nearly_fit(ar, view, near));
        assert(rounds_to(
            ar,
            Rounding::Nearest,
            widen(percent_formula(fit, view.zoom)),
            n,
        ));
    }
    if near {
        return "fit".to_owned();
    }
    let kept: i32 = if n < i32::MIN as i64 {
        i32::MIN
    } else if n > i32::MAX as i64 {
        i32::MAX
    } else {
        n as i32
    };
    join(signed_decimal_string(kept).as_str(), " %  (double-click to reset)")
}

/// The label of a rate, by the milliseconds of a render.
pub open spec fn rate_text(ms: Single) -> Seq<char> {
    if ms.below(Single { bits: 0x4180_0000 }) {
        "60 fps"@
    } else if ms.below(Single { bits: 0x4204_0000 }) {
        "30 fps"@
    } else if ms.below(Single { bits: 0x4286_0000 }) {
        "15 fps"@
    } else if ms.below(Single { bits: 0x4348_0000 }) {
        "5 fps"@
    } else if ms.below(Single { bits: 0x43c8_0000 }) {
        "2 fps"@
    } else {
        ""@
    }
}

/// The label of a rate, by the milliseconds of a render.
pub fn fps_label(ms: Single) -> (r: &'static str)
    ensures
        r@ == rate_text(ms),
{
    if ms.is_below(Single { bits: 0x4180_0000 }) {
        "60 fps"
    } else if ms.is_below(Single { bits: 0x4204_0000 }) {
        "30 fps"
    } else if ms.is_below(Single { bits: 0x4286_0000 }) {
        "15 fps"
    } else if ms.is_below(Single { bits: 0x4348_0000 }) {
        "5 fps"
    } else if ms.is_below(Single { bits: 0x43c8_0000 }) {
        "2 fps"
    } else {
        ""
    }
}

} // verus!
