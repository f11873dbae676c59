//! Aspect-ratio preserving resizing of abstract sizes.

use vstd::prelude::*;

verus! {

/// The width that keeps the aspect ratio when the limiting dimension is known:
/// the original size scaled by `target / root` of the limiting axis, rounded down.
pub open spec fn scaled(side: int, target: int, root: int) -> int
    recommends
        root > 0,
{
    side * target / root
}

/// Resizing abstract size based on aspect ratio of the original size
///
/// The scale factor is `min(target_w / root_w, target_h / root_h)`, so the
/// result always fits inside the target rectangle and one of its sides
/// reaches the target exactly.
///
/// Parameters:
///  - root_w: 'From' width
///  - root_h: 'From' height
///  - target_w: 'To' width
///  - target_h: 'To' height
///
/// Return: new size as tuple of width and height
pub fn aspect_resize(root_w: u32, root_h: u32, target_w: u32, target_h: u32) -> (r: (u32, u32))
    requires
        root_w > 0,
        root_h > 0,
    ensures
        r.0 <= target_w,
        r.1 <= target_h,
        // the limiting axis is chosen by comparing the two ratios
        target_w * root_h <= target_h * root_w ==> r.0 == target_w && r.1 == scaled(
            root_h as int,
            target_w as int,
            root_w as int,
        ),
        target_w * root_h > target_h * root_w ==> r.1 == target_h && r.0 == scaled(
            root_w as int,
            target_h as int,
            root_h as int,
        ),
{
    let rw = root_w as u64;
    let rh = root_h as u64;
    let tw = target_w as u64;
    let th = target_h as u64;
    proof {
        assert forall|a: int, b: int|
            0 <= a < 0x100000000 && 0 <= b < 0x100000000 implies #[trigger] (a * b)
            < 0x10000000000000000 by {
            assert(a * b < 0x100000000 * 0x100000000) by (nonlinear_arith)
                requires
                    0 <= a < 0x100000000,
                    0 <= b < 0x100000000,
            ;
        }
    }
    if tw * rh <= th * rw {
        // width is the limiting axis: scale height by tw / rw
        let new_h = rh * tw / rw;
        proof {
            assert((rh as int) * (tw as int) / (rw as int) <= th as int) by (nonlinear_arith)
                requires
                    rw > 0,
                    rh > 0,
                    (tw as int) * (rh as int) <= (th as int) * (rw as int),
            ;
        }
        (target_w, new_h as u32)
    } else {
        // height is the limiting axis: scale width by th / rh
        let new_w = rw * th / rh;
        proof {
            assert((rw as int) * (th as int) / (rh as int) <= tw as int) by (nonlinear_arith)
                requires
                    rw > 0,
                    rh > 0,
                    (tw as int) * (rh as int) > (th as int) * (rw as int),
            ;
        }
        (new_w as u32, target_h)
    }
}

} // verus!
