//! Axis-aligned integer boxes and the guillotine split shared by every
//! free-rectangle allocator of the engine.

use vstd::prelude::*;

verus! {

/// Point `(px, py)` lies in the half-open box with corner `(ox, oy)` and
/// extent `w × h`.
pub open spec fn in_box(ox: int, oy: int, w: int, h: int, px: int, py: int) -> bool {
    ox <= px < ox + w && oy <= py < oy + h
}

/// Guillotine split of a free box `fw × fh` at `(ox, oy)` when a box of
/// `sw × sh` is carved from its corner: the carved box, the strip to its
/// right (`(fw - sw) × sh`) and the strip below (`fw × (fh - sh)`) cover the
/// free box exactly and do not overlap.
pub proof fn lemma_guillotine_split(ox: int, oy: int, fw: int, fh: int, sw: int, sh: int)
    requires
        0 <= sw <= fw,
        0 <= sh <= fh,
    ensures
        forall|px: int, py: int|
            #[trigger] in_box(ox, oy, fw, fh, px, py) <==> (in_box(ox, oy, sw, sh, px, py)
                || in_box(ox + sw, oy, fw - sw, sh, px, py) || in_box(
                ox,
                oy + sh,
                fw,
                fh - sh,
                px,
                py,
            )),
        forall|px: int, py: int|
            #[trigger] in_box(ox, oy, sw, sh, px, py) ==> !in_box(ox + sw, oy, fw - sw, sh, px, py)
                && !in_box(ox, oy + sh, fw, fh - sh, px, py),
        forall|px: int, py: int|
            #[trigger] in_box(ox + sw, oy, fw - sw, sh, px, py) ==> !in_box(
                ox,
                oy + sh,
                fw,
                fh - sh,
                px,
                py,
            ),
{
}

} // verus!
