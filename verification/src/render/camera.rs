//! The camera's discrete settings: which of the four yaw steps it faces and
//! which of the zoom levels it uses.  The continuous part of the camera
//! (angles, positions) is the renderer's.
use vstd::prelude::*;

verus! {

/// Number of yaw steps (quarter turns).
pub const YAW_STEP_COUNT: usize = 4;

/// Number of zoom levels.
pub const ZOOM_LEVEL_COUNT: usize = 3;

/// The yaw step after a quarter turn to the left of step `yaw`.
pub open spec fn rotated_left(yaw: int) -> int {
    (yaw + 3) % 4
}

/// The yaw step after a quarter turn to the right of step `yaw`.
pub open spec fn rotated_right(yaw: int) -> int {
    (yaw + 1) % 4
}

/// The zoom level after zooming in from level `zoom`.
pub open spec fn zoomed_in(zoom: int) -> int {
    if zoom < ZOOM_LEVEL_COUNT - 1 { zoom + 1 } else { zoom }
}

/// The zoom level after zooming out from level `zoom`.
pub open spec fn zoomed_out(zoom: int) -> int {
    if zoom > 0 { zoom - 1 } else { zoom }
}

/// A quarter turn to the left undoes a quarter turn to the right, and the
/// other way round.
pub proof fn lemma_turns_undo(yaw: int)
    requires
        0 <= yaw < YAW_STEP_COUNT,
    ensures
        rotated_left(rotated_right(yaw)) == yaw,
        rotated_right(rotated_left(yaw)) == yaw,
{
}

/// Four quarter turns the same way come back to the starting step.
pub proof fn lemma_full_turn(yaw: int)
    requires
        0 <= yaw < YAW_STEP_COUNT,
    ensures
        rotated_right(rotated_right(rotated_right(rotated_right(yaw)))) == yaw,
        rotated_left(rotated_left(rotated_left(rotated_left(yaw)))) == yaw,
{
}

/// Zooming out undoes zooming in below the last level, and zooming in
/// undoes zooming out above the first; the level always stays in range.
pub proof fn lemma_zoom_undo(zoom: int)
    requires
        0 <= zoom < ZOOM_LEVEL_COUNT,
    ensures
        zoom < ZOOM_LEVEL_COUNT - 1 ==> zoomed_out(zoomed_in(zoom)) == zoom,
        zoom > 0 ==> zoomed_in(zoomed_out(zoom)) == zoom,
        0 <= zoomed_in(zoom) < ZOOM_LEVEL_COUNT,
        0 <= zoomed_out(zoom) < ZOOM_LEVEL_COUNT,
{
}

/// The yaw step after a quarter turn to the left.
pub fn rotate_left_index(yaw_index: usize) -> (r: usize)
    requires
        yaw_index <= usize::MAX - 3,
    ensures
        r == rotated_left(yaw_index as int),
        r < YAW_STEP_COUNT,
{
    (yaw_index + 3) % YAW_STEP_COUNT
}

/// The yaw step after a quarter turn to the right.
pub fn rotate_right_index(yaw_index: usize) -> (r: usize)
    requires
        yaw_index < usize::MAX,
    ensures
        r == rotated_right(yaw_index as int),
        r < YAW_STEP_COUNT,
{
    (yaw_index + 1) % YAW_STEP_COUNT
}

/// The zoom level after zooming in: one level up, unless at the last level.
pub fn zoom_in_index(zoom_index: usize) -> (r: usize)
    ensures
        r == zoomed_in(zoom_index as int),
{
    if zoom_index < ZOOM_LEVEL_COUNT - 1 {
        zoom_index + 1
    } else {
        zoom_index
    }
}

/// The zoom level after zooming out: one level down, unless at the first level.
pub fn zoom_out_index(zoom_index: usize) -> (r: usize)
    ensures
        r == zoomed_out(zoom_index as int),
{
    if zoom_index > 0 {
        zoom_index - 1
    } else {
        zoom_index
    }
}

} // verus!
