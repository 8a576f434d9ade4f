use vstd::prelude::*;

verus! {

/// Where a frame animation stands after its timer runs past one frame:
/// the next frame, wrapping to the first when looping, or staying on the
/// last and stopping otherwise.
pub open spec fn next_frame(current_frame: int, frame_count: int, loop_animation: bool) -> (int, bool) {
    if current_frame + 1 >= frame_count {
        if loop_animation {
            (0, true)
        } else {
            (frame_count - 1, false)
        }
    } else {
        (current_frame + 1, true)
    }
}

/// Advances a frame animation by one frame; returns the new frame and
/// whether the animation is still playing.
pub fn advance_frame(current_frame: usize, frame_count: usize, loop_animation: bool) -> (r: (usize, bool))
    requires
        frame_count > 0,
        current_frame < usize::MAX,
    ensures
        (r.0 as int, r.1) == next_frame(current_frame as int, frame_count as int, loop_animation),
        r.0 < frame_count,
{
    let next = current_frame + 1;
    if next >= frame_count {
        if loop_animation {
            (0, true)
        } else {
            (frame_count - 1, false)
        }
    } else {
        (next, true)
    }
}

/// A looping animation visits its frames in order and comes back to the
/// first after the last.
pub proof fn lemma_loop_cycles(current_frame: int, frame_count: int)
    requires
        0 <= current_frame < frame_count,
    ensures
        next_frame(current_frame, frame_count, true).0 == (current_frame + 1) % frame_count,
        next_frame(current_frame, frame_count, true).1,
{
    if current_frame + 1 < frame_count {
        assert((current_frame + 1) % frame_count == current_frame + 1) by (nonlinear_arith)
            requires 0 <= current_frame + 1 < frame_count;
    } else {
        assert((current_frame + 1) % frame_count == 0) by (nonlinear_arith)
            requires current_frame + 1 == frame_count, frame_count > 0;
    }
}

} // verus!
