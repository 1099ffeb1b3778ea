//! A predefined animation: Ferris the crab, walking.

use vstd::prelude::*;
use vstd::string::StringExecFns;
use crate::animation::Frame;
use crate::renderer::lines_view;

verus! {

/// Builds one frame from its lines.
pub fn make_frame(lines: &[&str]) -> (f: Frame)
    ensures
        f@.len() == lines@.len(),
        forall|i: int| 0 <= i < lines@.len() ==> f@[i]@ == lines@[i]@,
{
    let mut f: Frame = Vec::new();
    let n = lines.len();
    let mut i: usize = 0;
    while i < n
        invariant
            i <= n,
            n == lines@.len(),
            f@.len() == i,
            forall|j: int| 0 <= j < i ==> f@[j]@ == lines@[j]@,
        decreases n - i,
    {
        let line = String::from_str(lines[i]);
        f.push(line);
        i += 1;
    }
    f
}

/// The frames of the walking-Ferris animation, in playback order: two
/// stride positions, each shown between two resting poses.  The first and
/// third frames are the resting pose; the claw lines (line 6 of each
/// frame) tell the three poses apart.
pub fn walking_ferris_frames() -> (frames: Vec<Frame>)
    ensures
        frames@.len() == 4,
        forall|i: int| 0 <= i < 4 ==> #[trigger] frames@[i]@.len() == 8,
        lines_view(frames@[0]@) == lines_view(frames@[2]@),
        frames@[0]@[6]@ == "   (( L L "@,
        frames@[1]@[6]@ == "   (( / L "@,
        frames@[3]@[6]@ == "   (( L \\ "@,
{
    let rest: [&str; 8] = [
        "       .--.",
        "     / \\  `.",
        "    |  .",
        "    \\  ;___/",
        "     '--'",
        "    /____\\",
        "   (( L L ",
        "    `-----'",
    ];
    let stride_right: [&str; 8] = [
        "       .--.",
        "     / \\  `.",
        "    |  .",
        "    \\  ;___/",
        "     '--'",
        "    /____\\",
        "   (( / L ",
        "    `---->' ",
    ];
    let stride_left: [&str; 8] = [
        "       .--.",
        "     / \\  `.",
        "    |  .",
        "    \\  ;___/",
        "     '--'",
        "    /____\\",
        "   (( L \\ ",
        "    `<----'",
    ];
    let mut frames: Vec<Frame> = Vec::new();
    frames.push(make_frame(rest.as_slice()));
    frames.push(make_frame(stride_right.as_slice()));
    frames.push(make_frame(rest.as_slice()));
    frames.push(make_frame(stride_left.as_slice()));
    proof {
        assert forall|i: int| 0 <= i < 8 implies lines_view(frames@[0]@)[i] == lines_view(
            frames@[2]@,
        )[i] by {
            assert(frames@[0]@[i]@ == rest@[i]@);
            assert(frames@[2]@[i]@ == rest@[i]@);
        }
        assert(lines_view(frames@[0]@) =~= lines_view(frames@[2]@));
    }
    frames
}

} // verus!
