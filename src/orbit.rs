//! The camera orbit of an animation. The camera circles the look-at point;
//! frame `k` of `n` stands a quarter turn plus `k / n` of a turn round the
//! circle, so the frames are evenly spaced and the last one stops a step
//! short of the first, letting the sequence loop without a repeated frame.
use vstd::prelude::*;

verus! {

/// An angle of `num / den` of a full turn, that is `2π · num / den` radians.
#[derive(Clone, Copy, Debug, PartialEq, Eq, Structural)]
pub struct Turn {
    pub num: u64,
    pub den: u64,
}

/// The common denominator of the angles of an `n`-frame orbit.
pub open spec fn orbit_den(n: nat) -> nat {
    4 * n
}

/// Numerator of the angle of frame `k` of `n`: `1/4 + k/n` of a turn.
pub open spec fn frame_num(k: nat, n: nat) -> nat {
    n + 4 * k
}

/// The angle at which frame `k` of an `n`-frame orbit is taken.
pub fn orbit_frame(k: u32, num_frames: u32) -> (r: Turn)
    requires
        num_frames >= 1,
    ensures
        r.num == frame_num(k as nat, num_frames as nat),
        r.den == orbit_den(num_frames as nat),
{
    Turn { num: num_frames as u64 + 4 * (k as u64), den: 4 * (num_frames as u64) }
}

/// First and last angle of an `n`-frame orbit, the end points of the
/// evenly spaced range whose `n` points are the frames: a quarter turn, and
/// a quarter turn plus `(n - 1) / n` of a turn.
pub fn orbit_sweep(num_frames: u32) -> (r: (Turn, Turn))
    requires
        num_frames >= 1,
    ensures
        r.0.num == frame_num(0, num_frames as nat),
        r.1.num == frame_num((num_frames - 1) as nat, num_frames as nat),
        r.0.den == orbit_den(num_frames as nat),
        r.1.den == orbit_den(num_frames as nat),
{
    let n: u64 = num_frames as u64;
    (Turn { num: n, den: 4 * n }, Turn { num: n + 4 * (n - 1), den: 4 * n })
}

/// Consecutive frames stand exactly `1/n` of a turn apart (a right angle
/// for four frames).
pub proof fn lemma_orbit_evenly_spaced(k: nat, n: nat)
    requires
        n >= 1,
    ensures
        frame_num(k + 1, n) == frame_num(k, n) + orbit_den(n) / n,
{
    assert(orbit_den(n) / n == 4) by (nonlinear_arith)
        requires
            n >= 1,
    ;
}

/// No two frames of an orbit stand at the same place on the circle: their
/// angles differ by less than a full turn and are not equal. In particular
/// the last frame does not repeat the first.
pub proof fn lemma_orbit_frames_distinct(a: nat, b: nat, n: nat)
    requires
        a < b < n,
    ensures
        frame_num(a, n) < frame_num(b, n) < frame_num(a, n) + orbit_den(n),
{
}

/// One more step after the last frame brings the camera back to the first
/// frame's place, a full turn later: the sequence loops seamlessly.
pub proof fn lemma_orbit_closes(n: nat)
    requires
        n >= 1,
    ensures
        frame_num((n - 1) as nat, n) + orbit_den(n) / n == frame_num(0, n) + orbit_den(n),
{
    lemma_orbit_evenly_spaced((n - 1) as nat, n);
}

/// The frames are the `n` evenly spaced points from the first angle of the
/// sweep to the last: frame `k` is `start + k · (end - start) / (n - 1)`.
pub proof fn lemma_orbit_sweep_points(k: nat, n: nat)
    requires
        n >= 2,
        k < n,
    ensures
        frame_num(k, n) * (n - 1) == frame_num(0, n) * (n - 1) + k * (frame_num(
            (n - 1) as nat,
            n,
        ) - frame_num(0, n)),
{
    assert(frame_num(k, n) * (n - 1) == frame_num(0, n) * (n - 1) + k * (4 * (n - 1)))
        by (nonlinear_arith)
        requires
            n >= 2,
    ;
}

} // verus!
