//! Axis parsing and quarter-turn rotation math.
//!
//! This module is the single authority for 90-degree rotation geometry:
//! every component that rotates voxels goes through `rotate_point_90`.
//! Coordinates wrap on overflow, as two's-complement arithmetic does.

use vstd::prelude::*;

verus! {

/// One of the three coordinate axes.
#[derive(Debug, Clone, Copy, PartialEq, Eq, Structural)]
pub enum Axis {
    X,
    Y,
    Z,
}

/// What `Axis::parse` accepts: exactly the six one-letter spellings.
pub open spec fn parse_axis_spec(s: Seq<char>) -> Option<Axis> {
    if s.len() == 1 {
        if s[0] == 'x' || s[0] == 'X' {
            Some(Axis::X)
        } else if s[0] == 'y' || s[0] == 'Y' {
            Some(Axis::Y)
        } else if s[0] == 'z' || s[0] == 'Z' {
            Some(Axis::Z)
        } else {
            None
        }
    } else {
        None
    }
}

impl Axis {
    /// Strict axis parse: an unrecognized token is `None`, never a silent no-op.
    pub fn parse(s: &str) -> (r: Option<Axis>)
        ensures
            r == parse_axis_spec(s@),
    {
        let n = s.unicode_len();
        if n != 1 {
            return None;
        }
        let c = s.get_char(0);
        if c == 'x' || c == 'X' {
            Some(Axis::X)
        } else if c == 'y' || c == 'Y' {
            Some(Axis::Y)
        } else if c == 'z' || c == 'Z' {
            Some(Axis::Z)
        } else {
            None
        }
    }
}

/// Normalize a quarter-turn count into [0, 3].
pub fn norm_turns(turns: i32) -> (r: i32)
    ensures
        r == (turns as int) % 4,
        0 <= r < 4,
{
    if turns >= 0 {
        turns % 4
    } else {
        let pos: i64 = -(turns as i64);
        let m: i64 = pos % 4;
        let r: i32 = if m == 0 {
            0
        } else {
            (4 - m) as i32
        };
        proof {
            let t = turns as int;
            let p = pos as int;
            assert(t == -p);
            assert(p % 4 == m);
            assert(t % 4 == (if m == 0 { 0int } else { 4 - m })) by {
                vstd::arithmetic::div_mod::lemma_mod_add_multiples_vanish(t, 4);
                assert((t + 4 * ((p + 3) / 4)) % 4 == t % 4) by {
                    vstd::arithmetic::div_mod::lemma_mod_multiples_vanish((p + 3) / 4, t, 4);
                };
                vstd::arithmetic::div_mod::lemma_fundamental_div_mod(p, 4);
                vstd::arithmetic::div_mod::lemma_fundamental_div_mod(p + 3, 4);
            };
        }
        r
    }
}

/// Wrapping negation of a coordinate, so rotation is total on all of `i32`.
pub open spec fn wneg(a: i32) -> i32 {
    vstd::wrapping::i32_specs::wrapping_sub(0i32, a)
}

/// Wrapping sum of a coordinate and an offset.
pub open spec fn wadd(a: i32, b: i32) -> i32 {
    vstd::wrapping::i32_specs::wrapping_add(a, b)
}

/// One quarter turn of a point around an axis:
/// X sends (x, y, z) to (x, -z, y); Y to (z, y, -x); Z to (-y, x, z).
pub open spec fn turn_once(p: (i32, i32, i32), axis: Axis) -> (i32, i32, i32) {
    match axis {
        Axis::X => (p.0, wneg(p.2), p.1),
        Axis::Y => (p.2, p.1, wneg(p.0)),
        Axis::Z => (wneg(p.1), p.0, p.2),
    }
}

/// `n` quarter turns of a point around an axis, applied in sequence.
pub open spec fn turn_n(p: (i32, i32, i32), axis: Axis, n: nat) -> (i32, i32, i32)
    decreases n,
{
    if n == 0 {
        p
    } else {
        turn_once(turn_n(p, axis, (n - 1) as nat), axis)
    }
}

/// What rotating by `turns` quarter turns means: the count is first
/// normalized into [0, 3], then that many single turns are applied.
pub open spec fn rotate_point_spec(x: i32, y: i32, z: i32, axis: Axis, turns: int) -> (
    i32,
    i32,
    i32,
) {
    turn_n((x, y, z), axis, (turns % 4) as nat)
}

/// Rotate a point by 90-degree increments around an axis.
/// This is the only place the rotation math exists.
pub fn rotate_point_90(x: i32, y: i32, z: i32, axis: Axis, turns: i32) -> (r: (i32, i32, i32))
    ensures
        r == rotate_point_spec(x, y, z, axis, turns as int),
{
    let n = norm_turns(turns);
    let mut p = (x, y, z);
    let mut k: i32 = 0;
    while k < n
        invariant
            0 <= k <= n < 4,
            p == turn_n((x, y, z), axis, k as nat),
        decreases n - k,
    {
        p = match axis {
            Axis::X => (p.0, 0i32.wrapping_sub(p.2), p.1),
            Axis::Y => (p.2, p.1, 0i32.wrapping_sub(p.0)),
            Axis::Z => (0i32.wrapping_sub(p.1), p.0, p.2),
        };
        k = k + 1;
    }
    p
}

/// Wrapping negation undoes itself, for every `i32` including the minimum.
pub proof fn lemma_wneg_involution(a: i32)
    ensures
        wneg(wneg(a)) == a,
{
}

/// Normalizing the turn count does not change the rotation: rotating by `n`
/// is rotating by `n % 4` brought into [0, 3].
pub proof fn lemma_rotate_mod4(x: i32, y: i32, z: i32, axis: Axis, turns: int)
    ensures
        rotate_point_spec(x, y, z, axis, turns) == rotate_point_spec(x, y, z, axis, turns % 4),
{
    assert(turns % 4 % 4 == turns % 4);
}

/// Wrapping addition is commutative.
pub proof fn lemma_wadd_comm(a: i32, b: i32)
    ensures
        wadd(a, b) == wadd(b, a),
{
}

/// Wrapping addition is associative.
pub proof fn lemma_wadd_assoc(a: i32, b: i32, c: i32)
    ensures
        wadd(wadd(a, b), c) == wadd(a, wadd(b, c)),
{
    let w = 0x1_0000_0000int;
    let l = wadd(wadd(a, b), c);
    let r = wadd(a, wadd(b, c));
    assert(l == a + b + c || l == a + b + c - w || l == a + b + c + w || l == a + b + c - 2 * w
        || l == a + b + c + 2 * w);
    assert(r == a + b + c || r == a + b + c - w || r == a + b + c + w || r == a + b + c - 2 * w
        || r == a + b + c + 2 * w);
}

/// Four quarter turns return every point to its original coordinates.
pub proof fn lemma_four_turns_identity(p: (i32, i32, i32), axis: Axis)
    ensures
        turn_n(p, axis, 4) == p,
{
    assert(turn_n(p, axis, 0) == p);
    let q1 = turn_n(p, axis, 1);
    let q2 = turn_n(p, axis, 2);
    let q3 = turn_n(p, axis, 3);
    let q4 = turn_n(p, axis, 4);
    assert(q1 == turn_once(p, axis));
    assert(q2 == turn_once(q1, axis));
    assert(q3 == turn_once(q2, axis));
    assert(q4 == turn_once(q3, axis));
    lemma_wneg_involution(p.0);
    lemma_wneg_involution(p.1);
    lemma_wneg_involution(p.2);
}

} // verus!
