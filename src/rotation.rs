//! Rotation with kicks: a rotated tetrimino is moved by the first of a fixed
//! list of small offsets that places it free of overlap.
use vstd::prelude::*;

use crate::checker::{overlaps, Checker};
use crate::field::{rows_wf, Cell, Field};
use crate::tetrimino::{Pose, Tetrimino};
use crate::{checker, tetrimino};

verus! {

/// The offsets tried, in this order, to place a rotated tetrimino: the
/// points of the square `[-2, 2] x [-2, 2]` by increasing distance from the
/// origin, then upward before downward, then left before right.
pub open spec fn kick_offsets() -> Seq<(int, int)> {
    seq![
        (0, 0),
        (0, -1),
        (-1, 0),
        (1, 0),
        (0, 1),
        (-1, -1),
        (1, -1),
        (-1, 1),
        (1, 1),
        (0, -2),
        (-2, 0),
        (2, 0),
        (0, 2),
        (-1, -2),
        (1, -2),
        (-2, -1),
        (2, -1),
        (-2, 1),
        (2, 1),
        (-1, 2),
        (1, 2),
        (-2, -2),
        (2, -2),
        (-2, 2),
        (2, 2),
    ]
}

/// Whether the kick offset `a` is tried before `b`: nearer to the origin
/// first, then upward before downward, then left before right.
pub open spec fn kick_before(a: (int, int), b: (int, int)) -> bool {
    let da = a.0 * a.0 + a.1 * a.1;
    let db = b.0 * b.0 + b.1 * b.1;
    da < db || (da == db && (a.1 < b.1 || (a.1 == b.1 && a.0 < b.0)))
}

proof fn lemma_kick_before_transitive(a: (int, int), b: (int, int), c: (int, int))
    requires
        kick_before(a, b),
        kick_before(b, c),
    ensures
        kick_before(a, c),
{
}

proof fn lemma_kick_offsets_sorted_from(i: int, j: int)
    requires
        0 <= i < j < 25,
        forall|k: int| 0 <= k < 24 ==> kick_before(#[trigger] kick_offsets()[k], kick_offsets()[k + 1]),
    ensures
        kick_before(kick_offsets()[i], kick_offsets()[j]),
    decreases j - i,
{
    if j > i + 1 {
        lemma_kick_offsets_sorted_from(i + 1, j);
        lemma_kick_before_transitive(kick_offsets()[i], kick_offsets()[i + 1], kick_offsets()[j]);
    }
}

/// The kick offsets are the 25 points of the square `[-2, 2] x [-2, 2]`,
/// each once, sorted by `kick_before`.
pub proof fn lemma_kick_offsets()
    ensures
        kick_offsets().len() == 25,
        forall|i: int, j: int|
            0 <= i < j < 25 ==> kick_before(#[trigger] kick_offsets()[i], #[trigger] kick_offsets()[j]),
        forall|i: int|
            0 <= i < 25 ==> -2 <= (#[trigger] kick_offsets()[i]).0 <= 2 && -2 <= kick_offsets()[i].1 <= 2,
        forall|dx: int, dy: int|
            -2 <= dx <= 2 && -2 <= dy <= 2 ==> #[trigger] kick_offsets().contains((dx, dy)),
{
    let k = kick_offsets();
    assert forall|i: int| 0 <= i < 24 implies kick_before(#[trigger] k[i], k[i + 1]) by {

        if i == 0 {
            assert(k[0] == (0int, 0int) && k[1] == (0int, -1int));
            assert(kick_before((0int, 0int), (0int, -1int))) by (nonlinear_arith);
        } else if i == 1 {
            assert(k[1] == (0int, -1int) && k[2] == (-1int, 0int));
            assert(kick_before((0int, -1int), (-1int, 0int))) by (nonlinear_arith);
        } else if i == 2 {
            assert(k[2] == (-1int, 0int) && k[3] == (1int, 0int));
            assert(kick_before((-1int, 0int), (1int, 0int))) by (nonlinear_arith);
        } else if i == 3 {
            assert(k[3] == (1int, 0int) && k[4] == (0int, 1int));
            assert(kick_before((1int, 0int), (0int, 1int))) by (nonlinear_arith);
        } else if i == 4 {
            assert(k[4] == (0int, 1int) && k[5] == (-1int, -1int));
            assert(kick_before((0int, 1int), (-1int, -1int))) by (nonlinear_arith);
        } else if i == 5 {
            assert(k[5] == (-1int, -1int) && k[6] == (1int, -1int));
            assert(kick_before((-1int, -1int), (1int, -1int))) by (nonlinear_arith);
        } else if i == 6 {
            assert(k[6] == (1int, -1int) && k[7] == (-1int, 1int));
            assert(kick_before((1int, -1int), (-1int, 1int))) by (nonlinear_arith);
        } else if i == 7 {
            assert(k[7] == (-1int, 1int) && k[8] == (1int, 1int));
            assert(kick_before((-1int, 1int), (1int, 1int))) by (nonlinear_arith);
        } else if i == 8 {
            assert(k[8] == (1int, 1int) && k[9] == (0int, -2int));
            assert(kick_before((1int, 1int), (0int, -2int))) by (nonlinear_arith);
        } else if i == 9 {
            assert(k[9] == (0int, -2int) && k[10] == (-2int, 0int));
            assert(kick_before((0int, -2int), (-2int, 0int))) by (nonlinear_arith);
        } else if i == 10 {
            assert(k[10] == (-2int, 0int) && k[11] == (2int, 0int));
            assert(kick_before((-2int, 0int), (2int, 0int))) by (nonlinear_arith);
        } else if i == 11 {
            assert(k[11] == (2int, 0int) && k[12] == (0int, 2int));
            assert(kick_before((2int, 0int), (0int, 2int))) by (nonlinear_arith);
        } else if i == 12 {
            assert(k[12] == (0int, 2int) && k[13] == (-1int, -2int));
            assert(kick_before((0int, 2int), (-1int, -2int))) by (nonlinear_arith);
        } else if i == 13 {
            assert(k[13] == (-1int, -2int) && k[14] == (1int, -2int));
            assert(kick_before((-1int, -2int), (1int, -2int))) by (nonlinear_arith);
        } else if i == 14 {
            assert(k[14] == (1int, -2int) && k[15] == (-2int, -1int));
            assert(kick_before((1int, -2int), (-2int, -1int))) by (nonlinear_arith);
        } else if i == 15 {
            assert(k[15] == (-2int, -1int) && k[16] == (2int, -1int));
            assert(kick_before((-2int, -1int), (2int, -1int))) by (nonlinear_arith);
        } else if i == 16 {
            assert(k[16] == (2int, -1int) && k[17] == (-2int, 1int));
            assert(kick_before((2int, -1int), (-2int, 1int))) by (nonlinear_arith);
        } else if i == 17 {
            assert(k[17] == (-2int, 1int) && k[18] == (2int, 1int));
            assert(kick_before((-2int, 1int), (2int, 1int))) by (nonlinear_arith);
        } else if i == 18 {
            assert(k[18] == (2int, 1int) && k[19] == (-1int, 2int));
            assert(kick_before((2int, 1int), (-1int, 2int))) by (nonlinear_arith);
        } else if i == 19 {
            assert(k[19] == (-1int, 2int) && k[20] == (1int, 2int));
            assert(kick_before((-1int, 2int), (1int, 2int))) by (nonlinear_arith);
        } else if i == 20 {
            assert(k[20] == (1int, 2int) && k[21] == (-2int, -2int));
            assert(kick_before((1int, 2int), (-2int, -2int))) by (nonlinear_arith);
        } else if i == 21 {
            assert(k[21] == (-2int, -2int) && k[22] == (2int, -2int));
            assert(kick_before((-2int, -2int), (2int, -2int))) by (nonlinear_arith);
        } else if i == 22 {
            assert(k[22] == (2int, -2int) && k[23] == (-2int, 2int));
            assert(kick_before((2int, -2int), (-2int, 2int))) by (nonlinear_arith);
        } else if i == 23 {
            assert(k[23] == (-2int, 2int) && k[24] == (2int, 2int));
            assert(kick_before((-2int, 2int), (2int, 2int))) by (nonlinear_arith);
        }
    }
    assert forall|i: int, j: int| 0 <= i < j < 25 implies kick_before(#[trigger] k[i], #[trigger] k[j]) by {
        lemma_kick_offsets_sorted_from(i, j);
    }
    assert forall|dx: int, dy: int| -2 <= dx <= 2 && -2 <= dy <= 2 implies #[trigger] k.contains(
        (dx, dy),
    ) by {

        if dx == -2 && dy == -2 {
            assert(k[21] == (dx, dy));
        }
        if dx == -2 && dy == -1 {
            assert(k[15] == (dx, dy));
        }
        if dx == -2 && dy == 0 {
            assert(k[10] == (dx, dy));
        }
        if dx == -2 && dy == 1 {
            assert(k[17] == (dx, dy));
        }
        if dx == -2 && dy == 2 {
            assert(k[23] == (dx, dy));
        }
        if dx == -1 && dy == -2 {
            assert(k[13] == (dx, dy));
        }
        if dx == -1 && dy == -1 {
            assert(k[5] == (dx, dy));
        }
        if dx == -1 && dy == 0 {
            assert(k[2] == (dx, dy));
        }
        if dx == -1 && dy == 1 {
            assert(k[7] == (dx, dy));
        }
        if dx == -1 && dy == 2 {
            assert(k[19] == (dx, dy));
        }
        if dx == 0 && dy == -2 {
            assert(k[9] == (dx, dy));
        }
        if dx == 0 && dy == -1 {
            assert(k[1] == (dx, dy));
        }
        if dx == 0 && dy == 0 {
            assert(k[0] == (dx, dy));
        }
        if dx == 0 && dy == 1 {
            assert(k[4] == (dx, dy));
        }
        if dx == 0 && dy == 2 {
            assert(k[12] == (dx, dy));
        }
        if dx == 1 && dy == -2 {
            assert(k[14] == (dx, dy));
        }
        if dx == 1 && dy == -1 {
            assert(k[6] == (dx, dy));
        }
        if dx == 1 && dy == 0 {
            assert(k[3] == (dx, dy));
        }
        if dx == 1 && dy == 1 {
            assert(k[8] == (dx, dy));
        }
        if dx == 1 && dy == 2 {
            assert(k[20] == (dx, dy));
        }
        if dx == 2 && dy == -2 {
            assert(k[22] == (dx, dy));
        }
        if dx == 2 && dy == -1 {
            assert(k[16] == (dx, dy));
        }
        if dx == 2 && dy == 0 {
            assert(k[11] == (dx, dy));
        }
        if dx == 2 && dy == 1 {
            assert(k[18] == (dx, dy));
        }
        if dx == 2 && dy == 2 {
            assert(k[24] == (dx, dy));
        }

    }
}

/// `p` moved by the `k`-th kick offset.
pub open spec fn kicked(p: Pose, k: int) -> Pose {
    p.shifted(kick_offsets()[k].0, kick_offsets()[k].1)
}

/// The index of the first kick offset from the `k`-th on that places `p`
/// free of overlap; 25 when there is none.
pub open spec fn first_free_kick(rows: Seq<Seq<Cell>>, p: Pose, k: int) -> int
    decreases 25 - k,
{
    if k >= 25 {
        25
    } else if !overlaps(rows, kicked(p, k)) {
        k
    } else {
        first_free_kick(rows, p, k + 1)
    }
}

/// The kick found is free of overlap.
pub proof fn lemma_first_free_kick(rows: Seq<Seq<Cell>>, p: Pose, k: int)
    requires
        0 <= k <= 25,
    ensures
        k <= first_free_kick(rows, p, k) <= 25,
        first_free_kick(rows, p, k) < 25 ==> !overlaps(rows, kicked(p, first_free_kick(rows, p, k))),
    decreases 25 - k,
{
    if k < 25 && overlaps(rows, kicked(p, k)) {
        lemma_first_free_kick(rows, p, k + 1);
    }
}

/// Where one rotation step takes `p`: the first free placement of the
/// rotated pose, or `None` when there is none.
pub open spec fn rotation_step(rows: Seq<Seq<Cell>>, p: Pose) -> Option<Pose> {
    let k = first_free_kick(rows, p.rotated(1), 0);
    if k < 25 {
        Some(kicked(p.rotated(1), k))
    } else {
        None
    }
}

/// Rotating a tetrimino of four rotation states four times brings it back
/// to where it was, when each of its rotation states is free of overlap
/// where it stands.
pub proof fn lemma_rotate_four_times(rows: Seq<Seq<Cell>>, p: Pose)
    requires
        p.wf(),
        tetrimino::num_rotations(p.kind) == 4,
        forall|i: int| 0 <= i < 4 ==> !overlaps(rows, #[trigger] p.rotated(i)),
    ensures
        rotation_step(rows, p) == Some(p.rotated(1)),
        rotation_step(rows, p.rotated(1)) == Some(p.rotated(2)),
        rotation_step(rows, p.rotated(2)) == Some(p.rotated(3)),
        rotation_step(rows, p.rotated(3)) == Some(p),
{
    assert(p.rotated(0) == p);
    assert forall|i: int| 0 <= i < 4 implies #[trigger] p.rotated(i).rotated(1) == p.rotated(
        (i + 1) % 4,
    ) by {
        assert(p.rot < 4);
    }
    assert forall|i: int| 0 <= i < 4 implies kicked(#[trigger] p.rotated(i), 0) == p.rotated(i) by {}
}

/// When the rotated pose is near the range limits every kick overlaps.
proof fn lemma_far_kicks(rows: Seq<Seq<Cell>>, q: Pose, k: int)
    requires
        rows_wf(rows),
        q.wf(),
        0 <= k <= 25,
        !(-tetrimino::POS_LIMIT + 2 <= q.x <= tetrimino::POS_LIMIT - 2 && -tetrimino::POS_LIMIT + 2
            <= q.y <= tetrimino::POS_LIMIT - 2),
    ensures
        first_free_kick(rows, q, k) == 25,
    decreases 25 - k,
{
    if k < 25 {
        if !overlaps(rows, kicked(q, k)) {
            checker::lemma_free_in_field(rows, kicked(q, k));
        }
        lemma_far_kicks(rows, q, k + 1);
    }
}

/// The kick offsets as a table.
fn near_points() -> (r: [(isize, isize); 25])
    ensures
        forall|i: int|
            0 <= i < 25 ==> (#[trigger] r@[i]).0 == kick_offsets()[i].0 && r@[i].1
                == kick_offsets()[i].1,
{
    [
        (0, 0),
        (0, -1),
        (-1, 0),
        (1, 0),
        (0, 1),
        (-1, -1),
        (1, -1),
        (-1, 1),
        (1, 1),
        (0, -2),
        (-2, 0),
        (2, 0),
        (0, 2),
        (-1, -2),
        (1, -2),
        (-2, -1),
        (2, -1),
        (-2, 1),
        (2, 1),
        (-1, 2),
        (1, 2),
        (-2, -2),
        (2, -2),
        (-2, 2),
        (2, 2),
    ]
}

/// Where one rotation step takes `t` in `field`.
pub(crate) fn rotation_target(field: &Field, t: &Tetrimino) -> (r: Option<Tetrimino>)
    requires
        field.wf(),
        t.wf(),
    ensures
        match r {
            Some(n) => rotation_step(field@, t@) == Some(n@) && n.wf(),
            None => rotation_step(field@, t@) is None,
        },
{
    let ghost rows = field@;
    let new_tetrimino = t.rotate(1);
    let ghost q = new_tetrimino@;
    let (x, y) = new_tetrimino.anchor();
    if x < -tetrimino::POS_LIMIT + 2 || x > tetrimino::POS_LIMIT - 2 || y < -tetrimino::POS_LIMIT
        + 2 || y > tetrimino::POS_LIMIT - 2 {
        proof {
            lemma_far_kicks(rows, q, 0);
        }
        return None;
    }
    let points = near_points();
    let mut k: usize = 0;
    while k < 25
        invariant
            k <= 25,
            field.wf(),
            rows == field@,
            new_tetrimino.wf(),
            q == new_tetrimino@,
            q == t@.rotated(1),
            -tetrimino::POS_LIMIT + 2 <= q.x <= tetrimino::POS_LIMIT - 2,
            -tetrimino::POS_LIMIT + 2 <= q.y <= tetrimino::POS_LIMIT - 2,
            first_free_kick(rows, q, 0) == first_free_kick(rows, q, k as int),
            forall|i: int|
                0 <= i < 25 ==> (#[trigger] points@[i]).0 == kick_offsets()[i].0 && points@[i].1
                    == kick_offsets()[i].1,
        decreases 25 - k,
    {
        let (dx, dy) = points[k];
        let candidate = new_tetrimino.move_right(dx).move_down(dy);
        if !Checker(field, &candidate).overlap() {
            return Some(candidate);
        }
        k += 1;
    }
    None
}

} // verus!
