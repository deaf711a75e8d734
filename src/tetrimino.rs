use vstd::prelude::*;

verus! {

/// Bound on each coordinate of a tetrimino's anchor. It keeps every
/// coordinate computation of this crate far from the limits of `isize`.
pub const POS_LIMIT: isize = 0x1000_0000;

/// The block kind of a tetrimino.
#[derive(Debug, Clone, Copy, PartialEq, Eq, Hash, Structural)]
pub enum BlockKind {
    O,
    I,
    Z,
    S,
    L,
    T,
    J,
}

/// Number of rotation states of `kind`.
pub open spec fn num_rotations(kind: BlockKind) -> nat {
    match kind {
        BlockKind::O => 1,
        BlockKind::I => 2,
        _ => 4,
    }
}

/// Offsets of the four blocks of `kind` in the rotation state `rot`,
/// relative to the tetrimino's anchor.
pub open spec fn shape(kind: BlockKind, rot: nat) -> Seq<(int, int)> {
    match kind {
        BlockKind::O => seq![(0, 0), (1, 0), (0, 1), (1, 1)],
        BlockKind::I => if rot == 0 {
            seq![(0, 1), (1, 1), (2, 1), (3, 1)]
        } else {
            seq![(1, 0), (1, 1), (1, 2), (1, 3)]
        },
        BlockKind::S => if rot == 0 {
            seq![(0, 0), (1, 0), (1, 1), (2, 1)]
        } else if rot == 1 {
            seq![(2, 0), (2, 1), (1, 1), (1, 2)]
        } else if rot == 2 {
            seq![(2, 2), (1, 2), (1, 1), (0, 1)]
        } else {
            seq![(0, 2), (0, 1), (1, 1), (1, 0)]
        },
        BlockKind::Z => if rot == 0 {
            seq![(1, 0), (2, 0), (0, 1), (1, 1)]
        } else if rot == 1 {
            seq![(2, 1), (2, 2), (1, 0), (1, 1)]
        } else if rot == 2 {
            seq![(1, 2), (0, 2), (2, 1), (1, 1)]
        } else {
            seq![(0, 1), (0, 0), (1, 2), (1, 1)]
        },
        BlockKind::L => if rot == 0 {
            seq![(0, 0), (0, 1), (1, 1), (2, 1)]
        } else if rot == 1 {
            seq![(2, 0), (1, 0), (1, 1), (1, 2)]
        } else if rot == 2 {
            seq![(2, 2), (2, 1), (1, 1), (0, 1)]
        } else {
            seq![(0, 2), (1, 2), (1, 1), (1, 0)]
        },
        BlockKind::T => if rot == 0 {
            seq![(1, 0), (0, 1), (1, 1), (2, 1)]
        } else if rot == 1 {
            seq![(2, 1), (1, 0), (1, 1), (1, 2)]
        } else if rot == 2 {
            seq![(1, 2), (2, 1), (1, 1), (0, 1)]
        } else {
            seq![(0, 1), (1, 2), (1, 1), (1, 0)]
        },
        BlockKind::J => if rot == 0 {
            seq![(2, 0), (0, 1), (1, 1), (2, 1)]
        } else if rot == 1 {
            seq![(2, 2), (1, 0), (1, 1), (1, 2)]
        } else if rot == 2 {
            seq![(0, 2), (2, 1), (1, 1), (0, 1)]
        } else {
            seq![(0, 0), (1, 2), (1, 1), (1, 0)]
        },
    }
}

/// Every shape has four blocks, each offset lying in `0..=3` on both axes.
pub proof fn lemma_shape_bounds(kind: BlockKind, rot: nat)
    requires
        rot < num_rotations(kind),
    ensures
        shape(kind, rot).len() == 4,
        forall|i: int|
            0 <= i < 4 ==> 0 <= #[trigger] shape(kind, rot)[i].0 <= 3 && 0 <= shape(
                kind,
                rot,
            )[i].1 <= 3,
{
}

pub open spec fn min4(a: int, b: int, c: int, d: int) -> int {
    let ab = if a <= b { a } else { b };
    let cd = if c <= d { c } else { d };
    if ab <= cd { ab } else { cd }
}

pub open spec fn max4(a: int, b: int, c: int, d: int) -> int {
    let ab = if a >= b { a } else { b };
    let cd = if c >= d { c } else { d };
    if ab >= cd { ab } else { cd }
}

/// The smallest x coordinate among four points.
pub open spec fn min_x(s: Seq<(int, int)>) -> int {
    min4(s[0].0, s[1].0, s[2].0, s[3].0)
}

/// The smallest y coordinate among four points.
pub open spec fn min_y(s: Seq<(int, int)>) -> int {
    min4(s[0].1, s[1].1, s[2].1, s[3].1)
}

/// The largest x coordinate among four points.
pub open spec fn max_x(s: Seq<(int, int)>) -> int {
    max4(s[0].0, s[1].0, s[2].0, s[3].0)
}

/// The largest y coordinate among four points.
pub open spec fn max_y(s: Seq<(int, int)>) -> int {
    max4(s[0].1, s[1].1, s[2].1, s[3].1)
}

/// The pose of a fresh tetrimino of `kind`: first rotation state, anchored at
/// the origin.
pub open spec fn fresh(kind: BlockKind) -> Pose {
    Pose { kind, rot: 0, x: 0, y: 0 }
}

/// The mathematical model of a tetrimino: its kind, its rotation state and
/// the position of its anchor.
pub struct Pose {
    pub kind: BlockKind,
    pub rot: nat,
    pub x: int,
    pub y: int,
}

impl Pose {
    pub open spec fn wf(self) -> bool {
        &&& self.rot < num_rotations(self.kind)
        &&& -POS_LIMIT <= self.x <= POS_LIMIT
        &&& -POS_LIMIT <= self.y <= POS_LIMIT
    }

    /// Offsets of the blocks in the current rotation state.
    pub open spec fn offsets(self) -> Seq<(int, int)> {
        shape(self.kind, self.rot)
    }

    /// Absolute positions of the four blocks.
    pub open spec fn blocks(self) -> Seq<(int, int)> {
        self.offsets().map_values(|o: (int, int)| (o.0 + self.x, o.1 + self.y))
    }

    pub open spec fn shifted(self, dx: int, dy: int) -> Pose {
        Pose { kind: self.kind, rot: self.rot, x: self.x + dx, y: self.y + dy }
    }

    pub open spec fn rotated(self, times: int) -> Pose {
        Pose {
            kind: self.kind,
            rot: ((self.rot + times) % (num_rotations(self.kind) as int)) as nat,
            x: self.x,
            y: self.y,
        }
    }

    /// Width of the shape in its current rotation state.
    pub open spec fn width(self) -> int {
        max_x(self.offsets()) - min_x(self.offsets()) + 1
    }

    /// Height of the shape in its current rotation state.
    pub open spec fn height(self) -> int {
        max_y(self.offsets()) - min_y(self.offsets()) + 1
    }

    /// Column of the leftmost block.
    pub open spec fn left(self) -> int {
        self.x + min_x(self.offsets())
    }

    /// Row of the topmost block: the smallest y among the blocks.
    pub open spec fn top(self) -> int {
        self.y + min_y(self.offsets())
    }

    /// The same pose translated so that its bounding box starts at column
    /// `left` and row `top`.
    pub open spec fn moved_to(self, left: int, top: int) -> Pose {
        self.shifted(left - self.left(), top - self.top())
    }
}

/// The blocks of a pose are the offsets of its shape moved by its anchor.
pub proof fn lemma_blocks(p: Pose)
    requires
        p.rot < num_rotations(p.kind),
    ensures
        p.blocks().len() == 4,
        forall|i: int|
            0 <= i < 4 ==> #[trigger] p.blocks()[i] == (p.offsets()[i].0 + p.x, p.offsets()[i].1
                + p.y),
        min_y(p.blocks()) == p.top(),
        min_x(p.blocks()) == p.left(),
{
    lemma_shape_bounds(p.kind, p.rot);
}

impl BlockKind {
    /// Returns the all items as an array.
    pub fn all_as_array() -> (r: [BlockKind; 7])
        ensures
            r@ == seq![
                BlockKind::O,
                BlockKind::I,
                BlockKind::Z,
                BlockKind::S,
                BlockKind::L,
                BlockKind::T,
                BlockKind::J,
            ],
            forall|k: BlockKind| #[trigger] r@.contains(k),
    {
        let r = [
            BlockKind::O,
            BlockKind::I,
            BlockKind::Z,
            BlockKind::S,
            BlockKind::L,
            BlockKind::T,
            BlockKind::J,
        ];
        assert forall|k: BlockKind| #[trigger] r@.contains(k) by {
            let i: int = match k {
                BlockKind::O => 0,
                BlockKind::I => 1,
                BlockKind::Z => 2,
                BlockKind::S => 3,
                BlockKind::L => 4,
                BlockKind::T => 5,
                BlockKind::J => 6,
            };
            assert(r@[i] == k);
        }
        assert(r@ =~= seq![
            BlockKind::O,
            BlockKind::I,
            BlockKind::Z,
            BlockKind::S,
            BlockKind::L,
            BlockKind::T,
            BlockKind::J,
        ]);
        r
    }

    fn num_rot(&self) -> (r: usize)
        ensures
            r == num_rotations(*self),
    {
        match self {
            BlockKind::O => 1,
            BlockKind::I => 2,
            _ => 4,
        }
    }

    /// Offsets of the blocks in the rotation state `rot`.
    fn blocks(&self, rot: usize) -> (r: [(isize, isize); 4])
        requires
            rot < num_rotations(*self),
        ensures
            forall|i: int|
                0 <= i < 4 ==> (#[trigger] r@[i]).0 == shape(*self, rot as nat)[i].0 && r@[i].1
                    == shape(*self, rot as nat)[i].1,
    {
        let r = match self {
            BlockKind::O => [(0, 0), (1, 0), (0, 1), (1, 1)],
            BlockKind::I => if rot == 0 {
                [(0, 1), (1, 1), (2, 1), (3, 1)]
            } else {
                [(1, 0), (1, 1), (1, 2), (1, 3)]
            },
            BlockKind::S => if rot == 0 {
                [(0, 0), (1, 0), (1, 1), (2, 1)]
            } else if rot == 1 {
                [(2, 0), (2, 1), (1, 1), (1, 2)]
            } else if rot == 2 {
                [(2, 2), (1, 2), (1, 1), (0, 1)]
            } else {
                [(0, 2), (0, 1), (1, 1), (1, 0)]
            },
            BlockKind::Z => if rot == 0 {
                [(1, 0), (2, 0), (0, 1), (1, 1)]
            } else if rot == 1 {
                [(2, 1), (2, 2), (1, 0), (1, 1)]
            } else if rot == 2 {
                [(1, 2), (0, 2), (2, 1), (1, 1)]
            } else {
                [(0, 1), (0, 0), (1, 2), (1, 1)]
            },
            BlockKind::L => if rot == 0 {
                [(0, 0), (0, 1), (1, 1), (2, 1)]
            } else if rot == 1 {
                [(2, 0), (1, 0), (1, 1), (1, 2)]
            } else if rot == 2 {
                [(2, 2), (2, 1), (1, 1), (0, 1)]
            } else {
                [(0, 2), (1, 2), (1, 1), (1, 0)]
            },
            BlockKind::T => if rot == 0 {
                [(1, 0), (0, 1), (1, 1), (2, 1)]
            } else if rot == 1 {
                [(2, 1), (1, 0), (1, 1), (1, 2)]
            } else if rot == 2 {
                [(1, 2), (2, 1), (1, 1), (0, 1)]
            } else {
                [(0, 1), (1, 2), (1, 1), (1, 0)]
            },
            BlockKind::J => if rot == 0 {
                [(2, 0), (0, 1), (1, 1), (2, 1)]
            } else if rot == 1 {
                [(2, 2), (1, 0), (1, 1), (1, 2)]
            } else if rot == 2 {
                [(0, 2), (2, 1), (1, 1), (0, 1)]
            } else {
                [(0, 0), (1, 2), (1, 1), (1, 0)]
            },
        };
        r
    }
}


/// A tetrimino consisting of four dropping blocks.
#[derive(Debug, Clone, Copy, PartialEq, Eq, Hash, Structural)]
pub struct Tetrimino {
    kind: BlockKind,
    rot: usize,
    x: isize,
    y: isize,
}

impl View for Tetrimino {
    type V = Pose;

    closed spec fn view(&self) -> Pose {
        Pose { kind: self.kind, rot: self.rot as nat, x: self.x as int, y: self.y as int }
    }
}

/// Two tetriminos are equal exactly when their models are.
pub proof fn lemma_view_injective(a: Tetrimino, b: Tetrimino)
    ensures
        (a@ == b@) == (a == b),
{
}

fn min_of4(a: isize, b: isize, c: isize, d: isize) -> (r: isize)
    ensures
        r == min4(a as int, b as int, c as int, d as int),
{
    let ab = if a <= b { a } else { b };
    let cd = if c <= d { c } else { d };
    if ab <= cd { ab } else { cd }
}

fn max_of4(a: isize, b: isize, c: isize, d: isize) -> (r: isize)
    ensures
        r == max4(a as int, b as int, c as int, d as int),
{
    let ab = if a >= b { a } else { b };
    let cd = if c >= d { c } else { d };
    if ab >= cd { ab } else { cd }
}

impl Tetrimino {
    pub open spec fn wf(&self) -> bool {
        self@.wf()
    }

    /// A tetrimino of the given kind, in its first rotation state, anchored
    /// at the origin.
    pub fn new(kind: BlockKind) -> (r: Tetrimino)
        ensures
            r@ == fresh(kind),
            r.wf(),
    {
        Tetrimino { kind, rot: 0, x: 0, y: 0 }
    }

    /// Get the block kind.
    pub fn kind(&self) -> (r: BlockKind)
        ensures
            r == self@.kind,
    {
        self.kind
    }

    pub(crate) fn anchor(&self) -> (r: (isize, isize))
        ensures
            r.0 == self@.x,
            r.1 == self@.y,
    {
        (self.x, self.y)
    }

    pub(crate) fn rotation(&self) -> (r: usize)
        ensures
            r == self@.rot,
    {
        self.rot
    }

    /// Get a list of positions of the all blocks consisting this tetrimino.
    pub fn blocks(&self) -> (r: [(isize, isize); 4])
        requires
            self.wf(),
        ensures
            forall|i: int|
                0 <= i < 4 ==> (#[trigger] r@[i]).0 == self@.blocks()[i].0 && r@[i].1
                    == self@.blocks()[i].1,
    {
        proof {
            lemma_blocks(self@);
        }
        let o = self.kind.blocks(self.rot);
        let (x, y) = (self.x, self.y);
        [
            (o[0].0 + x, o[0].1 + y),
            (o[1].0 + x, o[1].1 + y),
            (o[2].0 + x, o[2].1 + y),
            (o[3].0 + x, o[3].1 + y),
        ]
    }

    /// Get the width.
    pub fn width(&self) -> (r: usize)
        requires
            self.wf(),
        ensures
            r == self@.width(),
    {
        proof {
            lemma_shape_bounds(self.kind, self.rot as nat);
        }
        let o = self.kind.blocks(self.rot);
        (max_of4(o[0].0, o[1].0, o[2].0, o[3].0) - min_of4(o[0].0, o[1].0, o[2].0, o[3].0)
            + 1) as usize
    }

    /// Get the height.
    pub fn height(&self) -> (r: usize)
        requires
            self.wf(),
        ensures
            r == self@.height(),
    {
        proof {
            lemma_shape_bounds(self.kind, self.rot as nat);
        }
        let o = self.kind.blocks(self.rot);
        (max_of4(o[0].1, o[1].1, o[2].1, o[3].1) - min_of4(o[0].1, o[1].1, o[2].1, o[3].1)
            + 1) as usize
    }

    /// The row of the topmost block, that is the smallest y among the blocks.
    pub fn bottom(&self) -> (r: isize)
        requires
            self.wf(),
        ensures
            r == self@.top(),
            r == min_y(self@.blocks()),
    {
        proof {
            lemma_blocks(self@);
        }
        let b = self.blocks();
        min_of4(b[0].1, b[1].1, b[2].1, b[3].1)
    }

    fn with_pos(&self, pos: (isize, isize)) -> (r: Tetrimino)
        ensures
            r@ == (Pose { x: pos.0 as int, y: pos.1 as int, ..self@ }),
    {
        Tetrimino { kind: self.kind, rot: self.rot, x: pos.0, y: pos.1 }
    }

    /// Translate this tetrimino so that its leftmost block stands in the
    /// column `pos.0` and its topmost block in the row `pos.1`.
    pub fn move_to(&self, pos: (isize, isize)) -> (r: Tetrimino)
        requires
            self.wf(),
            self@.moved_to(pos.0 as int, pos.1 as int).wf(),
        ensures
            r@ == self@.moved_to(pos.0 as int, pos.1 as int),
            r.wf(),
    {
        proof {
            lemma_blocks(self@);
        }
        let b = self.blocks();
        let current_left = min_of4(b[0].0, b[1].0, b[2].0, b[3].0);
        let current_top = min_of4(b[0].1, b[1].1, b[2].1, b[3].1);
        let (x, y) = (self.x, self.y);
        self.with_pos((x + (pos.0 - current_left), y + (pos.1 - current_top)))
    }

    pub fn move_left(&self, dist: isize) -> (r: Tetrimino)
        requires
            self.wf(),
            self@.shifted(-dist, 0).wf(),
        ensures
            r@ == self@.shifted(-dist, 0),
            r.wf(),
    {
        self.with_pos((self.x - dist, self.y))
    }

    pub fn move_right(&self, dist: isize) -> (r: Tetrimino)
        requires
            self.wf(),
            self@.shifted(dist as int, 0).wf(),
        ensures
            r@ == self@.shifted(dist as int, 0),
            r.wf(),
    {
        self.with_pos((self.x + dist, self.y))
    }

    pub fn move_up(&self, dist: isize) -> (r: Tetrimino)
        requires
            self.wf(),
            self@.shifted(0, -dist).wf(),
        ensures
            r@ == self@.shifted(0, -dist),
            r.wf(),
    {
        self.with_pos((self.x, self.y - dist))
    }

    pub fn move_down(&self, dist: isize) -> (r: Tetrimino)
        requires
            self.wf(),
            self@.shifted(0, dist as int).wf(),
        ensures
            r@ == self@.shifted(0, dist as int),
            r.wf(),
    {
        self.with_pos((self.x, self.y + dist))
    }

    /// Rotate this tetrimino `times` steps clockwise, around its anchor.
    pub fn rotate(&self, times: usize) -> (r: Tetrimino)
        requires
            self.wf(),
        ensures
            r@ == self@.rotated(times as int),
            r.wf(),
    {
        let n = self.kind.num_rot();
        let rot = (self.rot + times % n) % n;
        proof {
            assert(rot as int == (self.rot + times) % (n as int)) by {
                vstd::arithmetic::div_mod::lemma_add_mod_noop(self.rot as int, times as int, n as int);
                vstd::arithmetic::div_mod::lemma_mod_twice(times as int, n as int);
                vstd::arithmetic::div_mod::lemma_add_mod_noop(self.rot as int, (times % n) as int, n as int);
            }
        }
        Tetrimino { kind: self.kind, rot, x: self.x, y: self.y }
    }
}

} // verus!
