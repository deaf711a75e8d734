//! The game: a field, the falling tetrimino, the queue of next tetriminos
//! and the hold slot, with the commands that change them.
use vstd::prelude::*;

use std::collections::VecDeque;

use crate::checker::{overlaps, reachable, Checker};
use crate::field::{
    cleared, filled_count, grid_width, in_field, rows_wf, visible_height, written, Cell, Field,
};
use crate::rotation::{lemma_first_free_kick, rotation_step, rotation_target};
use crate::tetrimino::{fresh, BlockKind, Pose, Tetrimino};
use crate::{checker, field, tetrimino};

verus! {

/// Supplies the kind of each new tetrimino.
pub trait Selector {
    /// The kind of the next tetrimino.
    fn select(&mut self) -> BlockKind;
}

/// The mathematical model of a game.
pub struct GameState {
    pub field: Seq<Seq<Cell>>,
    pub active: Pose,
    pub queue: Seq<Pose>,
    pub held: Option<Pose>,
    pub can_hold: bool,
    pub ended: bool,
    pub removed_lines: nat,
}

impl GameState {
    pub open spec fn wf(self) -> bool {
        &&& rows_wf(self.field)
        &&& self.active.wf()
        &&& forall|i: int| 0 <= i < self.queue.len() ==> #[trigger] self.queue[i] == fresh(self.queue[i].kind)
        &&& self.removed_lines <= usize::MAX
        &&& match self.held {
            Some(h) => h.wf(),
            None => true,
        }
    }
}

/// Half of `d`, rounded toward zero.
pub open spec fn half(d: int) -> int {
    if d >= 0 {
        d / 2
    } else {
        -((-d) / 2)
    }
}

/// Where a new tetrimino is placed before any adjustment: centered, just
/// above the visible area.
pub open spec fn spawn_origin(rows: Seq<Seq<Cell>>, p: Pose) -> Pose {
    p.moved_to(half(grid_width(rows) - p.width()), -p.height())
}

/// The first of the spawn candidates from the `d`-th on that is free of
/// overlap, the candidate `d` being `origin` raised by `d` rows; `origin`
/// itself when none of the five is free.
pub open spec fn first_free_spawn(rows: Seq<Seq<Cell>>, origin: Pose, d: int) -> Pose
    decreases 5 - d,
{
    if d >= 5 {
        origin
    } else if !overlaps(rows, origin.shifted(0, -d)) {
        origin.shifted(0, -d)
    } else {
        first_free_spawn(rows, origin, d + 1)
    }
}

/// The pose of a tetrimino placed at the spawn position.
pub open spec fn spawned(rows: Seq<Seq<Cell>>, p: Pose) -> Pose {
    first_free_spawn(rows, spawn_origin(rows, p), 0)
}

/// Spawning keeps the kind and the rotation state.
pub proof fn lemma_spawned_kind(rows: Seq<Seq<Cell>>, origin: Pose, d: int)
    ensures
        first_free_spawn(rows, origin, d).kind == origin.kind,
        first_free_spawn(rows, origin, d).rot == origin.rot,
    decreases 5 - d,
{
    if d < 5 {
        lemma_spawned_kind(rows, origin, d + 1);
    }
}

/// A spawned tetrimino is free of overlap whenever one of the five spawn
/// candidates is.
pub proof fn lemma_spawned_free(rows: Seq<Seq<Cell>>, p: Pose)
    requires
        exists|d: int| 0 <= d < 5 && !overlaps(rows, #[trigger] spawn_origin(rows, p).shifted(0, -d)),
    ensures
        !overlaps(rows, spawned(rows, p)),
{
    let d = choose|d: int| 0 <= d < 5 && !overlaps(rows, #[trigger] spawn_origin(rows, p).shifted(0, -d));
    lemma_first_free_spawn(rows, spawn_origin(rows, p), 0, d);
}

proof fn lemma_first_free_spawn(rows: Seq<Seq<Cell>>, origin: Pose, k: int, d: int)
    requires
        0 <= k <= d < 5,
        !overlaps(rows, origin.shifted(0, -d)),
    ensures
        !overlaps(rows, first_free_spawn(rows, origin, k)),
    decreases d - k,
{
    if k < d && overlaps(rows, origin.shifted(0, -k)) {
        lemma_first_free_spawn(rows, origin, k + 1, d);
    }
}

/// The rows with the four blocks of `p` written in.
pub open spec fn locked(rows: Seq<Seq<Cell>>, p: Pose) -> Seq<Seq<Cell>> {
    let b = p.blocks();
    written(
        written(written(written(rows, b[0].0, b[0].1, p.kind), b[1].0, b[1].1, p.kind), b[2].0, b[2].1, p.kind),
        b[3].0,
        b[3].1,
        p.kind,
    )
}

/// Whether the four blocks of `p` lie in the field.
pub open spec fn inside(rows: Seq<Seq<Cell>>, p: Pose) -> bool {
    let b = p.blocks();
    &&& in_field(rows, b[0].0, b[0].1)
    &&& in_field(rows, b[1].0, b[1].1)
    &&& in_field(rows, b[2].0, b[2].1)
    &&& in_field(rows, b[3].0, b[3].1)
}

pub open spec fn saturating_add(a: nat, b: nat) -> nat {
    if a + b <= usize::MAX {
        a + b
    } else {
        usize::MAX as nat
    }
}

/// The game state with `p` as the falling tetrimino.
pub open spec fn with_active(s: GameState, p: Pose) -> GameState {
    GameState { active: p, ..s }
}

/// Whether `p` rests: free of overlap, blocked below, and reachable from
/// `from`.
pub open spec fn rests(rows: Seq<Seq<Cell>>, from: Pose, p: Pose) -> bool {
    &&& overlaps(rows, p.shifted(0, 1))
    &&& !overlaps(rows, p)
    &&& reachable(rows, from, p)
}

/// The largest `d` below `n` for which `p` moved down by `d` rests; -1 when
/// there is none.
pub open spec fn deepest_rest(rows: Seq<Seq<Cell>>, p: Pose, n: int) -> int
    decreases n,
{
    if n <= 0 {
        -1
    } else if rests(rows, p, p.shifted(0, n - 1)) {
        n - 1
    } else {
        deepest_rest(rows, p, n - 1)
    }
}

/// The ghost of `p`: `p` moved down as far as it can rest, trying the
/// distances from the bottom of the field upward; `p` itself when it can
/// rest nowhere.
pub open spec fn ghost_of(rows: Seq<Seq<Cell>>, p: Pose) -> Pose {
    let d = deepest_rest(rows, p, visible_height(rows) - p.top());
    if d >= 0 {
        p.shifted(0, d)
    } else {
        p
    }
}

/// The pose a held tetrimino of `kind` is kept in.
pub open spec fn held_pose(kind: BlockKind) -> Pose {
    fresh(kind).moved_to(0, 0)
}

/// The tetrimino `t` placed at the spawn position of `field`.
fn spawn_pose(field: &Field, t: &Tetrimino) -> (r: Tetrimino)
    requires
        field.wf(),
        t.wf(),
    ensures
        r@ == spawned(field@, t@),
        r.wf(),
{
    let ghost rows = field@;
    let ghost p = t@;
    proof {
        tetrimino::lemma_shape_bounds(p.kind, p.rot);
    }
    let width = field.width() as isize;
    let piece_width = t.width() as isize;
    let d = width - piece_width;
    let left = if d >= 0 {
        d / 2
    } else {
        -((-d) / 2)
    };
    let top = -(t.height() as isize);
    let origin = t.move_to((left, top));
    let mut dist: isize = 0;
    while dist < 5
        invariant
            0 <= dist <= 5,
            rows == field@,
            p == t@,
            field.wf(),
            origin.wf(),
            -8 <= origin@.y <= 4,
            origin@ == spawn_origin(rows, p),
            first_free_spawn(rows, origin@, dist as int) == spawned(rows, p),
        decreases 5 - dist,
    {
        let candidate = origin.move_up(dist);
        if !Checker(field, &candidate).overlap() {
            return candidate;
        }
        dist += 1;
    }
    origin
}

/// A pose reaches itself.
pub proof fn lemma_reachable_self(rows: Seq<Seq<Cell>>, p: Pose)
    ensures
        reachable(rows, p, p),
{
    assert(checker::is_route(rows, seq![p]));
}

/// From a pose that is free of overlap and reachable, moving down finds a
/// pose that rests before the bottom of the field.
proof fn lemma_rest_below(rows: Seq<Seq<Cell>>, p: Pose, d: int)
    requires
        rows_wf(rows),
        p.rot < tetrimino::num_rotations(p.kind),
        0 <= d,
        !overlaps(rows, p.shifted(0, d)),
        reachable(rows, p, p.shifted(0, d)),
    ensures
        exists|e: int|
            d <= e < visible_height(rows) - p.top() && #[trigger] rests(rows, p, p.shifted(0, e)),
    decreases visible_height(rows) - p.top() - d,
{
    let q = p.shifted(0, d);
    checker::lemma_free_in_field(rows, q);
    tetrimino::lemma_blocks(q);
    tetrimino::lemma_blocks(p);
    tetrimino::lemma_shape_bounds(p.kind, p.rot);
    assert(q.top() == p.top() + d);
    if overlaps(rows, q.shifted(0, 1)) {
        assert(rests(rows, p, p.shifted(0, d)));
    } else {
        assert(q.shifted(0, 1) == p.shifted(0, d + 1));
        assert(checker::move_of(q, 2) == q.shifted(0, 1));
        checker::lemma_route_extend(rows, p, q, q.shifted(0, 1));
        lemma_rest_below(rows, p, d + 1);
    }
}

/// Where some distance below `n` rests, `deepest_rest` finds one.
proof fn lemma_deepest_found(rows: Seq<Seq<Cell>>, p: Pose, n: int, e: int)
    requires
        0 <= e < n,
        rests(rows, p, p.shifted(0, e)),
    ensures
        0 <= deepest_rest(rows, p, n) < n,
        rests(rows, p, p.shifted(0, deepest_rest(rows, p, n))),
    decreases n,
{
    if !rests(rows, p, p.shifted(0, n - 1)) {
        lemma_deepest_found(rows, p, n - 1, e);
    }
}

/// The ghost of a tetrimino free of overlap rests: it is free of overlap,
/// blocked below, and reachable from the tetrimino.
pub proof fn lemma_ghost_rests(rows: Seq<Seq<Cell>>, p: Pose)
    requires
        rows_wf(rows),
        p.wf(),
        !overlaps(rows, p),
    ensures
        rests(rows, p, ghost_of(rows, p)),
        ghost_of(rows, p).kind == p.kind,
        ghost_of(rows, p).rot == p.rot,
        ghost_of(rows, p).x == p.x,
{
    assert(p.shifted(0, 0) == p);
    lemma_reachable_self(rows, p);
    lemma_rest_below(rows, p, 0);
    let n = visible_height(rows) - p.top();
    let e = choose|e: int| 0 <= e < n && #[trigger] rests(rows, p, p.shifted(0, e));
    lemma_deepest_found(rows, p, n, e);
}

/// A game manager.
///
/// Move or rotate the tetrimino so that it is always inside the field and it
/// doesn't overlap to other blocks. Also have "next tetrimino" and "hold" system.
pub struct Game<S: Selector> {
    field: Field,
    tetrimino: Tetrimino,
    queue: VecDeque<Tetrimino>,
    held: Option<Tetrimino>,
    selector: S,
    can_hold: bool,
    is_end: bool,
    removed_lines: usize,
}

pub open spec fn held_view(h: Option<Tetrimino>) -> Option<Pose> {
    match h {
        Some(t) => Some(t@),
        None => None,
    }
}

impl<S: Selector> View for Game<S> {
    type V = GameState;

    closed spec fn view(&self) -> GameState {
        GameState {
            field: self.field@,
            active: self.tetrimino@,
            queue: self.queue@.map_values(|t: Tetrimino| t@),
            held: held_view(self.held),
            can_hold: self.can_hold,
            ended: self.is_end,
            removed_lines: self.removed_lines as nat,
        }
    }
}

impl<S: Selector> Game<S> {
    pub open spec fn wf(&self) -> bool {
        self@.wf()
    }

    /// Create a new game with a field of `width` columns and `height`
    /// visible rows, and a queue of `queue_size` next tetriminos.
    ///
    /// `selector` is called for every new tetrimino.
    pub fn new(width: usize, height: usize, queue_size: usize, selector: S) -> (r: Self)
        requires
            4 <= width <= field::MAX_SIDE,
            1 <= height,
            height + field::HIDDEN_ROWS <= field::MAX_SIDE,
        ensures
            r.wf(),
            r@.field == Seq::new(
                (height + field::HIDDEN_ROWS) as nat,
                |_i: int| field::empty_row(width as nat),
            ),
            r@.active == spawned(r@.field, fresh(r@.active.kind)),
            r@.queue.len() == queue_size,
            r@.held == None::<Pose>,
            r@.can_hold,
            !r@.ended,
            r@.removed_lines == 0,
    {
        let mut selector = selector;
        let first = Tetrimino::new(selector.select());
        let field = Field::new(width, height);
        let tetrimino = spawn_pose(&field, &first);
        let mut queue: VecDeque<Tetrimino> = VecDeque::new();
        let mut i: usize = 0;
        while i < queue_size
            invariant
                i <= queue_size,
                queue@.len() == i,
                forall|j: int|
                    0 <= j < i ==> (#[trigger] queue@[j])@ == fresh(queue@[j]@.kind)
                        && queue@[j].wf(),
            decreases queue_size - i,
        {
            let t = Tetrimino::new(selector.select());
            queue.push_back(t);
            i += 1;
        }
        let game = Game {
            field,
            tetrimino,
            queue,
            held: None,
            selector,
            can_hold: true,
            is_end: false,
            removed_lines: 0,
        };
        proof {
            lemma_spawned_kind(field@, spawn_origin(field@, first@), 0);
            assert(game@.active.kind == first@.kind);
        }
        game
    }

    /// Place the tetrimino at the spawn position: centered above the visible
    /// area, raised by up to four rows where it would overlap.
    fn init_pos(&mut self)
        requires
            old(self).wf(),
        ensures
            final(self)@ == (GameState {
                active: spawned(old(self)@.field, old(self)@.active),
                ..old(self)@
            }),
            final(self).wf(),
    {
        self.tetrimino = spawn_pose(&self.field, &self.tetrimino);
    }

    /// Move the tetrimino by `(dx, dy)` unless that makes it overlap or the
    /// game has ended. Returns true when it moved.
    fn try_move(&mut self, dx: isize, dy: isize) -> (r: bool)
        requires
            old(self).wf(),
            (dx == -1 && dy == 0) || (dx == 1 && dy == 0) || (dx == 0 && dy == 1),
        ensures
            final(self).wf(),
            r == (!old(self)@.ended && !overlaps(
                old(self)@.field,
                old(self)@.active.shifted(dx as int, dy as int),
            )),
            final(self)@ == if r {
                with_active(old(self)@, old(self)@.active.shifted(dx as int, dy as int))
            } else {
                old(self)@
            },
    {
        if self.is_end {
            return false;
        }
        if Checker(&self.field, &self.tetrimino).block_existence(dx, dy) {
            return false;
        }
        proof {
            checker::lemma_free_in_field(self@.field, self@.active.shifted(dx as int, dy as int));
        }
        self.tetrimino = self.tetrimino.move_right(dx).move_down(dy);
        true
    }

    /// Move the current tetrimino to the left. However, when it touches the
    /// left border or other blocks, or after the game has end, do nothing.
    ///
    /// Returns true when actually moved the tetrimino.
    pub fn move_left(&mut self) -> (r: bool)
        requires
            old(self).wf(),
        ensures
            final(self).wf(),
            r == (!old(self)@.ended && !overlaps(old(self)@.field, old(self)@.active.shifted(-1, 0))),
            final(self)@ == if r {
                with_active(old(self)@, old(self)@.active.shifted(-1, 0))
            } else {
                old(self)@
            },
            !overlaps(old(self)@.field, old(self)@.active) ==> !overlaps(
                final(self)@.field,
                final(self)@.active,
            ),
    {
        self.try_move(-1, 0)
    }

    /// Same as `move_left`, but move the tetrimino to the right.
    pub fn move_right(&mut self) -> (r: bool)
        requires
            old(self).wf(),
        ensures
            final(self).wf(),
            r == (!old(self)@.ended && !overlaps(old(self)@.field, old(self)@.active.shifted(1, 0))),
            final(self)@ == if r {
                with_active(old(self)@, old(self)@.active.shifted(1, 0))
            } else {
                old(self)@
            },
            !overlaps(old(self)@.field, old(self)@.active) ==> !overlaps(
                final(self)@.field,
                final(self)@.active,
            ),
    {
        self.try_move(1, 0)
    }

    /// Same as `move_left`, but move down the tetrimino.
    pub fn soft_drop(&mut self) -> (r: bool)
        requires
            old(self).wf(),
        ensures
            final(self).wf(),
            r == (!old(self)@.ended && !overlaps(old(self)@.field, old(self)@.active.shifted(0, 1))),
            final(self)@ == if r {
                with_active(old(self)@, old(self)@.active.shifted(0, 1))
            } else {
                old(self)@
            },
            !overlaps(old(self)@.field, old(self)@.active) ==> !overlaps(
                final(self)@.field,
                final(self)@.active,
            ),
    {
        self.try_move(0, 1)
    }

    /// Rotate the tetrimino clockwise, and move it to where it doesn't
    /// overlap. However do nothing when such a place doesn't exist nearby or
    /// after the game has end.
    ///
    /// Returns true if actually rotated the tetrimino.
    pub fn rotate(&mut self) -> (r: bool)
        requires
            old(self).wf(),
        ensures
            final(self).wf(),
            r == (!old(self)@.ended && rotation_step(old(self)@.field, old(self)@.active) is Some),
            final(self)@ == if r {
                with_active(old(self)@, rotation_step(old(self)@.field, old(self)@.active)->0)
            } else {
                old(self)@
            },
            !overlaps(old(self)@.field, old(self)@.active) ==> !overlaps(
                final(self)@.field,
                final(self)@.active,
            ),
    {
        if self.is_end {
            return false;
        }
        proof {
            lemma_first_free_kick(self@.field, self@.active.rotated(1), 0);
        }
        match rotation_target(&self.field, &self.tetrimino) {
            Some(t) => {
                self.tetrimino = t;
                true
            },
            None => false,
        }
    }

    /// Get the ghost, which shows a tetrimino after the current tetrimino is
    /// hard-dropped.
    ///
    /// The ghost is located the deepest place the current tetrimino can reach
    /// by moving left, right or down and rotating.
    pub fn ghost(&self) -> (r: Tetrimino)
        requires
            self.wf(),
        ensures
            r@ == ghost_of(self@.field, self@.active),
            r.wf(),
    {
        let ghost rows = self@.field;
        let ghost p = self@.active;
        proof {
            tetrimino::lemma_shape_bounds(p.kind, p.rot);
        }
        let bottom = self.tetrimino.bottom();
        let dist_down = self.field.height() as isize - bottom;
        let mut d = dist_down;
        while d > 0
            invariant
                d <= dist_down,
                dist_down == visible_height(rows) - p.top(),
                self.wf(),
                rows == self@.field,
                p == self@.active,
                deepest_rest(rows, p, dist_down as int) == deepest_rest(rows, p, d as int),
            decreases d,
        {
            d -= 1;
            let t = self.tetrimino.move_down(d);
            let check = Checker(&self.field, &t);
            if check.touch_down() && !check.overlap() && check.route_from(&self.tetrimino) {
                return t;
            }
        }
        self.tetrimino
    }

    /// Drop the tetrimino to the position of the ghost. Doesn't work after end.
    pub fn hard_drop(&mut self)
        requires
            old(self).wf(),
        ensures
            final(self).wf(),
            final(self)@ == if old(self)@.ended {
                old(self)@
            } else {
                with_active(old(self)@, ghost_of(old(self)@.field, old(self)@.active))
            },
            !overlaps(old(self)@.field, old(self)@.active) ==> !overlaps(
                final(self)@.field,
                final(self)@.active,
            ),
    {
        if self.is_end {
            return ;
        }
        proof {
            if !overlaps(self@.field, self@.active) {
                lemma_ghost_rests(self@.field, self@.active);
            }
        }
        self.tetrimino = self.ghost();
    }

    /// Take the next tetrimino from the queue, and put a new one at its end.
    fn shift_queue(&mut self) -> (r: Tetrimino)
        requires
            old(self).wf(),
        ensures
            final(self).wf(),
            r.wf(),
            exists|k: BlockKind|
                {
                    let q = old(self)@.queue.push(#[trigger] fresh(k));
                    &&& r@ == q[0]
                    &&& final(self)@ == (GameState { queue: q.drop_first(), ..old(self)@ })
                },
    {
        let t = Tetrimino::new(self.selector.select());
        let ghost q = old(self)@.queue.push(t@);
        self.queue.push_back(t);
        proof {
            assert(self.queue@.map_values(|t: Tetrimino| t@) =~= q);
        }
        let r = match self.queue.pop_front() {
            Some(x) => x,
            None => {
                proof {
                    assert(false);
                }
                t
            },
        };
        proof {
            assert(self@.queue =~= q.drop_first());
            assert(r@ == q[0]);
        }
        r
    }

    /// Save the current tetrimino to the field and remove the filled lines.
    /// Returns the number of removed lines.
    ///
    /// When the saved tetrimino lies completely above the visible area, the
    /// game ends instead. Doesn't work after end.
    pub fn save(&mut self) -> (r: usize)
        requires
            old(self).wf(),
            !old(self)@.ended ==> inside(old(self)@.field, old(self)@.active),
        ensures
            final(self).wf(),
            old(self)@.ended ==> r == 0 && final(self)@ == old(self)@,
            !old(self)@.ended && old(self)@.active.top() < 0 ==> r == 0 && final(self)@ == (
            GameState {
                field: locked(old(self)@.field, old(self)@.active),
                ended: true,
                ..old(self)@
            }),
            !old(self)@.ended && old(self)@.active.top() >= 0 ==> exists|k: BlockKind|
                {
                    let rows = locked(old(self)@.field, old(self)@.active);
                    let q = old(self)@.queue.push(#[trigger] fresh(k));
                    &&& r == filled_count(rows)
                    &&& final(self)@ == (GameState {
                        field: cleared(rows),
                        active: spawned(rows, q[0]),
                        queue: q.drop_first(),
                        can_hold: true,
                        removed_lines: saturating_add(old(self)@.removed_lines, r as nat),
                        ..old(self)@
                    })
                },
            final(self)@.queue.len() == old(self)@.queue.len(),
            final(self)@.ended == (old(self)@.ended || old(self)@.active.top() < 0),
    {
        if self.is_end {
            return 0;
        }
        let ghost p = self@.active;
        let ghost rows0 = self@.field;
        proof {
            tetrimino::lemma_blocks(p);
        }
        let blocks = self.tetrimino.blocks();
        let kind = self.tetrimino.kind();
        let ghost b = p.blocks();
        self.field.set(blocks[0], kind);
        self.field.set(blocks[1], kind);
        self.field.set(blocks[2], kind);
        self.field.set(blocks[3], kind);
        assert(self@.field == locked(rows0, p));
        if self.tetrimino.bottom() < 0 {
            self.is_end = true;
            return 0;
        }
        let ghost locked_state = self@;
        self.tetrimino = self.shift_queue();
        self.init_pos();
        self.can_hold = true;
        let lines = self.field.remove_filled_lines();
        proof {
            field::lemma_cleared_wf(locked_state.field);
        }
        self.removed_lines = self.removed_lines.saturating_add(lines);
        lines
    }

    /// Hold the current tetrimino. Doesn't work just after another holding or
    /// after the game has ended.
    ///
    /// The held tetrimino takes the place of the current one; when none is
    /// held yet, the next one of the queue does.
    ///
    /// Note: You can't hold tetriminos twice without saving.
    pub fn hold(&mut self)
        requires
            old(self).wf(),
        ensures
            final(self).wf(),
            !old(self)@.can_hold || old(self)@.ended ==> final(self)@ == old(self)@,
            old(self)@.can_hold && !old(self)@.ended && old(self)@.held is Some ==> final(self)@
                == (GameState {
                active: spawned(old(self)@.field, old(self)@.held->0),
                held: Some(held_pose(old(self)@.active.kind)),
                can_hold: false,
                ..old(self)@
            }),
            old(self)@.can_hold && !old(self)@.ended && old(self)@.held is None ==> exists|
                k: BlockKind,
            |
                {
                    let q = old(self)@.queue.push(#[trigger] fresh(k));
                    final(self)@ == (GameState {
                        active: spawned(old(self)@.field, q[0]),
                        queue: q.drop_first(),
                        held: Some(held_pose(old(self)@.active.kind)),
                        can_hold: false,
                        ..old(self)@
                    })
                },
            final(self)@.queue.len() == old(self)@.queue.len(),
    {
        if !self.can_hold || self.is_end {
            return ;
        }
        proof {
            tetrimino::lemma_shape_bounds(self@.active.kind, 0);
        }
        let new_held = Tetrimino::new(self.tetrimino.kind()).move_to((0, 0));
        let next = match self.held {
            Some(current_held) => current_held,
            None => self.shift_queue(),
        };
        self.tetrimino = next;
        self.held = Some(new_held);
        self.init_pos();
        self.can_hold = false;
    }

    /// Replace the field, for example to set up a position.
    pub fn set_field(&mut self, field: Field)
        requires
            old(self).wf(),
            field.wf(),
        ensures
            final(self).wf(),
            final(self)@ == (GameState { field: field@, ..old(self)@ }),
    {
        self.field = field;
    }

    /// Replace the current tetrimino, for example to set up a position.
    pub fn set_tetrimino(&mut self, tetrimino: Tetrimino)
        requires
            old(self).wf(),
            tetrimino.wf(),
        ensures
            final(self).wf(),
            final(self)@ == with_active(old(self)@, tetrimino@),
    {
        self.tetrimino = tetrimino;
    }

    /// Get the field.
    pub fn field(&self) -> (r: &Field)
        requires
            self.wf(),
        ensures
            r@ == self@.field,
            r.wf(),
    {
        &self.field
    }

    /// Get the current tetrimino.
    pub fn tetrimino(&self) -> (r: &Tetrimino)
        requires
            self.wf(),
        ensures
            r@ == self@.active,
            r.wf(),
    {
        &self.tetrimino
    }

    /// Get the queue of next tetriminos.
    pub fn queue(&self) -> (r: &VecDeque<Tetrimino>)
        ensures
            r@.map_values(|t: Tetrimino| t@) == self@.queue,
    {
        &self.queue
    }

    /// Get the held tetrimino. If no tetrimino is held, returns `None`.
    pub fn held(&self) -> (r: Option<Tetrimino>)
        ensures
            held_view(r) == self@.held,
    {
        self.held
    }

    /// Create a `Checker` from the field and the current tetrimino.
    pub fn check(&self) -> (r: Checker<'_>)
        requires
            self.wf(),
        ensures
            r.0@ == self@.field,
            r.1@ == self@.active,
            r.wf(),
    {
        Checker(&self.field, &self.tetrimino)
    }

    /// Returns true if this game has ended.
    ///
    /// The game ends when a tetrimino is saved completely in the non-visible
    /// area. After the end, this game manager doesn't change the tetrimino
    /// and the field anymore. If even one of the four blocks is saved in the
    /// visible area, the game continues.
    pub fn is_end(&self) -> (r: bool)
        ensures
            r == self@.ended,
    {
        self.is_end
    }

    /// Get the number of lines removed in this game.
    pub fn removed_lines(&self) -> (r: usize)
        ensures
            r == self@.removed_lines,
    {
        self.removed_lines
    }
}

} // verus!
