use vstd::prelude::*;

use std::collections::VecDeque;

use crate::field::{cell_at, in_field, Cell, Field, HIDDEN_ROWS, MAX_SIDE};
use crate::tetrimino::{lemma_blocks, num_rotations, Pose, Tetrimino, POS_LIMIT};

verus! {

/// Whether the cell at `b` is empty (and so inside the field).
pub open spec fn block_free(rows: Seq<Seq<Cell>>, b: (int, int)) -> bool {
    cell_at(rows, b.0, b.1) == Cell::Empty
}

/// Whether a block of `p` lies on an occupied cell or out of the field.
pub open spec fn overlaps(rows: Seq<Seq<Cell>>, p: Pose) -> bool {
    !(block_free(rows, p.blocks()[0]) && block_free(rows, p.blocks()[1]) && block_free(
        rows,
        p.blocks()[2],
    ) && block_free(rows, p.blocks()[3]))
}

/// The moves of the route search: left, right, down, and one, two or three
/// rotation steps.
pub open spec fn move_of(p: Pose, m: int) -> Pose {
    if m == 0 {
        p.shifted(-1, 0)
    } else if m == 1 {
        p.shifted(1, 0)
    } else if m == 2 {
        p.shifted(0, 1)
    } else {
        p.rotated(m - 2)
    }
}

/// Whether `q` is one move away from `p`.
pub open spec fn is_move(p: Pose, q: Pose) -> bool {
    exists|m: int| 0 <= m < 6 && #[trigger] move_of(p, m) == q
}

/// A route: poses one move apart, each after the first free of overlap.
pub open spec fn is_route(rows: Seq<Seq<Cell>>, path: Seq<Pose>) -> bool {
    &&& path.len() >= 1
    &&& forall|i: int|
        0 <= i < path.len() - 1 ==> is_move(#[trigger] path[i], path[i + 1]) && !overlaps(
            rows,
            path[i + 1],
        )
}

/// Whether some route leads from `from` to `to`.
pub open spec fn reachable(rows: Seq<Seq<Cell>>, from: Pose, to: Pose) -> bool {
    exists|path: Seq<Pose>|
        #[trigger] is_route(rows, path) && path[0] == from && path[path.len() - 1] == to
}

/// The blocks of a shifted pose are its blocks, shifted.
pub proof fn lemma_shifted_blocks(p: Pose, dx: int, dy: int)
    requires
        p.rot < num_rotations(p.kind),
    ensures
        forall|i: int|
            0 <= i < 4 ==> #[trigger] p.shifted(dx, dy).blocks()[i] == (p.blocks()[i].0 + dx,
            p.blocks()[i].1 + dy),
{
    lemma_blocks(p);
    lemma_blocks(p.shifted(dx, dy));
}

/// A pose free of overlap lies inside the field.
pub proof fn lemma_free_in_field(rows: Seq<Seq<Cell>>, p: Pose)
    requires
        p.rot < num_rotations(p.kind),
        !overlaps(rows, p),
    ensures
        forall|i: int| 0 <= i < 4 ==> in_field(rows, #[trigger] p.blocks()[i].0, p.blocks()[i].1),
        -3 <= p.x < rows[0].len(),
        -(HIDDEN_ROWS as int) - 3 <= p.y < rows.len() - HIDDEN_ROWS,
{
    lemma_blocks(p);
    crate::tetrimino::lemma_shape_bounds(p.kind, p.rot);
}

/// Width of the search table: the columns an anchor of a pose free of
/// overlap can take.
pub open spec fn table_width(width: int) -> int {
    width + 3
}

/// Height of the search table: the rows an anchor of a pose free of overlap
/// can take.
pub open spec fn table_height(n_rows: int) -> int {
    n_rows + 3
}

/// Whether `p` has a slot in the search table of a field with `width`
/// columns and `n_rows` rows.
pub open spec fn in_table(width: int, n_rows: int, p: Pose) -> bool {
    &&& p.rot < 4
    &&& -3 <= p.x < width
    &&& -(HIDDEN_ROWS as int) - 3 <= p.y < n_rows - HIDDEN_ROWS
}

/// The slot of `p` in the search table.
pub open spec fn slot(width: int, n_rows: int, p: Pose) -> int {
    (p.rot * table_height(n_rows) + (p.y + HIDDEN_ROWS + 3)) * table_width(width) + (p.x + 3)
}

pub open spec fn table_size(width: int, n_rows: int) -> int {
    4 * table_height(n_rows) * table_width(width)
}

/// Number of `true` entries.
pub open spec fn count_true(s: Seq<bool>) -> nat
    decreases s.len(),
{
    if s.len() == 0 {
        0
    } else {
        count_true(s.drop_last()) + if s.last() {
            1nat
        } else {
            0nat
        }
    }
}

proof fn lemma_count_true_bound(s: Seq<bool>)
    ensures
        count_true(s) <= s.len(),
    decreases s.len(),
{
    if s.len() > 0 {
        lemma_count_true_bound(s.drop_last());
    }
}

proof fn lemma_count_true_set(s: Seq<bool>, i: int)
    requires
        0 <= i < s.len(),
        !s[i],
    ensures
        count_true(s.update(i, true)) == count_true(s) + 1,
    decreases s.len(),
{
    let t = s.update(i, true);
    if i == s.len() - 1 {
        assert(t.drop_last() =~= s.drop_last());
    } else {
        assert(t.drop_last() =~= s.drop_last().update(i, true));
        lemma_count_true_set(s.drop_last(), i);
    }
}

proof fn lemma_pair_bound(a: int, b: int, bound: int, n: int)
    requires
        0 <= a < bound,
        0 <= b < n,
    ensures
        0 <= a * n + b < bound * n,
{
    assert(0 <= a * n + b < bound * n) by (nonlinear_arith)
        requires
            0 <= a < bound,
            0 <= b < n,
    ;
}

proof fn lemma_pair_injective(a1: int, b1: int, a2: int, b2: int, n: int)
    requires
        0 <= b1 < n,
        0 <= b2 < n,
        a1 * n + b1 == a2 * n + b2,
    ensures
        a1 == a2,
        b1 == b2,
{
    assert(a1 == a2) by (nonlinear_arith)
        requires
            0 <= b1 < n,
            0 <= b2 < n,
            a1 * n + b1 == a2 * n + b2,
    ;
}

/// Slots lie in the table, and distinct poses in the table have distinct
/// slots.
proof fn lemma_slot(width: int, n_rows: int, p: Pose, q: Pose)
    requires
        0 <= width,
        0 <= n_rows,
        in_table(width, n_rows, p),
        in_table(width, n_rows, q),
    ensures
        0 <= slot(width, n_rows, p) < table_size(width, n_rows),
        slot(width, n_rows, p) == slot(width, n_rows, q) ==> p.rot == q.rot && p.x == q.x && p.y
            == q.y,
{
    let th = table_height(n_rows);
    let tw = table_width(width);
    lemma_pair_bound(p.rot as int, p.y + HIDDEN_ROWS + 3, 4, th);
    lemma_pair_bound(p.rot * th + (p.y + HIDDEN_ROWS + 3), p.x + 3, 4 * th, tw);
    lemma_pair_bound(q.rot as int, q.y + HIDDEN_ROWS + 3, 4, th);
    if slot(width, n_rows, p) == slot(width, n_rows, q) {
        lemma_pair_injective(
            p.rot * th + (p.y + HIDDEN_ROWS + 3),
            p.x + 3,
            q.rot * th + (q.y + HIDDEN_ROWS + 3),
            q.x + 3,
            tw,
        );
        lemma_pair_injective(
            p.rot as int,
            p.y + HIDDEN_ROWS + 3,
            q.rot as int,
            q.y + HIDDEN_ROWS + 3,
            th,
        );
    }
}

/// A route can be extended by one move to a pose free of overlap.
pub proof fn lemma_route_extend(rows: Seq<Seq<Cell>>, from: Pose, p: Pose, q: Pose)
    requires
        reachable(rows, from, p),
        is_move(p, q),
        !overlaps(rows, q),
    ensures
        reachable(rows, from, q),
{
    let path = choose|path: Seq<Pose>|
        #[trigger] is_route(rows, path) && path[0] == from && path[path.len() - 1] == p;
    let longer = path.push(q);
    assert forall|i: int| 0 <= i < longer.len() - 1 implies is_move(
        #[trigger] longer[i],
        longer[i + 1],
    ) && !overlaps(rows, longer[i + 1]) by {
        if i < path.len() - 1 {
            assert(longer[i] == path[i] && longer[i + 1] == path[i + 1]);
        }
    }
    assert(is_route(rows, longer));
}

/// A set of poses that holds the start of a route and is closed under the
/// moves to poses free of overlap holds the end of the route.
proof fn lemma_route_closed(rows: Seq<Seq<Cell>>, visited: Seq<Pose>, path: Seq<Pose>)
    requires
        is_route(rows, path),
        visited.contains(path[0]),
        forall|k: int, m: int|
            0 <= k < visited.len() && 0 <= m < 6 && !overlaps(rows, #[trigger] move_of(visited[k], m))
                ==> visited.contains(move_of(visited[k], m)),
    ensures
        visited.contains(path[path.len() - 1]),
    decreases path.len(),
{
    if path.len() > 1 {
        let prefix = path.drop_last();
        assert forall|i: int| 0 <= i < prefix.len() - 1 implies is_move(
            #[trigger] prefix[i],
            prefix[i + 1],
        ) && !overlaps(rows, prefix[i + 1]) by {
            assert(prefix[i] == path[i] && prefix[i + 1] == path[i + 1]);
        }
        lemma_route_closed(rows, visited, prefix);
        let n = path.len() - 2;
        assert(prefix[n] == path[n]);
        assert(is_move(path[n], path[n + 1]));
        let k = choose|k: int| 0 <= k < visited.len() && visited[k] == path[n];
        let m = choose|m: int| 0 <= m < 6 && #[trigger] move_of(path[n], m) == path[n + 1];
        assert(move_of(visited[k], m) == path[n + 1]);
    }
}

/// The pose one move `m` away from `t`; `None` where that pose would leave
/// the range of anchors, so far out that it overlaps in any field.
fn neighbor(t: &Tetrimino, m: usize) -> (r: Option<Tetrimino>)
    requires
        t.wf(),
        m < 6,
    ensures
        match r {
            Some(n) => n@ == move_of(t@, m as int) && n.wf(),
            None => m < 3 && !move_of(t@, m as int).wf(),
        },
{
    let (x, y) = t.anchor();
    if m == 0 {
        if x > -POS_LIMIT {
            Some(t.move_left(1))
        } else {
            None
        }
    } else if m == 1 {
        if x < POS_LIMIT {
            Some(t.move_right(1))
        } else {
            None
        }
    } else if m == 2 {
        if y < POS_LIMIT {
            Some(t.move_down(1))
        } else {
            None
        }
    } else {
        Some(t.rotate(m - 2))
    }
}

/// The slot of `t` in the search table, if it has one.
fn slot_of(t: &Tetrimino, width: usize, n_rows: usize) -> (r: Option<usize>)
    requires
        t.wf(),
        width <= MAX_SIDE,
        HIDDEN_ROWS <= n_rows <= MAX_SIDE,
    ensures
        match r {
            Some(i) => in_table(width as int, n_rows as int, t@) && i == slot(
                width as int,
                n_rows as int,
                t@,
            ),
            None => !in_table(width as int, n_rows as int, t@),
        },
{
    let (x, y) = t.anchor();
    let rot = t.rotation();
    let hidden = HIDDEN_ROWS as isize;
    if rot < 4 && -3 <= x && x < width as isize && -hidden - 3 <= y && y < n_rows as isize
        - hidden {
        proof {
            lemma_slot(width as int, n_rows as int, t@, t@);
            lemma_table_size(width as int, n_rows as int);
            lemma_pair_bound(rot as int, y + HIDDEN_ROWS + 3, 4, n_rows + 3);
            lemma_pair_bound(
                rot * (n_rows + 3) + (y + HIDDEN_ROWS + 3),
                x + 3,
                4 * (n_rows + 3),
                width + 3,
            );
        }
        let row = rot * (n_rows + 3) + (y + hidden + 3) as usize;
        Some(row * (width + 3) + (x + 3) as usize)
    } else {
        None
    }
}

/// A pose whose anchor is out of range overlaps.
pub proof fn lemma_far_overlaps(rows: Seq<Seq<Cell>>, p: Pose)
    requires
        crate::field::rows_wf(rows),
        p.rot < num_rotations(p.kind),
        !p.wf(),
    ensures
        overlaps(rows, p),
{
    if !overlaps(rows, p) {
        lemma_free_in_field(rows, p);
    }
}

/// The table of a field with at most `MAX_SIDE` columns and rows fits in a
/// machine word.
proof fn lemma_table_size(width: int, n_rows: int)
    requires
        0 <= width <= MAX_SIDE,
        0 <= n_rows <= MAX_SIDE,
    ensures
        0 < table_size(width, n_rows) <= 4 * (MAX_SIDE + 3) * (MAX_SIDE + 3),
{
    assert(0 < 4 * (n_rows + 3) * (width + 3) <= 4 * (MAX_SIDE + 3) * (MAX_SIDE + 3))
        by (nonlinear_arith)
        requires
            0 <= width <= MAX_SIDE,
            0 <= n_rows <= MAX_SIDE,
    ;
}

/// State of the breadth-first search: a table of the slots seen, the queue
/// of poses to expand, and, as ghost state, every pose ever queued.
struct Search {
    width: usize,
    n_rows: usize,
    total: usize,
    seen: Vec<bool>,
    n_seen: usize,
    queue: VecDeque<Tetrimino>,
    visited: Ghost<Seq<Pose>>,
    head: Ghost<int>,
}

impl Search {
    /// The table marks exactly the slots of the visited poses.
    spec fn table_inv(&self, rows: Seq<Seq<Cell>>) -> bool {
        let w = self.width as int;
        let n = self.n_rows as int;
        let visited = self.visited@;
        &&& w == crate::field::grid_width(rows)
        &&& n == rows.len()
        &&& crate::field::rows_wf(rows)
        &&& self.total == table_size(w, n)
        &&& self.seen@.len() == self.total
        &&& self.n_seen == count_true(self.seen@)
        &&& self.n_seen <= self.total
        &&& forall|j: int|
            0 <= j < visited.len() && in_table(w, n, #[trigger] visited[j]) ==> self.seen@[slot(
                w,
                n,
                visited[j],
            )]
        &&& forall|i: int|
            0 <= i < self.total && #[trigger] self.seen@[i] ==> exists|j: int|
                0 <= j < visited.len() && in_table(w, n, #[trigger] visited[j]) && slot(
                    w,
                    n,
                    visited[j],
                ) == i
    }

    /// The queue holds the visited poses that were not expanded yet.
    spec fn queue_inv(&self) -> bool {
        let visited = self.visited@;
        let head = self.head@;
        &&& 0 <= head <= visited.len()
        &&& self.queue@.len() == visited.len() - head
        &&& forall|j: int|
            0 <= j < self.queue@.len() ==> (#[trigger] self.queue@[j])@ == visited[head + j]
                && self.queue@[j].wf()
    }

    /// The visited poses: the start, then poses free of overlap that some
    /// route reaches from the start.
    spec fn visited_inv(&self, rows: Seq<Seq<Cell>>, start: Pose) -> bool {
        let visited = self.visited@;
        &&& visited.len() >= 1
        &&& visited[0] == start
        &&& forall|j: int|
            0 <= j < visited.len() ==> (#[trigger] visited[j]).kind == start.kind
                && visited[j].rot < num_rotations(start.kind)
        &&& forall|j: int| 1 <= j < visited.len() ==> !overlaps(rows, #[trigger] visited[j])
        &&& forall|j: int| 0 <= j < visited.len() ==> reachable(rows, start, #[trigger] visited[j])
    }

    spec fn inv(&self, rows: Seq<Seq<Cell>>, start: Pose) -> bool {
        self.table_inv(rows) && self.queue_inv() && self.visited_inv(rows, start)
    }

    spec fn measure(&self) -> int {
        2 * (self.total - self.n_seen) + self.queue@.len()
    }

    /// A search that has queued `start` alone.
    fn new(field: &Field, start: &Tetrimino) -> (r: Search)
        requires
            field.wf(),
            start.wf(),
        ensures
            r.inv(field@, start@),
            r.visited@ == seq![start@],
            r.head@ == 0,
    {
        let ghost rows = field@;
        let width = field.width();
        let n_rows = field.height() + HIDDEN_ROWS;
        proof {
            lemma_table_size(width as int, n_rows as int);
        }
        let total = 4 * (n_rows + 3) * (width + 3);
        let mut seen: Vec<bool> = Vec::new();
        let mut k: usize = 0;
        while k < total
            invariant
                k <= total,
                seen@.len() == k,
                count_true(seen@) == 0,
                forall|j: int| 0 <= j < k ==> !(#[trigger] seen@[j]),
            decreases total - k,
        {
            let ghost prev = seen@;
            seen.push(false);
            assert(seen@.drop_last() =~= prev);
            k += 1;
        }
        let mut n_seen: usize = 0;
        let ghost prev = seen@;
        match slot_of(start, width, n_rows) {
            Some(i) => {
                proof {
                    lemma_slot(width as int, n_rows as int, start@, start@);
                    lemma_count_true_set(seen@, i as int);
                }
                seen.set(i, true);
                n_seen = 1;
            },
            None => {},
        }
        proof {
            lemma_count_true_bound(seen@);
        }
        let mut queue: VecDeque<Tetrimino> = VecDeque::new();
        queue.push_back(*start);
        let ghost first = seq![start@];
        let r = Search {
            width,
            n_rows,
            total,
            seen,
            n_seen,
            queue,
            visited: Ghost(first),
            head: Ghost(0),
        };
        proof {
            assert(is_route(rows, seq![start@]));
            assert forall|i: int|
                0 <= i < r.total && #[trigger] r.seen@[i] implies exists|j: int|
                0 <= j < r.visited@.len() && in_table(
                    width as int,
                    n_rows as int,
                    #[trigger] r.visited@[j],
                ) && slot(width as int, n_rows as int, r.visited@[j]) == i by {
                assert(!prev[i]);
                assert(r.visited@[0] == start@);
            }
        }
        r
    }

    /// Queue `t` unless its slot was seen.
    fn visit(&mut self, field: &Field, start: Ghost<Pose>, t: Tetrimino)
        requires
            old(self).inv(field@, start@),
            field.wf(),
            t.wf(),
            t@.kind == start@.kind,
            !overlaps(field@, t@),
            reachable(field@, start@, t@),
        ensures
            final(self).inv(field@, start@),
            final(self).head@ == old(self).head@,
            final(self).visited@ == old(self).visited@ || final(self).visited@ == old(
                self,
            ).visited@.push(t@),
            final(self).visited@.contains(t@),
            final(self).measure() <= old(self).measure(),
    {
        let ghost rows = field@;
        let ghost w = self.width as int;
        let ghost n = self.n_rows as int;
        proof {
            lemma_free_in_field(rows, t@);
        }
        let i = match slot_of(&t, self.width, self.n_rows) {
            Some(i) => i,
            None => {
                proof {
                    assert(false);
                }
                return ;
            },
        };
        proof {
            lemma_slot(w, n, t@, t@);
        }
        if self.seen[i] {
            proof {
                let j = choose|j: int|
                    0 <= j < self.visited@.len() && in_table(w, n, #[trigger] self.visited@[j])
                        && slot(w, n, self.visited@[j]) == i;
                lemma_slot(w, n, self.visited@[j], t@);
                assert(self.visited@[j] == t@);
            }
        } else {
            proof {
                lemma_count_true_set(self.seen@, i as int);
                lemma_count_true_bound(self.seen@.update(i as int, true));
            }
            let ghost old_seen = self.seen@;
            let ghost old_visited = self.visited@;
            self.seen.set(i, true);
            self.n_seen = self.n_seen + 1;
            self.queue.push_back(t);
            self.visited = Ghost(old_visited.push(t@));
            proof {
                let visited = self.visited@;
                assert(visited[visited.len() - 1] == t@);
                assert forall|ii: int|
                    0 <= ii < self.total && #[trigger] self.seen@[ii] implies exists|j: int|
                    0 <= j < visited.len() && in_table(w, n, #[trigger] visited[j]) && slot(
                        w,
                        n,
                        visited[j],
                    ) == ii by {
                    if ii != i {
                        assert(old_seen[ii]);
                        let j = choose|j: int|
                            0 <= j < old_visited.len() && in_table(
                                w,
                                n,
                                #[trigger] old_visited[j],
                            ) && slot(w, n, old_visited[j]) == ii;
                        assert(visited[j] == old_visited[j]);
                    }
                }
                assert forall|j: int|
                    0 <= j < visited.len() && in_table(
                        w,
                        n,
                        #[trigger] visited[j],
                    ) implies self.seen@[slot(w, n, visited[j])] by {
                    lemma_slot(w, n, visited[j], visited[j]);
                    if j < old_visited.len() {
                        assert(visited[j] == old_visited[j]);
                        assert(old_seen[slot(w, n, visited[j])]);
                    }
                }
                assert forall|j: int| 0 <= j < self.queue@.len() implies (
                #[trigger] self.queue@[j])@ == visited[self.head@ + j] && self.queue@[j].wf() by {
                    if j < self.queue@.len() - 1 {
                        assert(visited[self.head@ + j] == old_visited[self.head@ + j]);
                    }
                }
                assert forall|j: int| 0 <= j < visited.len() implies reachable(
                    rows,
                    start@,
                    #[trigger] visited[j],
                ) by {
                    if j < old_visited.len() {
                        assert(visited[j] == old_visited[j]);
                    }
                }
                assert forall|j: int| 1 <= j < visited.len() implies !overlaps(
                    rows,
                    #[trigger] visited[j],
                ) by {
                    if j < old_visited.len() {
                        assert(visited[j] == old_visited[j]);
                    }
                }
                assert forall|j: int| 0 <= j < visited.len() implies (
                #[trigger] visited[j]).kind == start@.kind && visited[j].rot < num_rotations(
                    start@.kind,
                ) by {
                    if j < old_visited.len() {
                        assert(visited[j] == old_visited[j]);
                    }
                }
            }
        }
    }
}

/// Whether `s` still holds `x` after a pose was pushed on it.
proof fn lemma_contains_push(s: Seq<Pose>, x: Pose, y: Pose)
    requires
        s.contains(x),
    ensures
        s.push(y).contains(x),
{
    let k = choose|k: int| 0 <= k < s.len() && s[k] == x;
    assert(s.push(y)[k] == x);
}

/// Whether some route leads from `start` to `goal`, by breadth-first search.
fn route_exists(field: &Field, start: &Tetrimino, goal: &Tetrimino) -> (r: bool)
    requires
        field.wf(),
        start.wf(),
        goal.wf(),
    ensures
        r == reachable(field@, start@, goal@),
{
    let ghost rows = field@;
    let ghost s0 = start@;
    let mut search = Search::new(field, start);
    while search.queue.len() > 0
        invariant
            field.wf(),
            rows == field@,
            goal.wf(),
            s0 == start@,
            search.inv(rows, s0),
            forall|j: int, m: int|
                0 <= j < search.head@ && 0 <= m < 6 && !overlaps(
                    rows,
                    #[trigger] move_of(search.visited@[j], m),
                ) ==> search.visited@.contains(move_of(search.visited@[j], m)),
            forall|j: int| 0 <= j < search.head@ ==> #[trigger] search.visited@[j] != goal@,
        decreases search.measure(),
    {
        let ghost measure = search.measure();
        let ghost before_pop = search.queue@;
        let elem = match search.queue.pop_front() {
            Some(e) => e,
            None => {
                proof {
                    assert(false);
                }
                return false;
            },
        };
        proof {
            assert(elem@ == search.visited@[search.head@]);
            assert forall|j: int| 0 <= j < search.queue@.len() implies (
            #[trigger] search.queue@[j])@ == search.visited@[search.head@ + 1 + j]
                && search.queue@[j].wf() by {
                assert(search.queue@[j] == before_pop[j + 1]);
            }
            crate::tetrimino::lemma_view_injective(elem, *goal);
        }
        search.head = Ghost(search.head@ + 1);
        if elem == *goal {
            proof {
                assert(search.visited@[search.head@ - 1] == elem@);
            }
            return true;
        }
        let ghost current = search.head@ - 1;
        let mut m: usize = 0;
        while m < 6
            invariant
                field.wf(),
                rows == field@,
                goal.wf(),
                elem.wf(),
                m <= 6,
                search.inv(rows, s0),
                0 <= current == search.head@ - 1,
                elem@ == search.visited@[current],
                search.measure() < measure,
                forall|j: int, mm: int|
                    0 <= j < current && 0 <= mm < 6 && !overlaps(
                        rows,
                        #[trigger] move_of(search.visited@[j], mm),
                    ) ==> search.visited@.contains(move_of(search.visited@[j], mm)),
                forall|mm: int|
                    0 <= mm < m && !overlaps(rows, #[trigger] move_of(elem@, mm))
                        ==> search.visited@.contains(move_of(elem@, mm)),
                forall|j: int| 0 <= j <= current ==> #[trigger] search.visited@[j] != goal@,
            decreases 6 - m,
        {
            match neighbor(&elem, m) {
                Some(t) => {
                    if !Checker(field, &t).overlap() {
                        let ghost before = search.visited@;
                        proof {
                            assert(is_move(elem@, t@)) by {
                                assert(move_of(elem@, m as int) == t@);
                            }
                            lemma_route_extend(rows, s0, elem@, t@);
                        }
                        search.visit(field, Ghost(s0), t);
                        proof {
                            let after = search.visited@;
                            if after != before {
                                assert forall|j: int, mm: int|
                                    0 <= j < current && 0 <= mm < 6 && !overlaps(
                                        rows,
                                        #[trigger] move_of(after[j], mm),
                                    ) implies after.contains(move_of(after[j], mm)) by {
                                    assert(after[j] == before[j]);
                                    lemma_contains_push(before, move_of(before[j], mm), t@);
                                }
                                assert forall|mm: int|
                                    0 <= mm < m && !overlaps(
                                        rows,
                                        #[trigger] move_of(elem@, mm),
                                    ) implies after.contains(move_of(elem@, mm)) by {
                                    lemma_contains_push(before, move_of(elem@, mm), t@);
                                }
                                assert(after[current] == before[current]);
                                assert forall|j: int| 0 <= j <= current implies #[trigger] after[j]
                                    != goal@ by {
                                    assert(after[j] == before[j]);
                                }
                            }
                        }
                    }
                },
                None => {
                    proof {
                        lemma_far_overlaps(rows, move_of(elem@, m as int));
                    }
                },
            }
            m += 1;
        }
    }
    proof {
        if reachable(rows, s0, goal@) {
            let path = choose|path: Seq<Pose>|
                #[trigger] is_route(rows, path) && path[0] == s0 && path[path.len() - 1] == goal@;
            assert(search.visited@[0] == path[0]);
            lemma_route_closed(rows, search.visited@, path);
        }
    }
    false
}

/// Checks the state of a tetrimino, for example whether it touches to another block.
pub struct Checker<'game>(pub &'game Field, pub &'game Tetrimino);

impl<'game> Checker<'game> {
    pub open spec fn wf(&self) -> bool {
        self.0.wf() && self.1.wf()
    }

    /// Whether the tetrimino, moved by `(dx, dy)`, would overlap.
    pub(crate) fn block_existence(&self, dx: isize, dy: isize) -> (r: bool)
        requires
            self.wf(),
            -1 <= dx <= 1,
            -1 <= dy <= 1,
        ensures
            r == overlaps(self.0@, self.1@.shifted(dx as int, dy as int)),
    {
        let ghost rows = self.0@;
        let ghost p = self.1@;
        proof {
            lemma_blocks(p);
            lemma_shifted_blocks(p, dx as int, dy as int);
            crate::tetrimino::lemma_shape_bounds(p.kind, p.rot);
        }
        let b = self.1.blocks();
        let mut i: usize = 0;
        while i < 4
            invariant
                0 <= i <= 4,
                self.wf(),
                rows == self.0@,
                p == self.1@,
                -1 <= dx <= 1,
                -1 <= dy <= 1,
                forall|k: int| 0 <= k < 4 ==> (#[trigger] b@[k]).0 == p.blocks()[k].0 && b@[k].1 == p.blocks()[k].1,
                forall|k: int|
                    0 <= k < 4 ==> #[trigger] p.shifted(dx as int, dy as int).blocks()[k] == (
                    p.blocks()[k].0 + dx, p.blocks()[k].1 + dy),
                forall|k: int| 0 <= k < 4 ==> -POS_LIMIT <= #[trigger] p.blocks()[k].0 <= POS_LIMIT + 3,
                forall|k: int| 0 <= k < 4 ==> -POS_LIMIT <= #[trigger] p.blocks()[k].1 <= POS_LIMIT + 3,
                forall|k: int|
                    0 <= k < i ==> block_free(rows, #[trigger] p.shifted(dx as int, dy as int).blocks()[k]),
            decreases 4 - i,
        {
            if self.0.get_cell((b[i].0 + dx, b[i].1 + dy)) != Cell::Empty {
                return true;
            }
            i += 1;
        }
        false
    }

    /// Returns true if there are the border or other blocks on the left side of the tetrimino.
    pub fn touch_left(&self) -> (r: bool)
        requires
            self.wf(),
        ensures
            r == overlaps(self.0@, self.1@.shifted(-1, 0)),
    {
        self.block_existence(-1, 0)
    }

    /// Same as `touch_left` but checks the right side.
    pub fn touch_right(&self) -> (r: bool)
        requires
            self.wf(),
        ensures
            r == overlaps(self.0@, self.1@.shifted(1, 0)),
    {
        self.block_existence(1, 0)
    }

    /// Same as `touch_left` but checks the bottom.
    pub fn touch_down(&self) -> (r: bool)
        requires
            self.wf(),
        ensures
            r == overlaps(self.0@, self.1@.shifted(0, 1)),
    {
        self.block_existence(0, 1)
    }

    /// Returns true if the tetrimino overlaps to other blocks, or if any
    /// blocks of the tetrimino is outside the field.
    pub fn overlap(&self) -> (r: bool)
        requires
            self.wf(),
        ensures
            r == overlaps(self.0@, self.1@),
    {
        proof {
            assert(self.1@.shifted(0, 0) == self.1@);
        }
        self.block_existence(0, 0)
    }

    /// Returns true if `start` can reach the tetrimino of `self`. The route
    /// includes moving left, right and down, or rotation.
    pub fn route_from(&self, start: &Tetrimino) -> (r: bool)
        requires
            self.wf(),
            start.wf(),
        ensures
            r == reachable(self.0@, start@, self.1@),
    {
        route_exists(self.0, start, self.1)
    }

    /// Same as `route_from` but swaps the start and the goal.
    pub fn route_to(&self, goal: &Tetrimino) -> (r: bool)
        requires
            self.wf(),
            goal.wf(),
        ensures
            r == reachable(self.0@, self.1@, goal@),
    {
        route_exists(self.0, self.1, goal)
    }
}

} // verus!
