//! The board: a flat array of `width * height` optional cells, collision
//! detection for candidate piece poses, full-row detection, the animated
//! row-clear bookkeeping, and gravity compaction after clears.

use vstd::prelude::*;

use crate::animation::{timer_state, timer_wf, FrameState, FrameTimer, TimerV};
use crate::piece::{BoneV, Bone, TetV, Tetrinome};
use crate::primitives::{Collision, Color, Coord, Direction, Rotation, NUM_COLORS};
use crate::timing::MILLIS_PER_UPDATE;

verus! {

/// Columns of the board.
pub const GRID_WIDTH: i16 = 10;

/// Rows of the board.
pub const GRID_HEIGHT: i16 = 20;

/// Cells of the board.
pub const GRID_SIZE: i16 = GRID_WIDTH * GRID_HEIGHT;

/// Milliseconds per frame of the row-clear animation.
pub const CLEAR_FRAME_MILLIS: u64 = MILLIS_PER_UPDATE * 3;

/// Total milliseconds of the row-clear animation.
pub const CLEAR_ANIM_MILLIS: u64 = 3000;

/// A committed cell plus the timer of its row's clear animation, present
/// exactly while the row is mid-clear.
#[derive(Debug)]
pub struct Block {
    pub bone: Bone,
    pub frame_timer: Option<FrameTimer>,
}

/// The mathematical model of a committed cell: its bone and the model of its
/// clear-animation timer, if one is attached.
pub struct BlockV {
    pub bone: BoneV,
    pub timer: Option<TimerV>,
}

impl View for Block {
    type V = BlockV;

    open spec fn view(&self) -> BlockV {
        BlockV {
            bone: self.bone@,
            timer: match self.frame_timer {
                Some(t) => Some(t@),
                None => None,
            },
        }
    }
}

impl Clone for Block {
    fn clone(&self) -> (r: Self)
        ensures
            r@ == self@,
    {
        Block {
            bone: self.bone,
            frame_timer: match &self.frame_timer {
                Some(t) => Some(t.clone()),
                None => None,
            },
        }
    }
}

impl From<Bone> for Block {
    /// A fresh committed cell: the bone with no timer attached.
    fn from(some_bone: Bone) -> (r: Self) {
        Block { bone: some_bone, frame_timer: None }
    }
}

impl vstd::std_specs::convert::FromSpecImpl<Bone> for Block {
    open spec fn obeys_from_spec() -> bool {
        true
    }

    open spec fn from_spec(some_bone: Bone) -> Self {
        Block { bone: some_bone, frame_timer: None }
    }
}

/// The mathematical model of the board: one optional cell model per slot,
/// and the FIFO queue of row indices currently mid-clear.
#[verifier::ext_equal]
pub struct BoardV {
    pub cells: Seq<Option<BlockV>>,
    pub queue: Seq<int>,
}

/// The view of an optional cell.
pub open spec fn cell_view(ob: Option<Block>) -> Option<BlockV> {
    match ob {
        Some(b) => Some(b@),
        None => None,
    }
}

/// A stored cell knows where it is: its bone's coordinate matches its slot's
/// index, and any attached timer is well formed.
pub open spec fn cell_ok(c: Option<BlockV>, i: int) -> bool {
    match c {
        Some(b) => {
            &&& b.bone.x == i % (GRID_WIDTH as int)
            &&& b.bone.y == i / (GRID_WIDTH as int)
            &&& match b.timer {
                Some(t) => timer_wf(t),
                None => true,
            }
        },
        None => true,
    }
}

/// Board well-formedness: full size, every queued row index on the board,
/// and every stored cell consistent with its slot.
pub open spec fn board_wf(m: BoardV) -> bool {
    &&& m.cells.len() == GRID_SIZE
    &&& forall|q: int| 0 <= q < m.queue.len() ==> 0 <= #[trigger] m.queue[q] < GRID_HEIGHT
    &&& forall|i: int| 0 <= i < m.cells.len() ==> cell_ok(#[trigger] m.cells[i], i)
}

/// Whether every slot of a row is occupied.
pub open spec fn row_full_s(cells: Seq<Option<BlockV>>, row: int) -> bool {
    forall|c: int|
        0 <= c < GRID_WIDTH ==> #[trigger] cells[row * (GRID_WIDTH as int) + c] is Some
}

/// The cells with every slot of the given row blanked.
pub open spec fn row_blanked(cells: Seq<Option<BlockV>>, row: int) -> Seq<Option<BlockV>> {
    Seq::new(
        cells.len(),
        |i: int|
            if row * (GRID_WIDTH as int) <= i < row * (GRID_WIDTH as int) + GRID_WIDTH {
                None
            } else {
                cells[i]
            },
    )
}

/// Whether a queued row is ready to leave the board: every occupied cell of
/// the row that carries a timer reports the clear animation done; cells
/// without a timer, and empty slots, do not hold it back.
pub open spec fn row_ready_s(cells: Seq<Option<BlockV>>, row: int) -> bool {
    forall|c: int|
        0 <= c < GRID_WIDTH ==> match #[trigger] cells[row * (GRID_WIDTH as int) + c] {
            Some(b) => match b.timer {
                Some(t) => timer_state(t) is Done,
                None => true,
            },
            None => true,
        }
}

/// The color of the k-th cell the clear wave reaches.
pub open spec fn wave_color(k: int) -> Color {
    Color::from_index_spec((k + 1) % (NUM_COLORS as int))
}

/// The freshly attached clear-animation timer: equal frames covering the
/// fixed total animation time, with no leading delay.
pub open spec fn clear_timer_v() -> TimerV {
    TimerV {
        frames: Seq::new(
            (CLEAR_ANIM_MILLIS / CLEAR_FRAME_MILLIS) as nat,
            |i: int| CLEAR_FRAME_MILLIS as int,
        ),
        delay: 0,
        acc: 0,
        next: 0,
    }
}

/// A row's cells from column `c` on, with the clear animation started: each
/// occupied cell lacking a timer gets the wave color of its ordinal `k`
/// among such cells and the fresh clear timer; others are untouched.
pub open spec fn start_row_s(
    cells: Seq<Option<BlockV>>,
    row: int,
    c: int,
    k: int,
) -> Seq<Option<BlockV>>
    decreases GRID_WIDTH as int - c,
    when 0 <= c <= GRID_WIDTH
{
    if c >= GRID_WIDTH {
        cells
    } else {
        let i = row * (GRID_WIDTH as int) + c;
        match cells[i] {
            Some(b) => if b.timer is None {
                start_row_s(
                    cells.update(
                        i,
                        Some(
                            BlockV {
                                bone: BoneV { color: wave_color(k), x: b.bone.x, y: b.bone.y },
                                timer: Some(clear_timer_v()),
                            },
                        ),
                    ),
                    row,
                    c + 1,
                    k + 1,
                )
            } else {
                start_row_s(cells, row, c + 1, k)
            },
            None => start_row_s(cells, row, c + 1, k),
        }
    }
}


/// A committed cell moved one row down.
pub open spec fn block_bumped(b: BlockV) -> BlockV {
    BlockV { bone: BoneV { color: b.bone.color, x: b.bone.x, y: b.bone.y + 1 }, timer: b.timer }
}

/// The cells after dropping `row` one row down: `row` is blanked, each slot
/// of the row below takes the moved cell where `row` had one and keeps its
/// own content where `row` was empty, and every other row is untouched.
pub open spec fn dropped_cells_s(cells: Seq<Option<BlockV>>, row: int) -> Seq<Option<BlockV>> {
    let w = GRID_WIDTH as int;
    Seq::new(
        cells.len(),
        |i: int|
            if row * w <= i < row * w + w {
                None
            } else if (row + 1) * w <= i < (row + 1) * w + w {
                match cells[i - w] {
                    Some(b) => Some(block_bumped(b)),
                    None => cells[i],
                }
            } else {
                cells[i]
            },
    )
}

/// Queued row indices at or above a dropped row move down with it.
pub open spec fn queue_bumped(queue: Seq<int>, row: int) -> Seq<int> {
    queue.map_values(|q: int| if q <= row { q + 1 } else { q })
}

/// The whole board after dropping `row` one row down.
pub open spec fn drop_row_v(m: BoardV, row: int) -> BoardV {
    BoardV { cells: dropped_cells_s(m.cells, row), queue: queue_bumped(m.queue, row) }
}

/// How many of a row's first `c` slots are occupied.
pub open spec fn row_occ(cells: Seq<Option<BlockV>>, row: int, c: int) -> int
    decreases c,
    when 0 <= c
{
    if c <= 0 {
        0
    } else {
        row_occ(cells, row, c - 1) + if cells[row * (GRID_WIDTH as int) + (c - 1)] is Some {
            1int
        } else {
            0int
        }
    }
}

/// The collision an occupied slot is classified as, by the attempted
/// direction, or for a pure rotation by the direction the rotation leans
/// toward; a collision met with no movement intent at all reports clear.
pub open spec fn occupied_class(dir: Direction, rot: Rotation) -> Collision {
    match dir {
        Direction::Down => Collision::Under,
        Direction::Left => Collision::Left,
        Direction::Right => Collision::Right,
        Direction::Still => match rot.to_dir_spec() {
            Direction::Left => Collision::Left,
            Direction::Right => Collision::Right,
            _ => Collision::Clear,
        },
    }
}

/// The conflict one candidate cell raises, if any. The bounds checks come
/// first, in order: past the left wall, past the right wall, under the
/// floor; only a cell inside the walls and above the floor is tested for
/// occupancy, and a negative linear position (above the top) indexes
/// nothing.
pub open spec fn cell_conflict(
    cells: Seq<Option<BlockV>>,
    b: BoneV,
    dir: Direction,
    rot: Rotation,
) -> Option<Collision> {
    let w = GRID_WIDTH as int;
    if b.x < 0 {
        Some(Collision::Left)
    } else if b.x >= GRID_WIDTH {
        Some(Collision::Right)
    } else if b.y >= GRID_HEIGHT {
        Some(Collision::Under)
    } else if b.x + b.y * w >= 0 && cells[b.x + b.y * w] is Some {
        Some(occupied_class(dir, rot))
    } else {
        None
    }
}

/// The first conflict of the candidate's cells from index `i` on, scanning
/// in bone order and stopping at the first cell that raises one; clear if
/// none does.
pub open spec fn check_from(
    cells: Seq<Option<BlockV>>,
    bones: Seq<BoneV>,
    i: int,
    dir: Direction,
    rot: Rotation,
) -> Collision
    decreases bones.len() - i,
    when 0 <= i <= bones.len()
{
    if i >= bones.len() {
        Collision::Clear
    } else {
        match cell_conflict(cells, bones[i], dir, rot) {
            Some(col) => col,
            None => check_from(cells, bones, i + 1, dir, rot),
        }
    }
}

/// The collision of a whole candidate pose against the board.
pub open spec fn check_collision_s(
    cells: Seq<Option<BlockV>>,
    t: TetV,
    dir: Direction,
    rot: Rotation,
) -> Collision {
    check_from(cells, t.bones, 0, dir, rot)
}

/// Collision priority: a cell past the left wall reports the wall, never the
/// occupancy of any slot; the bounds checks precede the occupancy check.
pub proof fn lemma_bounds_before_occupancy(
    cells: Seq<Option<BlockV>>,
    b: BoneV,
    dir: Direction,
    rot: Rotation,
)
    requires
        b.x < 0,
    ensures
        cell_conflict(cells, b, dir, rot) == Some(Collision::Left),
{
}

/// The cells with every listed row blanked, from entry `i` of the list on.
pub open spec fn clear_rows_s(cells: Seq<Option<BlockV>>, rows: Seq<int>, i: int) -> Seq<
    Option<BlockV>,
>
    decreases rows.len() - i,
    when 0 <= i <= rows.len()
{
    if i >= rows.len() {
        cells
    } else {
        clear_rows_s(row_blanked(cells, rows[i]), rows, i + 1)
    }
}

/// Gravity compaction onto a cleared row: from `row` down toward row 0 each
/// row drops one slot, stopping after the first empty row dropped, since
/// rows above an empty row hold nothing that needs to fall.
pub open spec fn compact_from(m: BoardV, row: int) -> BoardV
    decreases row + 1,
    when row >= -1
{
    if row < 0 {
        m
    } else {
        let m2 = drop_row_v(m, row);
        if row_occ(m.cells, row, GRID_WIDTH as int) == 0 {
            m2
        } else {
            compact_from(m2, row - 1)
        }
    }
}

/// Compaction applied above each listed row in turn, from entry `i` on.
pub open spec fn compact_all(m: BoardV, rows: Seq<int>, i: int) -> BoardV
    decreases rows.len() - i,
    when 0 <= i <= rows.len()
{
    if i >= rows.len() {
        m
    } else {
        compact_all(compact_from(m, rows[i] - 1), rows, i + 1)
    }
}

/// The queued rows that are ready, in queue order.
pub open spec fn ready_rows(cells: Seq<Option<BlockV>>, queue: Seq<int>) -> Seq<int>
    decreases queue.len(),
{
    if queue.len() == 0 {
        queue
    } else {
        let s = ready_rows(cells, queue.drop_last());
        if row_ready_s(cells, queue.last()) {
            s.push(queue.last())
        } else {
            s
        }
    }
}

/// The queued rows that are not ready yet, in queue order.
pub open spec fn unready_rows(cells: Seq<Option<BlockV>>, queue: Seq<int>) -> Seq<int>
    decreases queue.len(),
{
    if queue.len() == 0 {
        queue
    } else {
        let s = unready_rows(cells, queue.drop_last());
        if !row_ready_s(cells, queue.last()) {
            s.push(queue.last())
        } else {
            s
        }
    }
}

/// One finish step: exactly the queued rows whose cells all report the clear
/// animation done are blanked and dequeued, in queue order, and the rows
/// above each drop down by one.
pub open spec fn finish_clear_v(m: BoardV) -> BoardV {
    let ready = ready_rows(m.cells, m.queue);
    let rest = unready_rows(m.cells, m.queue);
    compact_all(BoardV { cells: clear_rows_s(m.cells, ready, 0), queue: rest }, ready, 0)
}

/// A candidate checked with any real movement or rotation intent and found
/// clear has every cell inside the walls and above the floor: with such an
/// intent no conflict, occupancy included, classifies as clear.
pub proof fn lemma_clear_bounds(
    cells: Seq<Option<BlockV>>,
    bones: Seq<BoneV>,
    dir: Direction,
    rot: Rotation,
    i: int,
)
    requires
        0 <= i <= bones.len(),
        !(dir is Still && rot is Still),
        check_from(cells, bones, i, dir, rot) is Clear,
    ensures
        forall|j: int|
            i <= j < bones.len() ==> 0 <= #[trigger] bones[j].x < GRID_WIDTH && bones[j].y
                < GRID_HEIGHT,
    decreases bones.len() - i,
{
    if i < bones.len() {
        assert(!(occupied_class(dir, rot) is Clear));
        assert(cell_conflict(cells, bones[i], dir, rot) is None);
        lemma_clear_bounds(cells, bones, dir, rot, i + 1);
    }
}

/// A downward check on a candidate whose cells all sit inside the walls
/// reports a collision underneath whenever any cell is at or below the
/// floor: every conflict such a check can raise classifies as underneath.
pub proof fn lemma_down_check_under(
    cells: Seq<Option<BlockV>>,
    bones: Seq<BoneV>,
    rot: Rotation,
    i: int,
)
    requires
        0 <= i <= bones.len(),
        forall|j: int| 0 <= j < bones.len() ==> 0 <= #[trigger] bones[j].x < GRID_WIDTH,
        exists|j: int| i <= j < bones.len() && #[trigger] bones[j].y >= GRID_HEIGHT,
    ensures
        check_from(cells, bones, i, Direction::Down, rot) is Under,
    decreases bones.len() - i,
{
    if i < bones.len() {
        match cell_conflict(cells, bones[i], Direction::Down, rot) {
            Some(c) => {
                assert(c is Under);
            },
            None => {
                let j = choose|j: int| i <= j < bones.len() && #[trigger] bones[j].y >= GRID_HEIGHT;
                assert(bones[i].y < GRID_HEIGHT);
                assert(i + 1 <= j);
                lemma_down_check_under(cells, bones, rot, i + 1);
            },
        }
    }
}

/// A downward check on a candidate whose cells all sit inside the walls
/// reports either clear or a collision underneath: no wall can be hit and
/// occupancy on a downward move classifies as underneath.
pub proof fn lemma_down_result(
    cells: Seq<Option<BlockV>>,
    bones: Seq<BoneV>,
    rot: Rotation,
    i: int,
)
    requires
        0 <= i <= bones.len(),
        forall|j: int| 0 <= j < bones.len() ==> 0 <= #[trigger] bones[j].x < GRID_WIDTH,
    ensures
        check_from(cells, bones, i, Direction::Down, rot) is Under || check_from(
            cells,
            bones,
            i,
            Direction::Down,
            rot,
        ) is Clear,
    decreases bones.len() - i,
{
    if i < bones.len() {
        lemma_down_result(cells, bones, rot, i + 1);
    }
}

/// With no queued row ready, nothing is ready to leave and everything is
/// still waiting.
proof fn lemma_rows_none_ready(cells: Seq<Option<BlockV>>, queue: Seq<int>)
    requires
        forall|k: int| 0 <= k < queue.len() ==> !row_ready_s(cells, #[trigger] queue[k]),
    ensures
        ready_rows(cells, queue) =~= Seq::<int>::empty(),
        unready_rows(cells, queue) =~= queue,
    decreases queue.len(),
{
    if queue.len() > 0 {
        assert forall|k: int| 0 <= k < queue.drop_last().len() implies !row_ready_s(
            cells,
            #[trigger] queue.drop_last()[k],
        ) by {
            assert(queue.drop_last()[k] == queue[k]);
        }
        lemma_rows_none_ready(cells, queue.drop_last());
        assert(!row_ready_s(cells, queue[queue.len() - 1]));
        assert(unready_rows(cells, queue) =~= queue);
    }
}

/// With every queued row ready, everything is ready to leave and nothing is
/// still waiting.
proof fn lemma_rows_all_ready(cells: Seq<Option<BlockV>>, queue: Seq<int>)
    requires
        forall|k: int| 0 <= k < queue.len() ==> row_ready_s(cells, #[trigger] queue[k]),
    ensures
        ready_rows(cells, queue) =~= queue,
        unready_rows(cells, queue) =~= Seq::<int>::empty(),
    decreases queue.len(),
{
    if queue.len() > 0 {
        assert forall|k: int| 0 <= k < queue.drop_last().len() implies row_ready_s(
            cells,
            #[trigger] queue.drop_last()[k],
        ) by {
            assert(queue.drop_last()[k] == queue[k]);
        }
        lemma_rows_all_ready(cells, queue.drop_last());
        assert(row_ready_s(cells, queue[queue.len() - 1]));
        assert(ready_rows(cells, queue) =~= queue);
    }
}

/// Compaction adjusts queued row indices but never adds or removes one.
proof fn lemma_compact_queue_len(m: BoardV, row: int)
    requires
        row >= -1,
    ensures
        compact_from(m, row).queue.len() == m.queue.len(),
    decreases row + 1,
{
    if row >= 0 {
        if row_occ(m.cells, row, GRID_WIDTH as int) == 0 {
        } else {
            lemma_compact_queue_len(drop_row_v(m, row), row - 1);
        }
    }
}

/// Compaction above each listed row keeps the queue's length.
proof fn lemma_compact_all_queue_len(m: BoardV, rows: Seq<int>, i: int)
    requires
        0 <= i <= rows.len(),
        forall|k: int| 0 <= k < rows.len() ==> #[trigger] rows[k] >= 0,
    ensures
        compact_all(m, rows, i).queue.len() == m.queue.len(),
    decreases rows.len() - i,
{
    if i < rows.len() {
        lemma_compact_queue_len(m, rows[i] - 1);
        lemma_compact_all_queue_len(compact_from(m, rows[i] - 1), rows, i + 1);
    }
}

/// Clear-completion gating, the waiting side: while no queued row has all
/// its cells' timers done, a finish step removes nothing and changes
/// nothing at all.
pub proof fn lemma_clear_gating_waiting(m: BoardV)
    requires
        forall|k: int| 0 <= k < m.queue.len() ==> !row_ready_s(m.cells, #[trigger] m.queue[k]),
    ensures
        finish_clear_v(m) == m,
{
    lemma_rows_none_ready(m.cells, m.queue);
    let ready = ready_rows(m.cells, m.queue);
    assert(clear_rows_s(m.cells, ready, 0) == m.cells);
    assert(finish_clear_v(m) =~= m);
}

/// Clear-completion gating, the done side: on the first tick where every
/// queued row's cells report done, every queued row is blanked and leaves
/// the queue.
pub proof fn lemma_clear_gating_done(m: BoardV)
    requires
        board_wf(m),
        forall|k: int| 0 <= k < m.queue.len() ==> row_ready_s(m.cells, #[trigger] m.queue[k]),
    ensures
        finish_clear_v(m).queue.len() == 0,
{
    lemma_rows_all_ready(m.cells, m.queue);
    let ready = ready_rows(m.cells, m.queue);
    let m1 = BoardV { cells: clear_rows_s(m.cells, ready, 0), queue: unready_rows(m.cells, m.queue) };
    assert forall|k: int| 0 <= k < ready.len() implies #[trigger] ready[k] >= 0 by {
        assert(ready[k] == m.queue[k]);
    }
    lemma_compact_all_queue_len(m1, ready, 0);
}

/// Two cell arrays equal on a row have the same occupancy count over it.
proof fn lemma_row_occ_same(
    cells1: Seq<Option<BlockV>>,
    cells2: Seq<Option<BlockV>>,
    row: int,
    c: int,
)
    requires
        0 <= c,
        forall|col: int|
            0 <= col < c ==> #[trigger] cells1[row * (GRID_WIDTH as int) + col] == cells2[row * (
            GRID_WIDTH as int) + col],
    ensures
        row_occ(cells1, row, c) == row_occ(cells2, row, c),
    decreases c,
{
    if c > 0 {
        lemma_row_occ_same(cells1, cells2, row, c - 1);
    }
}

/// Gravity compaction stops at the first empty row scanned: dropping above
/// a cleared row, with every row strictly between the empty row `e` and the
/// start row `r` occupied, no cell above row `e` moves.
pub proof fn lemma_compact_stops_at_empty(m: BoardV, r: int, e: int)
    requires
        m.cells.len() == GRID_SIZE,
        0 <= e <= r < GRID_HEIGHT,
        row_occ(m.cells, e, GRID_WIDTH as int) == 0,
        forall|t: int| e < t <= r ==> row_occ(m.cells, t, GRID_WIDTH as int) != 0,
    ensures
        forall|i: int|
            0 <= i < e * (GRID_WIDTH as int) ==> #[trigger] compact_from(m, r).cells[i]
                == m.cells[i],
    decreases r - e,
{
    let w = GRID_WIDTH as int;
    if r == e {
        assert(compact_from(m, r) == drop_row_v(m, r));
        assert forall|i: int| 0 <= i < e * w implies #[trigger] compact_from(m, r).cells[i]
            == m.cells[i] by {
            assert(i < r * w);
        }
    } else {
        assert(row_occ(m.cells, r, w) != 0);
        let m2 = drop_row_v(m, r);
        assert(compact_from(m, r) == compact_from(m2, r - 1));
        assert forall|i: int| 0 <= i < r * w implies #[trigger] m2.cells[i] == m.cells[i] by {}
        assert forall|col: int| 0 <= col < w implies #[trigger] m2.cells[e * w + col] == m.cells[e
            * w + col] by {
            assert(e * w + col < r * w);
        }
        lemma_row_occ_same(m2.cells, m.cells, e, w);
        assert forall|t: int| e < t <= r - 1 implies row_occ(m2.cells, t, w) != 0 by {
            assert forall|col: int| 0 <= col < w implies #[trigger] m2.cells[t * w + col]
                == m.cells[t * w + col] by {
                assert(t * w + col < r * w);
            }
            lemma_row_occ_same(m2.cells, m.cells, t, w);
        }
        lemma_compact_stops_at_empty(m2, r - 1, e);
        assert forall|i: int| 0 <= i < e * w implies #[trigger] compact_from(m, r).cells[i]
            == m.cells[i] by {
            assert(i < r * w);
            assert(compact_from(m2, r - 1).cells[i] == m2.cells[i]);
        }
    }
}

/// A queued row that is not ready keeps its place among the rows still
/// waiting.
proof fn lemma_unready_member(cells: Seq<Option<BlockV>>, queue: Seq<int>, k: int)
    requires
        0 <= k < queue.len(),
        !row_ready_s(cells, queue[k]),
    ensures
        exists|j: int|
            0 <= j < unready_rows(cells, queue).len() && #[trigger] unready_rows(cells, queue)[j]
                == queue[k],
    decreases queue.len(),
{
    let u = unready_rows(cells, queue);
    if k == queue.len() - 1 {
        assert(u[u.len() - 1] == queue[k]);
    } else {
        assert(queue.drop_last()[k] == queue[k]);
        lemma_unready_member(cells, queue.drop_last(), k);
        let j = choose|j: int|
            0 <= j < unready_rows(cells, queue.drop_last()).len() && #[trigger] unready_rows(
                cells,
                queue.drop_last(),
            )[j] == queue[k];
        assert(u[j] == queue[k]);
    }
}

/// Compaction onto one cleared row keeps every queue slot, moving its
/// recorded index down (never up) as rows drop beneath it.
proof fn lemma_compact_queue_pointwise(m: BoardV, row: int)
    requires
        row >= -1,
    ensures
        compact_from(m, row).queue.len() == m.queue.len(),
        forall|j: int|
            0 <= j < m.queue.len() ==> #[trigger] compact_from(m, row).queue[j] >= m.queue[j],
    decreases row + 1,
{
    if row >= 0 {
        let m2 = drop_row_v(m, row);
        assert forall|j: int| 0 <= j < m.queue.len() implies #[trigger] m2.queue[j]
            >= m.queue[j] by {}
        if row_occ(m.cells, row, GRID_WIDTH as int) == 0 {
        } else {
            lemma_compact_queue_pointwise(m2, row - 1);
        }
    }
}

/// Every row the finish step would clear lies on the board.
proof fn lemma_ready_rows_bounds(cells: Seq<Option<BlockV>>, queue: Seq<int>)
    requires
        forall|q: int| 0 <= q < queue.len() ==> 0 <= #[trigger] queue[q] < GRID_HEIGHT,
    ensures
        forall|k: int|
            0 <= k < ready_rows(cells, queue).len() ==> 0 <= #[trigger] ready_rows(cells, queue)[k]
                < GRID_HEIGHT,
    decreases queue.len(),
{
    if queue.len() > 0 {
        assert forall|q: int| 0 <= q < queue.drop_last().len() implies 0
            <= #[trigger] queue.drop_last()[q] < GRID_HEIGHT by {
            assert(queue.drop_last()[q] == queue[q]);
        }
        lemma_ready_rows_bounds(cells, queue.drop_last());
        assert(0 <= queue[queue.len() - 1] < GRID_HEIGHT);
        let pre = ready_rows(cells, queue.drop_last());
        assert forall|k: int| 0 <= k < ready_rows(cells, queue).len() implies 0
            <= #[trigger] ready_rows(cells, queue)[k] < GRID_HEIGHT by {
            if row_ready_s(cells, queue.last()) {
                if k < pre.len() {
                    assert(ready_rows(cells, queue)[k] == pre[k]);
                } else {
                    assert(ready_rows(cells, queue)[k] == queue[queue.len() - 1]);
                }
            } else {
                assert(ready_rows(cells, queue)[k] == pre[k]);
            }
        }
    }
}

/// Compaction above every listed row keeps every queue slot, moving its
/// recorded index down, never up.
proof fn lemma_compact_all_queue_pointwise(m: BoardV, rows: Seq<int>, i: int)
    requires
        0 <= i <= rows.len(),
        forall|k: int| 0 <= k < rows.len() ==> #[trigger] rows[k] >= 0,
    ensures
        compact_all(m, rows, i).queue.len() == m.queue.len(),
        forall|j: int|
            0 <= j < m.queue.len() ==> #[trigger] compact_all(m, rows, i).queue[j] >= m.queue[j],
    decreases rows.len() - i,
{
    if i < rows.len() {
        let mid = compact_from(m, rows[i] - 1);
        lemma_compact_queue_pointwise(m, rows[i] - 1);
        lemma_compact_all_queue_pointwise(mid, rows, i + 1);
        assert forall|j: int| 0 <= j < m.queue.len() implies #[trigger] compact_all(
            m,
            rows,
            i,
        ).queue[j] >= m.queue[j] by {
            assert(compact_all(mid, rows, i + 1).queue[j] >= mid.queue[j]);
            assert(mid.queue[j] >= m.queue[j]);
        }
    }
}

/// Clear-completion gating, per row: a queued row with any cell's timer not
/// yet done is not removed by a finish step — it keeps a queue slot, its
/// recorded index only adjusted downward by whatever dropped beneath it.
pub proof fn lemma_clear_gating_row_waits(m: BoardV, k: int)
    requires
        board_wf(m),
        0 <= k < m.queue.len(),
        !row_ready_s(m.cells, m.queue[k]),
    ensures
        exists|j: int|
            0 <= j < finish_clear_v(m).queue.len() && unready_rows(m.cells, m.queue)[j]
                == m.queue[k] && #[trigger] finish_clear_v(m).queue[j] >= m.queue[k],
{
    lemma_unready_member(m.cells, m.queue, k);
    let ready = ready_rows(m.cells, m.queue);
    let rest = unready_rows(m.cells, m.queue);
    let m1 = BoardV { cells: clear_rows_s(m.cells, ready, 0), queue: rest };
    lemma_ready_rows_bounds(m.cells, m.queue);
    lemma_compact_all_queue_pointwise(m1, ready, 0);
    let j = choose|j: int| 0 <= j < rest.len() && #[trigger] rest[j] == m.queue[k];
    assert(finish_clear_v(m).queue[j] >= m.queue[k]);
}

/// Whether some bone of the sequence lies in the given row.
pub open spec fn has_row(bones: Seq<Bone>, y: i16) -> bool {
    exists|j: int| 0 <= j < bones.len() && #[trigger] bones[j].coord.y == y
}

/// Fixed-size cell storage plus the FIFO queue of rows mid-clear, oldest
/// first.
#[derive(Debug)]
pub struct Blocks {
    pub data: Vec<Option<Block>>,
    pub rows_full: Vec<i16>,
}

impl View for Blocks {
    type V = BoardV;

    open spec fn view(&self) -> BoardV {
        BoardV {
            cells: self.data@.map_values(|ob: Option<Block>| cell_view(ob)),
            queue: self.rows_full@.map_values(|r: i16| r as int),
        }
    }
}

impl Blocks {
    /// An empty board of `len` slots with nothing queued.
    pub fn new(len: usize) -> (r: Self)
        ensures
            r@.cells =~= Seq::new(len as nat, |i: int| None::<BlockV>),
            r@.queue =~= Seq::<int>::empty(),
            len == GRID_SIZE ==> board_wf(r@),
    {
        let mut data: Vec<Option<Block>> = Vec::new();
        let mut i: usize = 0;
        while i < len
            invariant
                0 <= i <= len,
                data@.len() == i,
                forall|j: int| 0 <= j < i ==> #[trigger] data@[j] is None,
            decreases len - i,
        {
            data.push(None);
            i = i + 1;
        }
        let r = Blocks { data, rows_full: Vec::new() };
        proof {
            assert forall|j: int| 0 <= j < r@.cells.len() implies #[trigger] r@.cells[j]
                is None by {
                assert(r.data@[j] is None);
            }
        }
        r
    }

    /// Writes the bone into the slot its position names, as a fresh cell
    /// with no timer; a negative position is the "no index" sentinel and
    /// writes nothing.
    pub fn set_block(&mut self, new_pos: crate::primitives::Pos, bone: Bone)
        requires
            old(self)@.cells.len() == GRID_SIZE,
            new_pos.0 < GRID_SIZE,
            new_pos.0 >= 0 ==> {
                &&& bone.coord.x == new_pos.0 as int % (GRID_WIDTH as int)
                &&& bone.coord.y == new_pos.0 as int / (GRID_WIDTH as int)
            },
        ensures
            final(self)@.queue == old(self)@.queue,
            final(self)@.cells == if new_pos.0 >= 0 {
                old(self)@.cells.update(
                    new_pos.0 as int,
                    Some(BlockV { bone: bone@, timer: None }),
                )
            } else {
                old(self)@.cells
            },
    {
        if new_pos.0 >= 0 {
            let i = new_pos.to_index();
            self.data.set(i, Some(Block::from(bone)));
            proof {
                assert(self@.cells =~= old(self)@.cells.update(
                    new_pos.0 as int,
                    Some(BlockV { bone: bone@, timer: None }),
                ));
            }
        }
    }

    /// The cell stored at a position, or nothing for the negative "no index"
    /// sentinel.
    pub fn get_block(&self, pos: crate::primitives::Pos) -> (r: Option<Block>)
        requires
            self@.cells.len() == GRID_SIZE,
            pos.0 < GRID_SIZE,
        ensures
            cell_view(r) == if pos.0 >= 0 {
                self@.cells[pos.0 as int]
            } else {
                None::<BlockV>
            },
    {
        if pos.0 >= 0 {
            let i = pos.to_index();
            match &self.data[i] {
                Some(b) => Some(b.clone()),
                None => None,
            }
        } else {
            None
        }
    }

    /// Blanks the entire board; rows queued mid-clear stay queued and simply
    /// find their cells gone.
    pub fn clear(&mut self)
        requires
            forall|q: int|
                0 <= q < old(self)@.queue.len() ==> 0 <= #[trigger] old(self)@.queue[q]
                    < GRID_HEIGHT,
        ensures
            final(self)@.cells =~= Seq::new(GRID_SIZE as nat, |i: int| None::<BlockV>),
            final(self)@.queue == old(self)@.queue,
            board_wf(final(self)@),
    {
        let mut data: Vec<Option<Block>> = Vec::new();
        let mut i: usize = 0;
        while i < GRID_SIZE as usize
            invariant
                0 <= i <= GRID_SIZE,
                data@.len() == i,
                forall|j: int| 0 <= j < i ==> #[trigger] data@[j] is None,
            decreases GRID_SIZE - i,
        {
            data.push(None);
            i = i + 1;
        }
        self.data = data;
        proof {
            assert forall|j: int| 0 <= j < self@.cells.len() implies #[trigger] self@.cells[j]
                is None by {
                assert(self.data@[j] is None);
            }
            assert(self.rows_full@ == old(self).rows_full@);
            assert forall|q: int| 0 <= q < self@.queue.len() implies 0 <= #[trigger] self@.queue[q]
                < GRID_HEIGHT by {
                assert(self@.queue[q] == old(self)@.queue[q]);
                assert(0 <= old(self)@.queue[q] < GRID_HEIGHT);
            }
        }
    }

    /// Whether every slot of the row is occupied.
    pub fn row_full(&self, row: i16) -> (r: bool)
        requires
            self@.cells.len() == GRID_SIZE,
            0 <= row < GRID_HEIGHT,
        ensures
            r == row_full_s(self@.cells, row as int),
    {
        let start = (row * GRID_WIDTH) as usize;
        let mut c: usize = 0;
        while c < GRID_WIDTH as usize
            invariant
                self@.cells.len() == GRID_SIZE,
                0 <= row < GRID_HEIGHT,
                start == row * GRID_WIDTH,
                0 <= c <= GRID_WIDTH,
                forall|j: int|
                    0 <= j < c ==> #[trigger] self@.cells[row * (GRID_WIDTH as int) + j] is Some,
            decreases GRID_WIDTH as usize - c,
        {
            if self.data[start + c].is_none() {
                proof {
                    assert(self@.cells[row * (GRID_WIDTH as int) + c] is None);
                }
                return false;
            }
            proof {
                assert(self@.cells[row * (GRID_WIDTH as int) + c as int] is Some);
            }
            c = c + 1;
        }
        true
    }

    /// Blanks every slot of the row.
    pub fn clear_row(&mut self, row: i16)
        requires
            old(self)@.cells.len() == GRID_SIZE,
            0 <= row < GRID_HEIGHT,
        ensures
            final(self)@.cells == row_blanked(old(self)@.cells, row as int),
            final(self)@.queue == old(self)@.queue,
    {
        let start = (row * GRID_WIDTH) as usize;
        let mut c: usize = 0;
        while c < GRID_WIDTH as usize
            invariant
                self@.cells.len() == GRID_SIZE,
                old(self)@.cells.len() == GRID_SIZE,
                0 <= row < GRID_HEIGHT,
                start == row * GRID_WIDTH,
                0 <= c <= GRID_WIDTH,
                self@.queue == old(self)@.queue,
                forall|j: int|
                    0 <= j < c ==> #[trigger] self@.cells[row * (GRID_WIDTH as int) + j] is None,
                forall|i: int|
                    0 <= i < self@.cells.len() && !(row * (GRID_WIDTH as int) <= i < row * (
                    GRID_WIDTH as int) + c) ==> #[trigger] self@.cells[i] == old(self)@.cells[i],
            decreases GRID_WIDTH as usize - c,
        {
            let ghost pre = self@.cells;
            self.data.set(start + c, None);
            proof {
                assert(self@.cells =~= pre.update(row * (GRID_WIDTH as int) + c as int, None));
            }
            c = c + 1;
        }
        proof {
            let w = GRID_WIDTH as int;
            assert forall|i: int| 0 <= i < self@.cells.len() implies self@.cells[i] == row_blanked(
                old(self)@.cells,
                row as int,
            )[i] by {
                if row * w <= i < row * w + w {
                    assert(self@.cells[row * w + (i - row * w)] is None);
                }
            }
            assert(self@.cells =~= row_blanked(old(self)@.cells, row as int));
        }
    }

    /// Enqueues a row onto the FIFO of rows mid-clear.
    pub fn add_row_to_clear(&mut self, row: i16)
        ensures
            final(self)@.cells == old(self)@.cells,
            final(self)@.queue == old(self)@.queue.push(row as int),
    {
        self.rows_full.push(row);
        proof {
            assert(self@.queue =~= old(self)@.queue.push(row as int));
        }
    }

    /// Whether the row is ready to be cleared: every cell of the row that
    /// carries an animation timer reports it done (peeking, consuming no
    /// frame).
    pub fn row_ready(&self, row: i16) -> (r: bool)
        requires
            board_wf(self@),
            0 <= row < GRID_HEIGHT,
        ensures
            r == row_ready_s(self@.cells, row as int),
    {
        let start = (row * GRID_WIDTH) as usize;
        let mut c: usize = 0;
        while c < GRID_WIDTH as usize
            invariant
                board_wf(self@),
                0 <= row < GRID_HEIGHT,
                start == row * GRID_WIDTH,
                0 <= c <= GRID_WIDTH,
                forall|j: int|
                    0 <= j < c ==> match #[trigger] self@.cells[row * (GRID_WIDTH as int) + j] {
                        Some(b) => match b.timer {
                            Some(t) => timer_state(t) is Done,
                            None => true,
                        },
                        None => true,
                    },
            decreases GRID_WIDTH as usize - c,
        {
            proof {
                assert(cell_ok(self@.cells[row * (GRID_WIDTH as int) + c as int], row * (
                GRID_WIDTH as int) + c as int));
            }
            if let Some(block) = &self.data[start + c] {
                if let Some(ft) = &block.frame_timer {
                    match ft.get_state() {
                        FrameState::Done => {},
                        _ => {
                            return false;
                        },
                    }
                }
            }
            c = c + 1;
        }
        true
    }

    /// Starts the clear animation of a row: every occupied cell lacking a
    /// timer takes the wave color of its ordinal and a fresh clear timer,
    /// and the row joins the FIFO of rows mid-clear.
    pub fn start_clear(&mut self, row: i16)
        requires
            board_wf(old(self)@),
            0 <= row < GRID_HEIGHT,
        ensures
            final(self)@.cells == start_row_s(old(self)@.cells, row as int, 0, 0),
            final(self)@.queue == old(self)@.queue.push(row as int),
            board_wf(final(self)@),
    {
        let start = (row * GRID_WIDTH) as usize;
        let mut c: usize = 0;
        let mut k: usize = 0;
        while c < GRID_WIDTH as usize
            invariant
                board_wf(self@),
                0 <= row < GRID_HEIGHT,
                start == row * GRID_WIDTH,
                0 <= c <= GRID_WIDTH,
                0 <= k <= c,
                self@.queue == old(self)@.queue,
                start_row_s(self@.cells, row as int, c as int, k as int) == start_row_s(
                    old(self)@.cells,
                    row as int,
                    0,
                    0,
                ),
            decreases GRID_WIDTH as usize - c,
        {
            let ghost pre = self@.cells;
            let ghost ii = row * (GRID_WIDTH as int) + c as int;
            proof {
                assert(cell_ok(pre[ii], ii));
            }
            let idx = start + c;
            let needs_timer = match &self.data[idx] {
                Some(block) => block.frame_timer.is_none(),
                None => false,
            };
            if needs_timer {
                let old_block = match &self.data[idx] {
                    Some(block) => block.clone(),
                    None => Block::from(Bone::default()),
                };
                let frame_duration: u64 = CLEAR_FRAME_MILLIS;
                let n_frames: u64 = CLEAR_ANIM_MILLIS / frame_duration;
                let timer = FrameTimer::equal_sized(n_frames as usize, frame_duration, 0);
                let new_block = Block {
                    bone: Bone::new(Color::get_color(k), old_block.bone.coord),
                    frame_timer: Some(timer),
                };
                self.data.set(idx, Some(new_block));
                k = k + 1;
                proof {
                    let bv = pre[ii]->Some_0;
                    assert(self@.cells =~= pre.update(
                        ii,
                        Some(
                            BlockV {
                                bone: BoneV {
                                    color: wave_color(k as int - 1),
                                    x: bv.bone.x,
                                    y: bv.bone.y,
                                },
                                timer: Some(clear_timer_v()),
                            },
                        ),
                    ));
                    assert(cell_ok(self@.cells[ii], ii));
                    assert(start_row_s(pre, row as int, c as int, k as int - 1) == start_row_s(
                        self@.cells,
                        row as int,
                        c as int + 1,
                        k as int,
                    ));
                }
            } else {
                proof {
                    assert(start_row_s(pre, row as int, c as int, k as int) == start_row_s(
                        pre,
                        row as int,
                        c as int + 1,
                        k as int,
                    ));
                }
            }
            c = c + 1;
        }
        self.add_row_to_clear(row);
    }

    /// Drops the given row one slot down: every occupied cell of the row
    /// moves into the row below (its coordinate following it), the row is
    /// left empty, queued row indices at or above the dropped row move down
    /// with it, and the count of cells moved comes back (zero signals the
    /// row was empty).
    #[verifier::rlimit(100)]
    #[verifier::spinoff_prover]
    pub fn drop_row_down(&mut self, row: i16) -> (count: i16)
        requires
            board_wf(old(self)@),
            0 <= row < GRID_HEIGHT - 1,
        ensures
            final(self)@ == drop_row_v(old(self)@, row as int),
            board_wf(final(self)@),
            count == row_occ(old(self)@.cells, row as int, GRID_WIDTH as int),
    {
        let ghost w = GRID_WIDTH as int;
        let start = (row * GRID_WIDTH) as usize;
        let mut count: i16 = 0;
        let mut c: usize = 0;
        while c < GRID_WIDTH as usize
            invariant
                board_wf(old(self)@),
                0 <= row < GRID_HEIGHT - 1,
                w == GRID_WIDTH as int,
                start == row * GRID_WIDTH,
                0 <= c <= GRID_WIDTH,
                self@.queue == old(self)@.queue,
                self@.cells.len() == GRID_SIZE,
                0 <= count <= c,
                count == row_occ(old(self)@.cells, row as int, c as int),
                forall|j: int| 0 <= j < c ==> #[trigger] self@.cells[row * w + j] is None,
                forall|j: int|
                    0 <= j < c ==> #[trigger] self@.cells[(row + 1) * w + j] == (match old(
                        self,
                    )@.cells[row * w + j] {
                        Some(b) => Some(block_bumped(b)),
                        None => old(self)@.cells[(row + 1) * w + j],
                    }),
                forall|i: int|
                    0 <= i < GRID_SIZE && !(row * w <= i < row * w + c) && !((row + 1) * w <= i < (
                    row + 1) * w + c) ==> #[trigger] self@.cells[i] == old(self)@.cells[i],
                forall|i: int| 0 <= i < GRID_SIZE ==> cell_ok(#[trigger] self@.cells[i], i),
            decreases GRID_WIDTH as usize - c,
        {
            let ghost pre = self@.cells;
            let ghost ii = row * w + c as int;
            proof {
                assert(pre[ii] == old(self)@.cells[ii]);
                assert(cell_ok(pre[ii], ii));
                assert(row_occ(old(self)@.cells, row as int, c as int + 1) == row_occ(
                    old(self)@.cells,
                    row as int,
                    c as int,
                ) + if old(self)@.cells[ii] is Some {
                    1int
                } else {
                    0int
                });
            }
            let idx = start + c;
            let moved: Option<Block> = match &self.data[idx] {
                Some(b) => Some(b.clone()),
                None => None,
            };
            if let Some(b) = moved {
                proof {
                    assert(cell_view(Some(b)) == pre[ii]);
                    assert(b.bone.coord.y == row);
                }
                let nb = Block {
                    bone: Bone {
                        color: b.bone.color,
                        coord: Coord { x: b.bone.coord.x, y: b.bone.coord.y + 1 },
                    },
                    frame_timer: b.frame_timer,
                };
                proof {
                    assert(nb@ == block_bumped(pre[ii]->Some_0));
                }
                self.data.set(idx, None);
                let ghost mid = self@.cells;
                self.data.set(idx + GRID_WIDTH as usize, Some(nb));
                proof {
                    assert(mid =~= pre.update(ii, None));
                    assert(self@.cells =~= mid.update(
                        (row + 1) * w + c as int,
                        Some(block_bumped(pre[ii]->Some_0)),
                    ));
                    assert(cell_ok(self@.cells[(row + 1) * w + c as int], (row + 1) * w + c as int));
                }
                count = count + 1;
            }
            c = c + 1;
        }
        let ghost cells1 = self@.cells;
        let mut k: usize = 0;
        while k < self.rows_full.len()
            invariant
                0 <= row < GRID_HEIGHT - 1,
                0 <= k <= self.rows_full@.len(),
                self@.cells == cells1,
                self.rows_full@.len() == old(self).rows_full@.len(),
                forall|j: int|
                    0 <= j < k ==> #[trigger] self@.queue[j] == (if old(self)@.queue[j] <= row {
                        old(self)@.queue[j] + 1
                    } else {
                        old(self)@.queue[j]
                    }),
                forall|j: int|
                    k <= j < self@.queue.len() ==> #[trigger] self@.queue[j] == old(self)@.queue[j],
                forall|j: int|
                    0 <= j < self@.queue.len() ==> 0 <= #[trigger] old(self)@.queue[j]
                        < GRID_HEIGHT,
            decreases self.rows_full@.len() - k,
        {
            let ghost preq = self@.queue;
            let q = self.rows_full[k];
            proof {
                assert(preq[k as int] == q as int);
                assert(old(self)@.queue[k as int] == q as int);
            }
            if row >= q {
                self.rows_full.set(k, q + 1);
                proof {
                    assert(self@.queue =~= preq.update(k as int, q as int + 1));
                    assert(self@.queue[k as int] == q as int + 1);
                    assert forall|j: int| 0 <= j < k + 1 implies #[trigger] self@.queue[j] == (
                    if old(self)@.queue[j] <= row {
                        old(self)@.queue[j] + 1
                    } else {
                        old(self)@.queue[j]
                    }) by {
                        if j < k {
                            assert(self@.queue[j] == preq[j]);
                        }
                    }
                }
            } else {
                proof {
                    assert(self@.queue[k as int] == q as int);
                }
            }
            k = k + 1;
        }
        proof {
            let w = GRID_WIDTH as int;
            assert forall|i: int| 0 <= i < self@.cells.len() implies self@.cells[i]
                == dropped_cells_s(old(self)@.cells, row as int)[i] by {
                if row * w <= i < row * w + w {
                    assert(self@.cells[row * w + (i - row * w)] is None);
                } else if (row + 1) * w <= i < (row + 1) * w + w {
                    assert(self@.cells[(row + 1) * w + (i - (row + 1) * w)] == (match old(
                        self,
                    )@.cells[row * w + (i - (row + 1) * w)] {
                        Some(b) => Some(block_bumped(b)),
                        None => old(self)@.cells[(row + 1) * w + (i - (row + 1) * w)],
                    }));
                }
            }
            assert(self@.cells =~= dropped_cells_s(old(self)@.cells, row as int));
            assert(self@.queue =~= queue_bumped(old(self)@.queue, row as int));
            assert(self@ =~= drop_row_v(old(self)@, row as int));
            assert forall|q: int| 0 <= q < self@.queue.len() implies 0 <= #[trigger] self@.queue[q]
                < GRID_HEIGHT by {}
        }
        count
    }

    /// The distinct rows the piece's cells inhabit, in ascending order.
    pub fn get_piece_rows(&self, piece: &Tetrinome) -> (r: Vec<i16>)
        ensures
            forall|a: int, b: int| 0 <= a < b < r@.len() ==> #[trigger] r@[a] < #[trigger] r@[b],
            forall|j: int|
                0 <= j < piece.bones@.len() ==> r@.contains(#[trigger] piece.bones@[j].coord.y),
            forall|k: int| 0 <= k < r@.len() ==> has_row(piece.bones@, #[trigger] r@[k]),
    {
        let mut rows: Vec<i16> = Vec::new();
        let mut i: usize = 0;
        while i < piece.bones.len()
            invariant
                0 <= i <= piece.bones@.len(),
                forall|a: int, b: int|
                    0 <= a < b < rows@.len() ==> #[trigger] rows@[a] < #[trigger] rows@[b],
                forall|j: int|
                    0 <= j < i ==> rows@.contains(#[trigger] piece.bones@[j].coord.y),
                forall|k: int| 0 <= k < rows@.len() ==> has_row(piece.bones@, #[trigger] rows@[k]),
            decreases piece.bones@.len() - i,
        {
            let y = piece.bones[i].coord.y;
            let mut k: usize = 0;
            while k < rows.len() && rows[k] < y
                invariant
                    0 <= k <= rows@.len(),
                    forall|j: int| 0 <= j < k ==> #[trigger] rows@[j] < y,
                decreases rows@.len() - k,
            {
                k = k + 1;
            }
            let ghost pre = rows@;
            if k == rows.len() {
                rows.push(y);
                proof {
                    assert(rows@ =~= pre.push(y));
                    assert(rows@[pre.len() as int] == y);
                    assert forall|a: int, b: int| 0 <= a < b < rows@.len() implies
                        #[trigger] rows@[a] < #[trigger] rows@[b] by {
                        if b == pre.len() {
                            assert(pre[a] < y);
                        }
                    }
                    assert forall|j: int| 0 <= j <= i implies rows@.contains(
                        #[trigger] piece.bones@[j].coord.y,
                    ) by {
                        if j < i {
                            let kk = choose|kk: int|
                                0 <= kk < pre.len() && pre[kk] == piece.bones@[j].coord.y;
                            assert(rows@[kk] == piece.bones@[j].coord.y);
                        } else {
                            assert(rows@[pre.len() as int] == piece.bones@[j].coord.y);
                        }
                    }
                    assert forall|kk: int| 0 <= kk < rows@.len() implies has_row(
                        piece.bones@,
                        #[trigger] rows@[kk],
                    ) by {
                        if kk < pre.len() {
                            assert(has_row(piece.bones@, pre[kk]));
                            assert(pre[kk] == rows@[kk]);
                        } else {
                            assert(piece.bones@[i as int].coord.y == rows@[kk]);
                        }
                    }
                }
            } else if rows[k] > y {
                rows.insert(k, y);
                proof {
                    assert(rows@ =~= pre.insert(k as int, y));
                    assert(rows@[k as int] == y);
                    assert forall|a: int, b: int| 0 <= a < b < rows@.len() implies
                        #[trigger] rows@[a] < #[trigger] rows@[b] by {
                        if b < k {
                        } else if a < k && b == k {
                        } else if a < k && b > k {
                            assert(rows@[b] == pre[b - 1]);
                        } else if a == k {
                            assert(rows@[b] == pre[b - 1]);
                            assert(pre[k as int] <= pre[b - 1]);
                        } else {
                            assert(rows@[a] == pre[a - 1]);
                            assert(rows@[b] == pre[b - 1]);
                        }
                    }
                    assert forall|j: int| 0 <= j <= i implies rows@.contains(
                        #[trigger] piece.bones@[j].coord.y,
                    ) by {
                        if j < i {
                            let kk = choose|kk: int|
                                0 <= kk < pre.len() && pre[kk] == piece.bones@[j].coord.y;
                            if kk < k {
                                assert(rows@[kk] == piece.bones@[j].coord.y);
                            } else {
                                assert(rows@[kk + 1] == piece.bones@[j].coord.y);
                            }
                        } else {
                            assert(rows@[k as int] == piece.bones@[j].coord.y);
                        }
                    }
                    assert forall|kk: int| 0 <= kk < rows@.len() implies has_row(
                        piece.bones@,
                        #[trigger] rows@[kk],
                    ) by {
                        if kk < k {
                            assert(has_row(piece.bones@, pre[kk]));
                            assert(pre[kk] == rows@[kk]);
                        } else if kk == k as int {
                            assert(piece.bones@[i as int].coord.y == rows@[kk]);
                        } else {
                            assert(has_row(piece.bones@, pre[kk - 1]));
                            assert(pre[kk - 1] == rows@[kk]);
                        }
                    }
                }
            } else {
                proof {
                    assert(rows@[k as int] == y);
                    assert(rows@.contains(piece.bones@[i as int].coord.y));
                }
            }
            i = i + 1;
        }
        rows
    }

    /// The first conflict of a candidate pose, scanning its cells in bone
    /// order: past the left wall, the right wall, or the floor first per
    /// cell, then occupancy classified by the attempted movement; clear if
    /// no cell conflicts.
    pub fn check_collision(&self, piece: &Tetrinome, dir: &Direction, rot: &Rotation) -> (r:
        Collision)
        requires
            self@.cells.len() == GRID_SIZE,
        ensures
            r == check_collision_s(self@.cells, piece@, *dir, *rot),
    {
        let ghost bones = piece@.bones;
        let coords = piece.get_coords();
        let mut i: usize = 0;
        while i < coords.len()
            invariant
                self@.cells.len() == GRID_SIZE,
                coords@.len() == bones.len(),
                bones == piece@.bones,
                forall|j: int|
                    0 <= j < coords@.len() ==> #[trigger] coords@[j].x == bones[j].x && coords@[j].y
                        == bones[j].y,
                0 <= i <= bones.len(),
                check_from(self@.cells, bones, i as int, *dir, *rot) == check_from(
                    self@.cells,
                    bones,
                    0,
                    *dir,
                    *rot,
                ),
            decreases bones.len() - i,
        {
            let coord = coords[i];
            if coord.x < 0 {
                proof {
                    assert(cell_conflict(self@.cells, bones[i as int], *dir, *rot) == Some(
                        Collision::Left,
                    ));
                }
                return Collision::Left;
            } else if coord.x >= GRID_WIDTH {
                proof {
                    assert(cell_conflict(self@.cells, bones[i as int], *dir, *rot) == Some(
                        Collision::Right,
                    ));
                }
                return Collision::Right;
            }
            if coord.y >= GRID_HEIGHT {
                proof {
                    assert(cell_conflict(self@.cells, bones[i as int], *dir, *rot) == Some(
                        Collision::Under,
                    ));
                }
                return Collision::Under;
            }
            let pos32: i32 = coord.x as i32 + coord.y as i32 * GRID_WIDTH as i32;
            let occupied = if pos32 >= 0 {
                proof {
                    assert(0 <= pos32 < GRID_SIZE);
                }
                self.data[pos32 as usize].is_some()
            } else {
                false
            };
            if occupied {
                proof {
                    assert(self@.cells[bones[i as int].x + bones[i as int].y * (GRID_WIDTH as int)]
                        is Some);
                    assert(cell_conflict(self@.cells, bones[i as int], *dir, *rot) == Some(
                        occupied_class(*dir, *rot),
                    ));
                }
                return match dir {
                    Direction::Down => Collision::Under,
                    Direction::Left => Collision::Left,
                    Direction::Right => Collision::Right,
                    Direction::Still => match rot.to_dir() {
                        Direction::Left => Collision::Left,
                        Direction::Right => Collision::Right,
                        _ => Collision::Clear,
                    },
                };
            }
            proof {
                assert(cell_conflict(self@.cells, bones[i as int], *dir, *rot) is None);
            }
            i = i + 1;
        }
        Collision::Clear
    }

    /// Finishes the clears that are due: every queued row whose cells all
    /// report the animation done (peeking, consuming no frame) is blanked
    /// and leaves the queue, and for each, in queue order, the rows above it
    /// drop down by one, stopping at the first empty row.
    pub fn finish_clear(&mut self)
        requires
            board_wf(old(self)@),
        ensures
            final(self)@ == finish_clear_v(old(self)@),
            board_wf(final(self)@),
    {
        let ghost m0 = old(self)@;
        let ghost readys = ready_rows(m0.cells, m0.queue);
        let ghost rests = unready_rows(m0.cells, m0.queue);

        let mut ready: Vec<i16> = Vec::new();
        let mut rest: Vec<i16> = Vec::new();
        let mut k: usize = 0;
        while k < self.rows_full.len()
            invariant
                board_wf(self@),
                self@ == m0,
                0 <= k <= self.rows_full@.len(),
                ready@.map_values(|r: i16| r as int) == ready_rows(
                    m0.cells,
                    m0.queue.take(k as int),
                ),
                rest@.map_values(|r: i16| r as int) == unready_rows(
                    m0.cells,
                    m0.queue.take(k as int),
                ),
                forall|j: int| 0 <= j < ready@.len() ==> 0 <= #[trigger] ready@[j] < GRID_HEIGHT,
                forall|j: int| 0 <= j < rest@.len() ==> 0 <= #[trigger] rest@[j] < GRID_HEIGHT,
            decreases self.rows_full@.len() - k,
        {
            let ghost pre_ready = ready@.map_values(|r: i16| r as int);
            let ghost pre_rest = rest@.map_values(|r: i16| r as int);
            let q = self.rows_full[k];
            proof {
                assert(m0.queue[k as int] == q as int);
                let t1 = m0.queue.take(k as int + 1);
                assert(t1.len() == k + 1);
                assert(t1.drop_last() =~= m0.queue.take(k as int));
                assert(t1.last() == m0.queue[k as int]);
                assert(ready_rows(m0.cells, t1) == (if row_ready_s(m0.cells, q as int) {
                    ready_rows(m0.cells, m0.queue.take(k as int)).push(q as int)
                } else {
                    ready_rows(m0.cells, m0.queue.take(k as int))
                }));
                assert(unready_rows(m0.cells, t1) == (if !row_ready_s(m0.cells, q as int) {
                    unready_rows(m0.cells, m0.queue.take(k as int)).push(q as int)
                } else {
                    unready_rows(m0.cells, m0.queue.take(k as int))
                }));
            }
            if self.row_ready(q) {
                ready.push(q);
                proof {
                    assert(ready@.map_values(|r: i16| r as int) =~= pre_ready.push(q as int));
                }
            } else {
                rest.push(q);
                proof {
                    assert(rest@.map_values(|r: i16| r as int) =~= pre_rest.push(q as int));
                }
            }
            k = k + 1;
        }
        proof {
            assert(m0.queue.take(m0.queue.len() as int) =~= m0.queue);
            assert(ready@.map_values(|r: i16| r as int) == readys);
            assert(rest@.map_values(|r: i16| r as int) == rests);
        }
        self.rows_full = rest;
        let ghost readyv = readys;
        let ghost m1 = BoardV { cells: clear_rows_s(m0.cells, readyv, 0), queue: rests };
        proof {
            assert(self@.queue == rests);
            assert(self@.cells == m0.cells);
        }

        let mut idx: usize = 0;
        while idx < ready.len()
            invariant
                0 <= idx <= ready@.len(),
                ready@.map_values(|r: i16| r as int) == readyv,
                forall|j: int| 0 <= j < ready@.len() ==> 0 <= #[trigger] ready@[j] < GRID_HEIGHT,
                self@.queue == rests,
                self@.cells.len() == GRID_SIZE,
                forall|i: int| 0 <= i < self@.cells.len() ==> cell_ok(#[trigger] self@.cells[i], i),
                clear_rows_s(self@.cells, readyv, idx as int) == clear_rows_s(m0.cells, readyv, 0),
            decreases ready@.len() - idx,
        {
            let r = ready[idx];
            let ghost pre = self@.cells;
            proof {
                assert(readyv[idx as int] == r as int);
            }
            self.clear_row(r);
            proof {
                assert(clear_rows_s(pre, readyv, idx as int) == clear_rows_s(
                    row_blanked(pre, r as int),
                    readyv,
                    idx as int + 1,
                ));
                assert forall|i: int| 0 <= i < self@.cells.len() implies cell_ok(
                    #[trigger] self@.cells[i],
                    i,
                ) by {
                    assert(self@.cells[i] == row_blanked(pre, r as int)[i]);
                    if !(r * (GRID_WIDTH as int) <= i < r * (GRID_WIDTH as int) + GRID_WIDTH) {
                        assert(self@.cells[i] == pre[i]);
                    }
                }
            }
            idx = idx + 1;
        }
        proof {
            assert(self@.cells == clear_rows_s(m0.cells, readyv, 0));
            assert(self@ =~= m1);
            assert(board_wf(self@));
        }

        let mut idx2: usize = 0;
        while idx2 < ready.len()
            invariant
                0 <= idx2 <= ready@.len(),
                ready@.map_values(|r: i16| r as int) == readyv,
                forall|j: int| 0 <= j < ready@.len() ==> 0 <= #[trigger] ready@[j] < GRID_HEIGHT,
                board_wf(self@),
                compact_all(self@, readyv, idx2 as int) == compact_all(m1, readyv, 0),
            decreases ready@.len() - idx2,
        {
            let r = ready[idx2];
            let ghost enter = self@;
            proof {
                assert(readyv[idx2 as int] == r as int);
            }
            let mut rowi: i16 = r;
            while rowi > 0
                invariant_except_break
                    0 <= rowi <= r,
                    r < GRID_HEIGHT,
                    board_wf(self@),
                    compact_from(self@, rowi as int - 1) == compact_from(enter, r as int - 1),
                ensures
                    board_wf(self@),
                    self@ == compact_from(enter, r as int - 1),
                decreases rowi,
            {
                rowi = rowi - 1;
                let ghost pre = self@;
                let moved = self.drop_row_down(rowi);
                proof {
                    assert(self@ == drop_row_v(pre, rowi as int));
                    if moved == 0 {
                        assert(compact_from(pre, rowi as int) == self@);
                    } else {
                        assert(compact_from(pre, rowi as int) == compact_from(
                            self@,
                            rowi as int - 1,
                        ));
                    }
                }
                if moved == 0 {
                    break;
                }
            }
            proof {
                assert(compact_all(enter, readyv, idx2 as int) == compact_all(
                    compact_from(enter, readyv[idx2 as int] - 1),
                    readyv,
                    idx2 as int + 1,
                ));
            }
            idx2 = idx2 + 1;
        }
        proof {
            assert(compact_all(self@, readyv, readyv.len() as int) == self@);
            assert(self@ == compact_all(m1, readyv, 0));
            assert(self@ == finish_clear_v(m0));
        }
    }
}

} // verus!
