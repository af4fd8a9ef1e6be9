//! The grid: owns the board and the current falling piece and ties them
//! together — committing a landed piece, scanning for full rows, dispatching
//! moves and rotations through collision checking with the single wall-kick
//! retry, the hard drop, and the drop ghost animation.

use vstd::prelude::*;

use crate::animation::{timer_advance, timer_advance_state, timer_wf, FrameState, FrameTimer};
use crate::board::{
    board_wf, cell_ok, check_collision_s, row_full_s, start_row_s, Block, BlockV, Blocks, BoardV,
    GRID_HEIGHT, GRID_SIZE, GRID_WIDTH,
};
use crate::piece::{
    anchor_ix, lemma_max_y, lemma_rotated_compact, lemma_translate_compose, lemma_translate_zero,
    lemma_translated_compact, max_y, piece_compact, piece_rotated, piece_translated, piece_wf,
    piece_width, Bone, BoneV, TetV, Tetrinome,
};
use crate::primitives::{Collision, Direction, Rotation};
use vstd::arithmetic::div_mod::lemma_fundamental_div_mod_converse;

verus! {

/// A piece the grid may hold: well formed, compact, every cell inside the
/// walls and above the floor, and its anchor bone no higher than one row
/// above the board.
pub open spec fn piece_ok(t: TetV) -> bool {
    &&& piece_wf(t)
    &&& piece_compact(t)
    &&& forall|j: int|
        0 <= j < t.bones.len() ==> 0 <= #[trigger] t.bones[j].x < GRID_WIDTH && t.bones[j].y
            < GRID_HEIGHT
    &&& t.bones[anchor_ix(t)].y >= -1
}

/// One cell of a landing piece written into the cells, at the slot its
/// coordinate names; a cell above the top (negative position) writes
/// nothing.
pub open spec fn set_cell(cells: Seq<Option<BlockV>>, b: BoneV) -> Seq<Option<BlockV>> {
    let pos = b.x + b.y * (GRID_WIDTH as int);
    if 0 <= pos < cells.len() {
        cells.update(pos, Some(BlockV { bone: b, timer: None }))
    } else {
        cells
    }
}

/// A landing piece's cells written into the board, in bone order, from
/// entry `i` on.
pub open spec fn commit_cells_s(
    cells: Seq<Option<BlockV>>,
    bones: Seq<BoneV>,
    i: int,
) -> Seq<Option<BlockV>>
    decreases bones.len() - i,
    when 0 <= i <= bones.len()
{
    if i >= bones.len() {
        cells
    } else {
        commit_cells_s(set_cell(cells, bones[i]), bones, i + 1)
    }
}

/// The full-row scan after a commit: rows 0 through `maxr` in order, each
/// full row starting its clear animation and joining the queue. Scanning
/// from row 0 rather than only the piece's own rows is load-bearing:
/// compaction from an earlier clear can have filled rows above the piece's
/// footprint.
pub open spec fn clear_scan_s(m: BoardV, row: int, maxr: int) -> BoardV
    decreases maxr + 1 - row,
    when maxr + 1 - row >= 0
{
    if row > maxr {
        m
    } else {
        let m2 = if row_full_s(m.cells, row) {
            BoardV { cells: start_row_s(m.cells, row, 0, 0), queue: m.queue.push(row) }
        } else {
            m
        };
        clear_scan_s(m2, row + 1, maxr)
    }
}

/// What a fresh spawn promises whatever the random draws: a well-formed,
/// compact piece fully inside the board's columns, between two rows above
/// the board and row 2, its anchor at most one row above the board.
pub open spec fn spawned_piece(t: TetV) -> bool {
    &&& piece_wf(t)
    &&& piece_compact(t)
    &&& forall|j: int|
        0 <= j < t.bones.len() ==> 0 <= #[trigger] t.bones[j].x < GRID_WIDTH && -2 <= t.bones[j].y
            <= 2
    &&& -1 <= t.bones[anchor_ix(t)].y <= 0
}

/// The candidate pose of a move: the current piece translated one step in
/// the direction, then rotated.
pub open spec fn candidate_of(t: TetV, dir: Direction, rot: Rotation) -> TetV {
    piece_rotated(piece_translated(t, dir.delta().0, dir.delta().1), rot)
}

/// The horizontal wall-kick offset of a candidate: half its width, away
/// from the wall it collided with.
pub open spec fn kick_delta(cand: TetV, col: Collision) -> int {
    let sh = piece_width(cand) / 2;
    match col {
        Collision::Left => sh,
        Collision::Right => -sh,
        _ => 0,
    }
}

/// The kicked candidate pose.
pub open spec fn kicked_of(cand: TetV, col: Collision) -> TetV {
    piece_translated(cand, kick_delta(cand, col), 0)
}

/// What one `move_if` dispatch does to the board and the current piece:
/// - a collision underneath commits the old piece, scans rows 0 through the
///   piece's lowest row for full rows to start clearing, and reports a
///   commit (the new current piece is a fresh spawn, stated separately);
/// - a side collision met by a rotation retries once at the kicked pose and
///   keeps the kick exactly when the re-check with the kick's direction and
///   no rotation comes back clear, else leaves the piece unchanged;
/// - a side collision met by pure translation leaves everything unchanged;
/// - a clear check accepts the candidate.
/// Nothing but an underneath collision touches the board, and only an
/// underneath collision reports a commit.
pub open spec fn move_step(
    pre_b: BoardV,
    pre_p: TetV,
    post_b: BoardV,
    post_p: TetV,
    dir: Direction,
    rot: Rotation,
    committed: bool,
) -> bool {
    let cand = candidate_of(pre_p, dir, rot);
    let col = check_collision_s(pre_b.cells, cand, dir, rot);
    match col {
        Collision::Under => {
            &&& committed
            &&& post_b == clear_scan_s(
                BoardV { cells: commit_cells_s(pre_b.cells, pre_p.bones, 0), queue: pre_b.queue },
                0,
                max_y(pre_p.bones),
            )
        },
        Collision::Left | Collision::Right => {
            &&& !committed
            &&& post_b == pre_b
            &&& if rot is CW || rot is CCW {
                let kicked = kicked_of(cand, col);
                let col2 = check_collision_s(
                    pre_b.cells,
                    kicked,
                    col.to_dir_spec().opposite_spec(),
                    Rotation::Still,
                );
                if col2 is Clear {
                    post_p == kicked
                } else {
                    post_p == pre_p
                }
            } else {
                post_p == pre_p
            }
        },
        Collision::Clear => {
            &&& !committed
            &&& post_b == pre_b
            &&& post_p == cand
        },
    }
}


/// Whether the piece translated down by `k` rows collides underneath.
pub open spec fn under_at(cells: Seq<Option<BlockV>>, t: TetV, k: int) -> bool {
    check_collision_s(cells, piece_translated(t, 0, k), Direction::Down, Rotation::Still)
        is Under
}

/// `d` is the piece's drop distance: zero where the current pose or its
/// first downward step already collides underneath, else the number of
/// conflict-free downward steps before the first collision underneath.
pub open spec fn is_shadow_distance(cells: Seq<Option<BlockV>>, t: TetV, d: int) -> bool {
    &&& d >= 0
    &&& (d == 0 ==> under_at(cells, t, 0) || under_at(cells, t, 1))
    &&& (d > 0 ==> !under_at(cells, t, 0) && under_at(cells, t, d + 1))
    &&& forall|k: int| 1 <= k <= d ==> !under_at(cells, t, k)
}

/// One cell after one animation tick of `e` milliseconds: a cell with an
/// attached timer advances it, its bone taking the next wave color exactly
/// when the timer reports a frame boundary; other cells are untouched.
pub open spec fn animate_cell_s(c: Option<BlockV>, e: int) -> Option<BlockV> {
    match c {
        Some(b) => match b.timer {
            Some(t) => Some(
                BlockV {
                    bone: if timer_advance_state(t, e) is Ready {
                        BoneV { color: b.bone.color.next_spec(), x: b.bone.x, y: b.bone.y }
                    } else {
                        b.bone
                    },
                    timer: Some(timer_advance(t, e)),
                },
            ),
            None => c,
        },
        None => c,
    }
}

/// The bones of the occupied cells from slot `i` on, in slot order, each as
/// one animation tick of `e` milliseconds leaves it.
pub open spec fn visible_anim(cells: Seq<Option<BlockV>>, i: int, e: int) -> Seq<BoneV>
    decreases cells.len() - i,
    when 0 <= i <= cells.len()
{
    if i >= cells.len() {
        Seq::empty()
    } else {
        match animate_cell_s(cells[i], e) {
            Some(b) => seq![b.bone] + visible_anim(cells, i + 1, e),
            None => visible_anim(cells, i + 1, e),
        }
    }
}


/// What a hard drop does: for the piece's actual drop distance `d` (each
/// intermediate pose conflict-free, the next one colliding underneath), the
/// piece commits translated `d` rows down, and the full-row scan runs over
/// the committed board; a fresh piece is spawned.
pub open spec fn hard_drop_step(pre_b: BoardV, pre_p: TetV, post_b: BoardV, post_p: TetV) -> bool {
    exists|d: int|
        {
            &&& 0 <= d
            &&& (forall|k: int| 1 <= k <= d ==> !under_at(pre_b.cells, pre_p, k))
            &&& #[trigger] under_at(pre_b.cells, pre_p, d + 1)
            &&& post_b == clear_scan_s(
                BoardV {
                    cells: commit_cells_s(
                        pre_b.cells,
                        piece_translated(pre_p, 0, d).bones,
                        0,
                    ),
                    queue: pre_b.queue,
                },
                0,
                max_y(piece_translated(pre_p, 0, d).bones),
            )
            &&& spawned_piece(post_p)
        }
}

/// The ghost animation of a hard drop: the dropped piece as it stood, and a
/// timer pacing its fall, one frame per row plus one.
#[derive(Debug)]
pub struct InstantDrop {
    pub piece: Tetrinome,
    pub frame_timer: FrameTimer,
}

/// The drop animation stays sane: a well-formed compact piece inside the
/// board's columns that has fallen one row per consumed frame, under a
/// well-formed timer of at most 24 frames.
pub open spec fn drop_ok(d: InstantDrop) -> bool {
    &&& piece_wf(d.piece@)
    &&& piece_compact(d.piece@)
    &&& forall|j: int|
        0 <= j < d.piece@.bones.len() ==> 0 <= #[trigger] d.piece@.bones[j].x < GRID_WIDTH && -3
            <= d.piece@.bones[j].y <= 19 + d.frame_timer@.next
    &&& timer_wf(d.frame_timer@)
    &&& d.frame_timer@.frames.len() <= 24
}

/// One board plus the current falling piece. The piece is never part of the
/// board's storage until it commits; collision checks evaluate the piece's
/// cells against the board without mutating it.
#[derive(Debug)]
pub struct Grid {
    pub blocks: Blocks,
    pub curr_piece: Tetrinome,
    pub instant_drop: Option<InstantDrop>,
}

impl Grid {
    /// Grid well-formedness: a well-formed board, a piece the grid may
    /// hold, and a sane drop animation if one is in flight.
    pub open spec fn wf(&self) -> bool {
        &&& board_wf(self.blocks@)
        &&& piece_ok(self.curr_piece@)
        &&& match self.instant_drop {
            Some(d) => drop_ok(d),
            None => true,
        }
    }

    /// An empty board with a freshly spawned current piece.
    pub fn new() -> (r: Self)
        ensures
            r.wf(),
            r.blocks@.cells =~= Seq::new(GRID_SIZE as nat, |i: int| None::<BlockV>),
            r.blocks@.queue =~= Seq::<int>::empty(),
            r.instant_drop is None,
            spawned_piece(r.curr_piece@),
    {
        let blocks = Blocks::new((GRID_WIDTH as usize) * (GRID_HEIGHT as usize));
        let curr_piece = Tetrinome::new(&GRID_WIDTH);
        Grid { blocks, curr_piece, instant_drop: None }
    }

    /// Writes each cell of the current piece into the board at the slot its
    /// coordinate names, unconditionally overwriting; cells above the top
    /// vanish. Callers commit only after a validated collision underneath.
    pub fn commit_piece(&mut self)
        requires
            old(self).wf(),
        ensures
            final(self).blocks@.cells == commit_cells_s(
                old(self).blocks@.cells,
                old(self).curr_piece@.bones,
                0,
            ),
            final(self).blocks@.queue == old(self).blocks@.queue,
            final(self).curr_piece == old(self).curr_piece,
            final(self).instant_drop == old(self).instant_drop,
            final(self).wf(),
    {
        let ghost m0 = self.blocks@.cells;
        let ghost bones = self.curr_piece@.bones;
        let mut i: usize = 0;
        while i < self.curr_piece.bones.len()
            invariant
                piece_ok(self.curr_piece@),
                self.curr_piece == old(self).curr_piece,
                self.instant_drop == old(self).instant_drop,
                bones == self.curr_piece@.bones,
                bones.len() == self.curr_piece.bones@.len(),
                0 <= i <= bones.len(),
                self.blocks@.queue == old(self).blocks@.queue,
                self.blocks@.cells.len() == GRID_SIZE,
                forall|q: int|
                    0 <= q < self.blocks@.queue.len() ==> 0 <= #[trigger] self.blocks@.queue[q]
                        < GRID_HEIGHT,
                forall|ci: int|
                    0 <= ci < self.blocks@.cells.len() ==> cell_ok(
                        #[trigger] self.blocks@.cells[ci],
                        ci,
                    ),
                commit_cells_s(self.blocks@.cells, bones, i as int) == commit_cells_s(
                    m0,
                    bones,
                    0,
                ),
            decreases bones.len() - i,
        {
            let ghost pre = self.blocks@.cells;
            let bone = self.curr_piece.bones[i];
            proof {
                assert(bone@ == bones[i as int]);
                let a = self.curr_piece@.bones[anchor_ix(self.curr_piece@)];
                assert(-2 <= bones[i as int].y - a.y <= 2);
                assert(-3 <= bones[i as int].y < GRID_HEIGHT);
                assert(0 <= bones[i as int].x < GRID_WIDTH);
            }
            let pos = bone.coord.coord_to_pos(GRID_WIDTH);
            proof {
                if pos.0 >= 0 {
                    assert(bone.coord.y >= 0) by {
                        if bone.coord.y < 0 {
                            assert(bone.coord.x + bone.coord.y * 10 < 0);
                        }
                    }
                    lemma_fundamental_div_mod_converse(
                        pos.0 as int,
                        GRID_WIDTH as int,
                        bone.coord.y as int,
                        bone.coord.x as int,
                    );
                }
                assert(pos.0 < GRID_SIZE);
            }
            self.blocks.set_block(pos, bone);
            proof {
                assert(self.blocks@.cells == set_cell(pre, bones[i as int]));
                assert(commit_cells_s(pre, bones, i as int) == commit_cells_s(
                    set_cell(pre, bones[i as int]),
                    bones,
                    i as int + 1,
                ));
                if 0 <= bones[i as int].x + bones[i as int].y * (GRID_WIDTH as int) < GRID_SIZE {
                    let p = bones[i as int].x + bones[i as int].y * (GRID_WIDTH as int);
                    assert(cell_ok(self.blocks@.cells[p], p));
                }
            }
            i = i + 1;
        }
    }

    /// After a commit, scans every row from the top down to the lowest row
    /// the committed piece inhabits; each full row found starts its clear
    /// animation.
    pub fn clear_row_if(&mut self)
        requires
            old(self).wf(),
        ensures
            final(self).blocks@ == clear_scan_s(
                old(self).blocks@,
                0,
                max_y(old(self).curr_piece@.bones),
            ),
            final(self).curr_piece == old(self).curr_piece,
            final(self).instant_drop == old(self).instant_drop,
            final(self).wf(),
    {
        let rows = self.blocks.get_piece_rows(&self.curr_piece);
        let ghost maxr = max_y(self.curr_piece@.bones);
        proof {
            lemma_max_y(self.curr_piece@.bones);
            assert(rows@.contains(self.curr_piece.bones@[0].coord.y));
            let k0 = choose|k: int|
                0 <= k < rows@.len() && rows@[k] == self.curr_piece.bones@[0].coord.y;
            assert(rows@.len() >= 1);
            let last = rows@.len() - 1;
            // the last entry is the largest row the piece inhabits
            let jm = choose|j: int|
                0 <= j < self.curr_piece@.bones.len() && #[trigger] self.curr_piece@.bones[j].y
                    == maxr;
            assert(self.curr_piece@.bones[jm].y == self.curr_piece.bones@[jm].coord.y);
            assert(rows@.contains(self.curr_piece.bones@[jm].coord.y));
            let km = choose|k: int|
                0 <= k < rows@.len() && rows@[k] == self.curr_piece.bones@[jm].coord.y;
            assert(rows@[km] <= rows@[last]);
            assert(crate::board::has_row(self.curr_piece.bones@, rows@[last]));
            let jl = choose|j: int|
                0 <= j < self.curr_piece.bones@.len() && #[trigger] self.curr_piece.bones@[j].coord.y
                    == rows@[last];
            assert(self.curr_piece@.bones[jl].y == rows@[last]);
            assert(rows@[last] == maxr);
            assert(0 <= self.curr_piece@.bones[jm].x);
            assert(maxr < GRID_HEIGHT);
        }
        let maxv = rows[rows.len() - 1];
        let ghost m0 = self.blocks@;
        let mut row: i16 = 0;
        while row <= maxv
            invariant
                maxv == maxr,
                maxr < GRID_HEIGHT,
                0 <= row,
                row <= maxv + 1 || row == 0,
                board_wf(self.blocks@),
                self.curr_piece == old(self).curr_piece,
                self.instant_drop == old(self).instant_drop,
                clear_scan_s(self.blocks@, row as int, maxr) == clear_scan_s(m0, 0, maxr),
            decreases maxr + 1 - row,
        {
            let ghost pre = self.blocks@;
            if self.blocks.row_full(row) {
                self.blocks.start_clear(row);
                proof {
                    assert(self.blocks@ =~= (BoardV {
                        cells: start_row_s(pre.cells, row as int, 0, 0),
                        queue: pre.queue.push(row as int),
                    }));
                    assert(clear_scan_s(pre, row as int, maxr) == clear_scan_s(
                        self.blocks@,
                        row as int + 1,
                        maxr,
                    ));
                }
            } else {
                proof {
                    assert(clear_scan_s(pre, row as int, maxr) == clear_scan_s(
                        pre,
                        row as int + 1,
                        maxr,
                    ));
                }
            }
            row = row + 1;
        }
        proof {
            assert(clear_scan_s(self.blocks@, row as int, maxr) == self.blocks@);
        }
    }

    /// Builds a candidate by translating the current piece one step in
    /// `dir` and applying `rot`, checks it against the board, and
    /// dispatches: a collision underneath commits the current piece, starts
    /// any due row clears, spawns a fresh piece and reports true; a side
    /// collision met by a rotation retries once at the wall-kicked pose; a
    /// side collision from pure translation changes nothing; a clear check
    /// accepts the candidate.
    #[verifier::rlimit(100)]
    #[verifier::spinoff_prover]
    pub fn move_if(&mut self, dir: Direction, rot: Rotation) -> (r: bool)
        requires
            old(self).wf(),
        ensures
            final(self).wf(),
            move_step(
                old(self).blocks@,
                old(self).curr_piece@,
                final(self).blocks@,
                final(self).curr_piece@,
                dir,
                rot,
                r,
            ),
            r ==> spawned_piece(final(self).curr_piece@),
            !r ==> final(self).blocks@ == old(self).blocks@,
            final(self).instant_drop == old(self).instant_drop,
    {
        let ghost pre_b = self.blocks@;
        let ghost pre_p = self.curr_piece@;
        let ghost cand = candidate_of(pre_p, dir, rot);
        let ghost dx = dir.delta().0;
        let ghost dy = dir.delta().1;
        let ghost ai = anchor_ix(pre_p);
        let ghost pre_a = pre_p.bones[ai];

        let mut new_piece = self.curr_piece.clone();
        proof {
            assert forall|j: int| 0 <= j < pre_p.bones.len() implies i16::MIN
                <= #[trigger] pre_p.bones[j].x + dx <= i16::MAX && i16::MIN <= pre_p.bones[j].y
                + dy <= i16::MAX by {
                assert(0 <= pre_p.bones[j].x < GRID_WIDTH);
            }
        }
        let dc = dir.to_coord();
        new_piece.trans_change(&dc);
        let ghost tpiece = piece_translated(pre_p, dx, dy);
        proof {
            lemma_translated_compact(pre_p, dx, dy);
            assert(anchor_ix(tpiece) == ai);
            assert(tpiece.bones[ai] == crate::piece::bone_shifted(pre_a, dx, dy));
            let a = tpiece.bones[ai];
            assert(-1 <= a.x <= GRID_WIDTH);
            assert(-1 <= a.y <= GRID_HEIGHT);
            assert forall|j: int| 0 <= j < tpiece.bones.len() implies {
                let rb = #[trigger] crate::piece::bone_rotated(
                    tpiece.bones[j],
                    tpiece.bones[anchor_ix(tpiece)],
                    rot,
                );
                i16::MIN <= rb.x <= i16::MAX && i16::MIN <= rb.y <= i16::MAX
            } by {
                assert(-2 <= tpiece.bones[j].x - a.x <= 2);
                assert(-2 <= tpiece.bones[j].y - a.y <= 2);
            }
            if tpiece.pivot is Some {
                assert(anchor_ix(tpiece) == tpiece.pivot->0);
            }
        }
        new_piece.rotate(&rot);
        proof {
            lemma_rotated_compact(tpiece, rot);
            assert(new_piece@ == cand);
            assert(anchor_ix(cand) == ai);
            assert(cand.bones[ai] == tpiece.bones[ai]) by {
                if !(rot is Still) && tpiece.pivot is Some {
                    let p = tpiece.bones[anchor_ix(tpiece)];
                    assert(cand.bones[anchor_ix(tpiece)] == crate::piece::bone_rotated(p, p, rot));
                }
            }
            assert(piece_wf(cand) && piece_compact(cand));
        }
        let col = self.blocks.check_collision(&new_piece, &dir, &rot);
        match col {
            Collision::Under => {
                self.commit_piece();
                let ghost committed = BoardV {
                    cells: commit_cells_s(pre_b.cells, pre_p.bones, 0),
                    queue: pre_b.queue,
                };
                proof {
                    assert(self.blocks@ =~= committed);
                }
                self.clear_row_if();
                self.curr_piece = Tetrinome::new(&GRID_WIDTH);
                proof {
                    assert(self.blocks@ == clear_scan_s(committed, 0, max_y(pre_p.bones)));
                    assert(spawned_piece(self.curr_piece@));
                    assert(piece_ok(self.curr_piece@));
                }
                true
            },
            Collision::Left | Collision::Right => {
                let is_rot = match rot {
                    Rotation::Still => false,
                    _ => true,
                };
                if is_rot {
                    let new_dir = col.to_dir().opposite();
                    let shift = new_piece.get_width() / 2;
                    let offx: i16 = match new_dir {
                        Direction::Right => shift,
                        Direction::Left => -shift,
                        _ => 0,
                    };
                    proof {
                        assert(0 <= shift <= 2);
                        assert(shift == piece_width(cand) / 2);
                        assert(-2 <= offx <= 2);
                        assert(offx as int == kick_delta(cand, col));
                        let a = cand.bones[ai];
                        assert(-1 <= a.x <= GRID_WIDTH);
                        assert forall|j: int| 0 <= j < cand.bones.len() implies i16::MIN
                            <= #[trigger] cand.bones[j].x + offx <= i16::MAX && i16::MIN
                            <= cand.bones[j].y + 0 <= i16::MAX by {
                            assert(-2 <= cand.bones[j].x - a.x <= 2);
                        }
                    }
                    let off = crate::primitives::Coord { x: offx, y: 0 };
                    new_piece.trans_change(&off);
                    proof {
                        assert(off.x == kick_delta(cand, col));
                        assert(new_piece@ == kicked_of(cand, col));
                    }
                    let new_col = self.blocks.check_collision(
                        &new_piece,
                        &new_dir,
                        &Rotation::Still,
                    );
                    let accept = match new_col {
                        Collision::Clear => true,
                        _ => false,
                    };
                    if accept {
                        proof {
                            let kicked = kicked_of(cand, col);
                            assert(!(new_dir is Still));
                            crate::board::lemma_clear_bounds(
                                pre_b.cells,
                                kicked.bones,
                                new_dir,
                                Rotation::Still,
                                0,
                            );
                            lemma_translated_compact(cand, kick_delta(cand, col), 0);
                            assert(anchor_ix(kicked) == ai);
                            assert(kicked.bones[ai] == crate::piece::bone_shifted(
                                cand.bones[ai],
                                kick_delta(cand, col),
                                0,
                            ));
                            assert(kicked.bones[ai].y == pre_a.y + dy);
                            assert(kicked.bones[ai].y >= -1);
                            assert(piece_ok(kicked));
                        }
                        self.curr_piece = new_piece;
                    }
                }
                false
            },
            Collision::Clear => {
                proof {
                    if dir is Still && rot is Still {
                        lemma_translate_zero(pre_p);
                        assert(tpiece == pre_p);
                        assert(cand == pre_p);
                        assert(piece_ok(cand));
                    } else {
                        crate::board::lemma_clear_bounds(pre_b.cells, cand.bones, dir, rot, 0);
                        assert(cand.bones[ai].y == pre_a.y + dy);
                        assert(cand.bones[ai].y >= -1);
                        assert(piece_ok(cand));
                    }
                }
                self.curr_piece = new_piece;
                false
            },
        }
    }

    /// How many rows the given piece could still fall before a collision
    /// underneath: checks its poses one downward step at a time and stops at
    /// the first that collides.
    pub fn shadow_distance(&self, piece: &Tetrinome) -> (r: usize)
        requires
            board_wf(self.blocks@),
            piece_ok(piece@),
        ensures
            is_shadow_distance(self.blocks@.cells, piece@, r as int),
            r <= 22,
    {
        let ghost cells = self.blocks@.cells;
        let ghost t = piece@;
        let ghost a = t.bones[anchor_ix(t)];
        let mut shadow = piece.clone();
        let mut i: usize = 0;
        loop
            invariant
                board_wf(self.blocks@),
                cells == self.blocks@.cells,
                t == piece@,
                piece_ok(t),
                a == t.bones[anchor_ix(t)],
                0 <= i <= 23,
                shadow@ == piece_translated(t, 0, i as int),
                forall|k: int| 0 <= k < i ==> !under_at(cells, t, k),
            decreases 23 - i,
        {
            let col = self.blocks.check_collision(&shadow, &Direction::Down, &Rotation::Still);
            let hit = match col {
                Collision::Under => true,
                _ => false,
            };
            proof {
                assert(under_at(cells, t, i as int) == hit);
            }
            if hit {
                if i != 0 {
                    return i - 1;
                } else {
                    return 0;
                }
            }
            proof {
                if i == 23 {
                    assert forall|j: int| 0 <= j < shadow@.bones.len() implies 0
                        <= #[trigger] shadow@.bones[j].x < GRID_WIDTH by {
                        assert(shadow@.bones[j] == crate::piece::bone_shifted(t.bones[j], 0, 23));
                        assert(0 <= t.bones[j].x < GRID_WIDTH);
                    }
                    assert(shadow@.bones[0] == crate::piece::bone_shifted(t.bones[0], 0, 23));
                    assert(-2 <= t.bones[0].y - a.y <= 2);
                    assert(shadow@.bones[0].y >= GRID_HEIGHT);
                    crate::board::lemma_down_check_under(
                        cells,
                        shadow@.bones,
                        Rotation::Still,
                        0,
                    );
                    assert(false);
                }
                assert forall|j: int| 0 <= j < shadow@.bones.len() implies i16::MIN
                    <= #[trigger] shadow@.bones[j].x + 0 <= i16::MAX && i16::MIN
                    <= shadow@.bones[j].y + 1 <= i16::MAX by {
                    assert(shadow@.bones[j] == crate::piece::bone_shifted(
                        t.bones[j],
                        0,
                        i as int,
                    ));
                    assert(0 <= t.bones[j].x < GRID_WIDTH);
                    assert(-2 <= t.bones[j].y - a.y <= 2);
                }
            }
            i = i + 1;
            let dc = Direction::Down.to_coord();
            shadow.trans_change(&dc);
            proof {
                lemma_translate_compose(t, 0, i as int - 1, 0, 1);
            }
        }
    }

    /// The bones of the current piece's shadow: the piece as it would rest
    /// after falling its drop distance.
    pub fn shadow_bones(&self) -> (r: Vec<Bone>)
        requires
            self.wf(),
        ensures
            exists|d: int|
                0 <= d && is_shadow_distance(self.blocks@.cells, self.curr_piece@, d) && (
                #[trigger] piece_translated(self.curr_piece@, 0, d)).bones =~= r@.map_values(
                    |b: Bone| b@,
                ),
    {
        let ghost t = self.curr_piece@;
        let ghost a = t.bones[anchor_ix(t)];
        let d = self.shadow_distance(&self.curr_piece);
        let mut shadow = self.curr_piece.clone();
        let mut i: usize = 0;
        while i < d
            invariant
                0 <= i <= d,
                d <= 22,
                t == self.curr_piece@,
                piece_ok(t),
                a == t.bones[anchor_ix(t)],
                shadow@ == piece_translated(t, 0, i as int),
            decreases d - i,
        {
            proof {
                assert forall|j: int| 0 <= j < shadow@.bones.len() implies i16::MIN
                    <= #[trigger] shadow@.bones[j].x + 0 <= i16::MAX && i16::MIN
                    <= shadow@.bones[j].y + 1 <= i16::MAX by {
                    assert(shadow@.bones[j] == crate::piece::bone_shifted(
                        t.bones[j],
                        0,
                        i as int,
                    ));
                    assert(0 <= t.bones[j].x < GRID_WIDTH);
                    assert(-2 <= t.bones[j].y - a.y <= 2);
                }
            }
            let dc = Direction::Down.to_coord();
            shadow.trans_change(&dc);
            i = i + 1;
            proof {
                lemma_translate_compose(t, 0, i as int - 1, 0, 1);
            }
        }
        let mut out: Vec<Bone> = Vec::new();
        let mut j: usize = 0;
        while j < shadow.bones.len()
            invariant
                0 <= j <= shadow.bones@.len(),
                out@.len() == j,
                forall|k: int| 0 <= k < j ==> #[trigger] out@[k] == shadow.bones@[k],
            decreases shadow.bones@.len() - j,
        {
            out.push(shadow.bones[j]);
            j = j + 1;
        }
        proof {
            assert(out@ =~= shadow.bones@);
            assert(out@.map_values(|b: Bone| b@) =~= shadow@.bones);
            assert(piece_translated(t, 0, d as int).bones =~= out@.map_values(|b: Bone| b@));
        }
        out
    }

    /// The bones of the current falling piece, in bone order.
    pub fn piece_bones(&self) -> (r: Vec<Bone>)
        ensures
            r@ =~= self.curr_piece.bones@,
    {
        let mut out: Vec<Bone> = Vec::new();
        let mut j: usize = 0;
        while j < self.curr_piece.bones.len()
            invariant
                0 <= j <= self.curr_piece.bones@.len(),
                out@.len() == j,
                forall|k: int| 0 <= k < j ==> #[trigger] out@[k] == self.curr_piece.bones@[k],
            decreases self.curr_piece.bones@.len() - j,
        {
            out.push(self.curr_piece.bones[j]);
            j = j + 1;
        }
        out
    }

    /// The bones of the hard-drop ghost animation, if one is in flight.
    pub fn drop_bones(&self) -> (r: Option<Vec<Bone>>)
        ensures
            match self.instant_drop {
                Some(d) => r matches Some(v) && v@ =~= d.piece.bones@,
                None => r is None,
            },
    {
        match &self.instant_drop {
            Some(d) => {
                let mut out: Vec<Bone> = Vec::new();
                let mut j: usize = 0;
                while j < d.piece.bones.len()
                    invariant
                        0 <= j <= d.piece.bones@.len(),
                        out@.len() == j,
                        forall|k: int| 0 <= k < j ==> #[trigger] out@[k] == d.piece.bones@[k],
                    decreases d.piece.bones@.len() - j,
                {
                    out.push(d.piece.bones[j]);
                    j = j + 1;
                }
                Some(out)
            },
            None => None,
        }
    }

    /// Starts the hard-drop ghost animation of the given piece: one frame
    /// per row it can fall, plus one, each a tick long, with no delay.
    pub fn start_drop(&mut self, piece: Tetrinome)
        requires
            old(self).wf(),
            piece_ok(piece@),
        ensures
            final(self).blocks == old(self).blocks,
            final(self).curr_piece == old(self).curr_piece,
            final(self).wf(),
            match final(self).instant_drop {
                Some(d) => {
                    &&& d.piece@ == piece@
                    &&& d.frame_timer@.next == 0
                    &&& d.frame_timer@.acc == 0
                    &&& d.frame_timer@.delay == 0
                    &&& exists|n: int|
                        is_shadow_distance(old(self).blocks@.cells, piece@, n)
                            && #[trigger] d.frame_timer@.frames =~= Seq::new(
                            (n + 1) as nat,
                            |i: int| crate::timing::MILLIS_PER_UPDATE as int,
                        )
                },
                None => false,
            },
    {
        let n_frames = self.shadow_distance(&piece) + 1;
        let timer = FrameTimer::equal_sized(
            n_frames,
            crate::timing::MILLIS_PER_UPDATE,
            0,
        );
        let ghost d0 = (n_frames - 1) as int;
        self.instant_drop = Some(InstantDrop { piece, frame_timer: timer });
        proof {
            let d = self.instant_drop->Some_0;
            assert(is_shadow_distance(old(self).blocks@.cells, d.piece@, d0) && d.frame_timer@.frames
                =~= Seq::new((d0 + 1) as nat, |i: int| crate::timing::MILLIS_PER_UPDATE as int));
            assert forall|j: int| 0 <= j < d.piece@.bones.len() implies 0
                <= #[trigger] d.piece@.bones[j].x < GRID_WIDTH && -3 <= d.piece@.bones[j].y <= 19
                + d.frame_timer@.next by {
                let a = d.piece@.bones[anchor_ix(d.piece@)];
                assert(-2 <= d.piece@.bones[j].x - a.x <= 2);
                assert(0 <= d.piece@.bones[j].x < GRID_WIDTH && d.piece@.bones[j].y
                    < GRID_HEIGHT);
                assert(a.y >= -1);
            }
        }
    }

    /// Hard drop: moves the current piece down until it commits at its drop
    /// distance, then starts the ghost animation of the piece as it stood.
    pub fn finish_drop(&mut self)
        requires
            old(self).wf(),
        ensures
            final(self).wf(),
            hard_drop_step(
                old(self).blocks@,
                old(self).curr_piece@,
                final(self).blocks@,
                final(self).curr_piece@,
            ),
            match final(self).instant_drop {
                Some(d) => d.piece@ == old(self).curr_piece@,
                None => false,
            },
    {
        let curr_piece = self.curr_piece.clone();
        let ghost p0 = curr_piece@;
        let ghost pre_b = self.blocks@;
        let ghost mut steps: int = 0;
        proof {
            lemma_translate_zero(p0);
        }
        loop
            invariant_except_break
                pre_b == self.blocks@,
                self.curr_piece@ == piece_translated(p0, 0, steps),
            invariant
                self.wf(),
                curr_piece@ == p0,
                piece_ok(p0),
                0 <= steps,
                forall|k: int| 1 <= k <= steps ==> !under_at(pre_b.cells, p0, k),
            ensures
                self.wf(),
                hard_drop_step(pre_b, p0, self.blocks@, self.curr_piece@),
                match self.instant_drop {
                    Some(d) => d.piece@ == p0,
                    None => false,
                },
            decreases 20 - self.curr_piece@.bones[anchor_ix(self.curr_piece@)].y,
        {
            let ghost pre_p = self.curr_piece@;
            let ghost ai = anchor_ix(pre_p);
            let committed = self.move_if(Direction::Down, Rotation::Still);
            proof {
                let cand = candidate_of(pre_p, Direction::Down, Rotation::Still);
                let tpiece = piece_translated(pre_p, 0, 1);
                assert(cand == tpiece) by {
                    if !(tpiece.pivot is Some) {
                    }
                }
                lemma_translate_compose(p0, 0, steps, 0, 1);
                assert(cand == piece_translated(p0, 0, steps + 1));
                assert forall|j: int| 0 <= j < cand.bones.len() implies 0
                    <= #[trigger] cand.bones[j].x < GRID_WIDTH by {
                    assert(cand.bones[j] == crate::piece::bone_shifted(pre_p.bones[j], 0, 1));
                    assert(0 <= pre_p.bones[j].x < GRID_WIDTH);
                }
                crate::board::lemma_down_result(pre_b.cells, cand.bones, Rotation::Still, 0);
            }
            if committed {
                proof {
                    assert(under_at(pre_b.cells, p0, steps + 1));
                    assert(self.blocks@ == clear_scan_s(
                        BoardV {
                            cells: commit_cells_s(pre_b.cells, pre_p.bones, 0),
                            queue: pre_b.queue,
                        },
                        0,
                        max_y(pre_p.bones),
                    ));
                    assert(hard_drop_step(pre_b, p0, self.blocks@, self.curr_piece@));
                }
                self.start_drop(curr_piece);
                break;
            }
            proof {
                let cand = candidate_of(pre_p, Direction::Down, Rotation::Still);
                let col = check_collision_s(pre_b.cells, cand, Direction::Down, Rotation::Still);
                assert(col is Clear);
                assert(self.curr_piece@ == cand);
                steps = steps + 1;
                assert(anchor_ix(cand) == ai);
                assert(cand.bones[ai] == crate::piece::bone_shifted(pre_p.bones[ai], 0, 1));
                if pre_p.bones[ai].y >= GRID_HEIGHT - 1 {
                    assert(cand.bones[ai].y >= GRID_HEIGHT);
                    crate::board::lemma_down_check_under(
                        pre_b.cells,
                        cand.bones,
                        Rotation::Still,
                        0,
                    );
                    assert(false);
                }
            }
        }
    }

    /// Advances the hard-drop ghost animation by one tick of `elapsed`
    /// milliseconds: on a frame boundary the ghost piece falls one row; once
    /// the timer is done the animation is discarded; in between only the
    /// timer accumulates.
    pub fn animate_drop(&mut self, elapsed: u64)
        requires
            old(self).wf(),
        ensures
            final(self).wf(),
            final(self).blocks == old(self).blocks,
            final(self).curr_piece == old(self).curr_piece,
            match old(self).instant_drop {
                None => final(self).instant_drop is None && old(self).instant_drop is None,
                Some(d) => {
                    let st = timer_advance_state(d.frame_timer@, elapsed as int);
                    if st is Done {
                        final(self).instant_drop is None
                    } else {
                        match final(self).instant_drop {
                            Some(d2) => {
                                &&& d2.frame_timer@ == timer_advance(d.frame_timer@, elapsed as int)
                                &&& d2.piece@ == (if st is Ready {
                                    piece_translated(d.piece@, 0, 1)
                                } else {
                                    d.piece@
                                })
                            },
                            None => false,
                        }
                    }
                },
            },
    {
        let has = self.instant_drop.is_some();
        if has {
            let mut d = self.instant_drop.take().unwrap();
            let ghost dv = old(self).instant_drop->Some_0;
            proof {
                assert(d == dv);
            }
            let st = d.frame_timer.state(elapsed);
            match st {
                FrameState::Ready => {
                    proof {
                        let t = d.piece@;
                        let a = t.bones[anchor_ix(t)];
                        assert forall|j: int| 0 <= j < t.bones.len() implies i16::MIN
                            <= #[trigger] t.bones[j].x + 0 <= i16::MAX && i16::MIN <= t.bones[j].y
                            + 1 <= i16::MAX by {
                            assert(0 <= t.bones[j].x < GRID_WIDTH);
                        }
                    }
                    let dc = Direction::Down.to_coord();
                    d.piece.trans_change(&dc);
                    proof {
                        lemma_translated_compact(dv.piece@, 0, 1);
                        assert(drop_ok(d)) by {
                            assert forall|j: int| 0 <= j < d.piece@.bones.len() implies 0
                                <= #[trigger] d.piece@.bones[j].x < GRID_WIDTH && -3
                                <= d.piece@.bones[j].y <= 19 + d.frame_timer@.next by {
                                assert(d.piece@.bones[j] == crate::piece::bone_shifted(
                                    dv.piece@.bones[j],
                                    0,
                                    1,
                                ));
                                assert(0 <= dv.piece@.bones[j].x < GRID_WIDTH);
                                assert(-3 <= dv.piece@.bones[j].y <= 19 + dv.frame_timer@.next);
                            }
                        }
                    }
                    self.instant_drop = Some(d);
                },
                FrameState::Done => {
                    self.instant_drop = None;
                },
                FrameState::Waiting => {
                    self.instant_drop = Some(d);
                },
            }
        }
    }

    /// One animation tick over the committed cells: every cell with an
    /// attached clear timer advances it once, its color stepping along the
    /// wave on each frame boundary; the bones of all occupied cells come
    /// back in slot order for drawing.
    pub fn grid_bones(&mut self, elapsed: u64) -> (r: Vec<Bone>)
        requires
            old(self).wf(),
        ensures
            final(self).wf(),
            final(self).blocks@.cells == Seq::new(
                old(self).blocks@.cells.len(),
                |i: int| animate_cell_s(old(self).blocks@.cells[i], elapsed as int),
            ),
            final(self).blocks@.queue == old(self).blocks@.queue,
            final(self).curr_piece == old(self).curr_piece,
            final(self).instant_drop == old(self).instant_drop,
            r@.map_values(|b: Bone| b@) == visible_anim(old(self).blocks@.cells, 0, elapsed as int),
    {
        let ghost m0 = old(self).blocks@.cells;
        let ghost e = elapsed as int;
        let mut out: Vec<Bone> = Vec::new();
        let mut i: usize = 0;
        while i < GRID_SIZE as usize
            invariant
                0 <= i <= GRID_SIZE,
                m0.len() == GRID_SIZE,
                self.blocks@.cells.len() == GRID_SIZE,
                e == elapsed as int,
                self.blocks@.queue == old(self).blocks@.queue,
                self.curr_piece == old(self).curr_piece,
                self.instant_drop == old(self).instant_drop,
                piece_ok(self.curr_piece@),
                match self.instant_drop {
                    Some(d) => drop_ok(d),
                    None => true,
                },
                forall|q: int|
                    0 <= q < self.blocks@.queue.len() ==> 0 <= #[trigger] self.blocks@.queue[q]
                        < GRID_HEIGHT,
                forall|ci: int|
                    0 <= ci < self.blocks@.cells.len() ==> cell_ok(
                        #[trigger] self.blocks@.cells[ci],
                        ci,
                    ),
                forall|j: int| 0 <= j < i ==> #[trigger] self.blocks@.cells[j] == animate_cell_s(
                    m0[j],
                    e,
                ),
                forall|j: int|
                    i <= j < GRID_SIZE ==> #[trigger] self.blocks@.cells[j] == m0[j],
                out@.map_values(|b: Bone| b@) + visible_anim(m0, i as int, e) == visible_anim(
                    m0,
                    0,
                    e,
                ),
            decreases GRID_SIZE as usize - i,
        {
            let ghost prev = self.blocks@.cells;
            let ghost pre_out = out@.map_values(|b: Bone| b@);
            let cell: Option<Block> = match &self.blocks.data[i] {
                Some(b) => Some(b.clone()),
                None => None,
            };
            proof {
                assert(crate::board::cell_view(cell) == prev[i as int]);
                assert(prev[i as int] == m0[i as int]);
                assert(cell_ok(prev[i as int], i as int));
            }
            match cell {
                Some(mut blk) => {
                    match &mut blk.frame_timer {
                        Some(ft) => {
                            let st = ft.state(elapsed);
                            blk.bone.clear_animate(&st);
                        },
                        None => {},
                    }
                    proof {
                        assert(Some(blk@) == animate_cell_s(m0[i as int], e));
                    }
                    out.push(blk.bone);
                    self.blocks.data.set(i, Some(blk));
                    proof {
                        assert(self.blocks@.cells =~= prev.update(
                            i as int,
                            animate_cell_s(m0[i as int], e),
                        ));
                        assert(cell_ok(self.blocks@.cells[i as int], i as int));
                        assert(out@.map_values(|b: Bone| b@) =~= pre_out.push(
                            animate_cell_s(m0[i as int], e)->Some_0.bone,
                        ));
                        assert(visible_anim(m0, i as int, e) == seq![
                            animate_cell_s(m0[i as int], e)->Some_0.bone,
                        ] + visible_anim(m0, i as int + 1, e));
                        assert(pre_out.push(animate_cell_s(m0[i as int], e)->Some_0.bone)
                            + visible_anim(m0, i as int + 1, e) =~= pre_out + (seq![
                            animate_cell_s(m0[i as int], e)->Some_0.bone,
                        ] + visible_anim(m0, i as int + 1, e)));
                    }
                },
                None => {
                    proof {
                        assert(animate_cell_s(m0[i as int], e) is None);
                        assert(visible_anim(m0, i as int, e) == visible_anim(m0, i as int + 1, e));
                    }
                },
            }
            i = i + 1;
        }
        proof {
            assert(visible_anim(m0, GRID_SIZE as int, e) =~= Seq::<BoneV>::empty());
            assert(out@.map_values(|b: Bone| b@) + visible_anim(m0, GRID_SIZE as int, e)
                =~= out@.map_values(|b: Bone| b@));
            assert(self.blocks@.cells =~= Seq::new(
                m0.len(),
                |ii: int| animate_cell_s(m0[ii], e),
            ));
        }
        out
    }
}

} // verus!
