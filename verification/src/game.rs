//! The mutable puzzle session: the player's position, the boxes' positions
//! by identity, the immutable level they move in, and the move history that
//! undo walks back. A session is modelled as the replay of its history from
//! the level's start, and every operation keeps that model exact.

use vstd::prelude::*;

use crate::level::copy_vec;
use crate::level::parse_accepts;
use crate::level::parse_level;
use crate::level::level_matches;
use crate::level::Cell;
use crate::level::Grid;
use crate::level::Level;
use crate::math::Direction;
use crate::math::Position;

verus! {

/// One entry of the move history: the direction the player moved, and the
/// identity of the box that was pushed along, if any. Undo is its exact
/// inverse: the direction is subtracted from the player, and from that box.
#[derive(Clone, Copy, Debug)]
pub struct Move {
    pub player_move: Direction,
    pub box_move: Option<usize>,
}

/// Whether some box sits on `p`.
pub open spec fn box_at(boxes: Seq<Position>, p: Position) -> bool {
    exists|i: int| 0 <= i < boxes.len() && boxes[i] == p
}

/// The identity of the box on `p`; meaningful where exactly one sits there.
pub open spec fn box_index_at(boxes: Seq<Position>, p: Position) -> int {
    choose|i: int| 0 <= i < boxes.len() && boxes[i] == p
}

/// The player's and the boxes' positions after one recorded move.
pub open spec fn step(st: (Position, Seq<Position>), m: Move) -> (Position, Seq<Position>) {
    let p = st.0.spec_add(m.player_move);
    match m.box_move {
        Option::None => (p, st.1),
        Option::Some(b) => (p, st.1.update(b as int, p.spec_add(m.player_move))),
    }
}

/// A recorded move is legal in a state: the target cell is inside the grid,
/// and either it is free ground, or it holds exactly the recorded box and
/// the cell beyond that box is inside the grid and free.
pub open spec fn move_ok(level: Level, st: (Position, Seq<Position>), m: Move) -> bool {
    let d = m.player_move;
    let p = st.0;
    let boxes = st.1;
    let t = p.spec_add(d);
    &&& d.is_unit()
    &&& level.grid.in_bounds_xy(p.x + d.x, p.y + d.y)
    &&& match m.box_move {
        Option::None => !box_at(boxes, t) && level.grid.cell(t).passable(),
        Option::Some(b) => {
            let n = t.spec_add(d);
            &&& 0 <= b < boxes.len()
            &&& boxes[b as int] == t
            &&& level.grid.in_bounds_xy(t.x + d.x, t.y + d.y)
            &&& level.grid.cell(n).passable()
            &&& !box_at(boxes, n)
        },
    }
}

/// The state the level's start positions give.
pub open spec fn start_of(level: Level) -> (Position, Seq<Position>) {
    (level.start_position, level.box_positions@)
}

/// The state a history of moves leads to, replayed from the start.
pub open spec fn replay(level: Level, moves: Seq<Move>) -> (Position, Seq<Position>)
    decreases moves.len(),
{
    if moves.len() == 0 {
        start_of(level)
    } else {
        step(replay(level, moves.drop_last()), moves.last())
    }
}

/// Every move of the history was legal in the state it was made in.
pub open spec fn legal_history(level: Level, moves: Seq<Move>) -> bool
    decreases moves.len(),
{
    moves.len() == 0 || {
        &&& legal_history(level, moves.drop_last())
        &&& move_ok(level, replay(level, moves.drop_last()), moves.last())
    }
}

/// A sound session state: the player stands on free ground, every box
/// stands on free ground, no two boxes coincide, and the player stands on
/// no box.
pub open spec fn ok_state(level: Level, p: Position, boxes: Seq<Position>) -> bool {
    &&& boxes.len() == level.box_positions@.len()
    &&& level.grid.in_bounds(p)
    &&& level.grid.cell(p).passable()
    &&& !box_at(boxes, p)
    &&& forall|i: int|
        0 <= i < boxes.len() ==> level.grid.in_bounds(#[trigger] boxes[i])
            && level.grid.cell(boxes[i]).passable()
    &&& forall|i: int, j: int| 0 <= i < j < boxes.len() ==> boxes[i] != boxes[j]
}

/// Every box stands on a target cell of the template.
pub open spec fn boxes_on_targets(level: Level, boxes: Seq<Position>) -> bool {
    forall|i: int| 0 <= i < boxes.len() ==> level.grid.cell(#[trigger] boxes[i]) is Target
}

/// Whether the player may move one step in direction `d`: the target cell
/// is inside the grid and free, or holds a box whose far side is inside the
/// grid and free (one box may be pushed, never two, never into a wall).
pub open spec fn state_can_move(
    level: Level,
    p: Position,
    boxes: Seq<Position>,
    d: Direction,
) -> bool {
    &&& level.grid.in_bounds_xy(p.x + d.x, p.y + d.y)
    &&& {
        let t = p.spec_add(d);
        if box_at(boxes, t) {
            &&& level.grid.in_bounds_xy(t.x + d.x, t.y + d.y)
            &&& level.grid.cell(t.spec_add(d)).passable()
            &&& !box_at(boxes, t.spec_add(d))
        } else {
            level.grid.cell(t).passable()
        }
    }
}

/// The history entry a legal move in direction `d` leaves behind.
pub open spec fn move_record(p: Position, boxes: Seq<Position>, d: Direction) -> Move {
    let t = p.spec_add(d);
    if box_at(boxes, t) {
        Move { player_move: d, box_move: Option::Some(box_index_at(boxes, t) as usize) }
    } else {
        Move { player_move: d, box_move: Option::None }
    }
}

/// The level's start state is sound.
pub proof fn lemma_start_ok(level: Level)
    requires
        level.wf(),
    ensures
        ok_state(level, level.start_position, level.box_positions@),
{
    assert(forall|i: int|
        0 <= i < level.box_positions@.len() ==> #[trigger] level.box_positions@[i]
            != level.start_position);
}

/// A legal move keeps the state sound.
pub proof fn lemma_step_ok(level: Level, p: Position, boxes: Seq<Position>, m: Move)
    requires
        level.wf(),
        ok_state(level, p, boxes),
        move_ok(level, (p, boxes), m),
    ensures
        ({
            let st = step((p, boxes), m);
            ok_state(level, st.0, st.1)
        }),
{
    let d = m.player_move;
    let t = p.spec_add(d);
    assert(t.x == p.x + d.x && t.y == p.y + d.y);
    assert(t != p);
    match m.box_move {
        Option::None => {
            assert(level.grid.cell(t).passable());
        },
        Option::Some(b) => {
            let bi = b as int;
            let n = t.spec_add(d);
            assert(n.x == t.x + d.x && n.y == t.y + d.y);
            assert(n != t);
            assert(n != p);
            let nb = boxes.update(bi, n);
            assert(level.grid.cell(boxes[bi]).passable());
            assert forall|i: int|
                0 <= i < nb.len() implies level.grid.in_bounds(#[trigger] nb[i])
                && level.grid.cell(nb[i]).passable() by {
                if i != bi {
                    assert(nb[i] == boxes[i]);
                }
            }
            assert forall|i: int| 0 <= i < nb.len() implies nb[i] != t by {
                if i != bi && nb[i] == t {
                    assert(boxes[i] == t && boxes[bi] == t);
                    if i < bi {
                        assert(boxes[i] != boxes[bi]);
                    } else {
                        assert(boxes[bi] != boxes[i]);
                    }
                }
            }
            assert(!box_at(nb, t));
            assert forall|i: int, j: int| 0 <= i < j < nb.len() implies nb[i] != nb[j] by {
                if i == bi {
                    if nb[j] == n {
                        assert(boxes[j] == n);
                        assert(box_at(boxes, n));
                    }
                } else if j == bi {
                    if nb[i] == n {
                        assert(boxes[i] == n);
                        assert(box_at(boxes, n));
                    }
                } else {
                    assert(nb[i] == boxes[i] && nb[j] == boxes[j]);
                }
            }
        },
    }
}

/// A puzzle session: created from a level, mutated by moves, undo and
/// reset. The state always equals the replay of its history from the
/// level's start positions.
#[derive(Debug)]
pub struct GameState {
    pub player_position: Position,
    pub box_positions: Vec<Position>,
    pub level: Level,
    pub move_history: Vec<Move>,
}

impl GameState {
    pub open spec fn wf(self) -> bool {
        &&& self.level.wf()
        &&& legal_history(self.level, self.move_history@)
        &&& self.player_position == replay(self.level, self.move_history@).0
        &&& self.box_positions@ == replay(self.level, self.move_history@).1
    }

    /// The level is solved: every box stands on a target cell.
    pub open spec fn spec_complete(self) -> bool {
        boxes_on_targets(self.level, self.box_positions@)
    }

    /// The grid `g` shows this state: the player overlaid at the player's
    /// position, each box at its position carrying its identity, and the
    /// template everywhere else.
    pub open spec fn grid_matches(self, g: Grid) -> bool {
        &&& g.width == self.level.grid.width
        &&& g.height == self.level.grid.height
        &&& g.cells@.len() == self.level.grid.cells@.len()
        &&& g.cell(self.player_position) == Cell::Player
        &&& forall|i: int|
            0 <= i < self.box_positions@.len() ==> g.cell(#[trigger] self.box_positions@[i])
                == Cell::Box(i as usize)
        &&& forall|q: Position|
            self.level.grid.in_bounds(q) && q != self.player_position && !box_at(
                self.box_positions@,
                q,
            ) ==> g.cell(q) == self.level.grid.cell(q)
    }

    /// The glyph shown at (x, y): the player's, a box's, or the template
    /// cell's.
    pub open spec fn rendered_char(self, x: int, y: int) -> char {
        let q = Position { x: x as i32, y: y as i32 };
        if q == self.player_position {
            '@'
        } else if box_at(self.box_positions@, q) {
            'Q'
        } else {
            self.level.grid.cell(q).spec_char()
        }
    }

    /// One displayed row of the session.
    pub open spec fn rendered_line(self, y: int) -> Seq<char> {
        Seq::new(self.level.grid.width as nat, |x: int| self.rendered_char(x, y))
    }

    /// A fresh session at the level's start, with an empty history.
    pub fn new(level: Level) -> (s: GameState)
        requires
            level.wf(),
        ensures
            s.wf(),
            s.level == level,
            s.player_position == level.start_position,
            s.box_positions@ == level.box_positions@,
            s.move_history@.len() == 0,
    {
        let box_positions = copy_vec(&level.box_positions);
        GameState { player_position: level.start_position, box_positions, level, move_history: Vec::new() }
    }

    /// Parses a level text and opens a fresh session on it.
    pub fn load_level(level_string: &str) -> (r: Result<GameState, String>)
        ensures
            r is Ok <==> parse_accepts(level_string@),
            r matches Ok(s) ==> {
                &&& s.wf()
                &&& s.level.wf()
                &&& level_matches(s.level, level_string@)
                &&& s.player_position == s.level.start_position
                &&& s.box_positions@ == s.level.box_positions@
                &&& s.move_history@.len() == 0
            },
            r matches Err(m) ==> m@ == "Failed parsing level."@,
    {
        let level = match parse_level(level_string) {
            Ok(level) => level,
            Err(_) => {
                return Err("Failed parsing level.".to_owned());
            },
        };
        Ok(GameState::new(level))
    }

    /// Back to the level's start positions, with the history discarded.
    pub fn reset(&mut self)
        requires
            old(self).wf(),
        ensures
            final(self).wf(),
            final(self).level == old(self).level,
            final(self).player_position == old(self).level.start_position,
            final(self).box_positions@ == old(self).level.box_positions@,
            final(self).move_history@.len() == 0,
    {
        self.player_position = self.level.start_position;
        let boxes = copy_vec(&self.level.box_positions);
        self.box_positions = boxes;
        self.move_history.clear();
    }

    /// A snapshot for display: the template grid with the player and the
    /// boxes overlaid. Produced on demand and never the source of truth.
    pub fn render_grid(&self) -> (g: Grid)
        requires
            self.wf(),
        ensures
            g.wf(),
            self.grid_matches(g),
    {
        proof {
            lemma_replay_ok(self.level, self.move_history@);
        }
        let mut new_grid = self.level.grid.duplicate();
        new_grid.set_cell(self.player_position, Cell::Player);
        let mut i: usize = 0;
        while i < self.box_positions.len()
            invariant
                self.wf(),
                ok_state(self.level, self.player_position, self.box_positions@),
                i <= self.box_positions@.len(),
                new_grid.wf(),
                new_grid.width == self.level.grid.width,
                new_grid.height == self.level.grid.height,
                new_grid.cells@.len() == self.level.grid.cells@.len(),
                new_grid.cell(self.player_position) == Cell::Player,
                forall|j: int|
                    0 <= j < i ==> new_grid.cell(#[trigger] self.box_positions@[j]) == Cell::Box(
                        j as usize,
                    ),
                forall|q: Position|
                    self.level.grid.in_bounds(q) && q != self.player_position && !box_at(
                        self.box_positions@.take(i as int),
                        q,
                    ) ==> new_grid.cell(q) == self.level.grid.cell(q),
            decreases self.box_positions@.len() - i,
        {
            let pos = self.box_positions[i];
            proof {
                assert(self.level.grid.in_bounds(pos));
                assert(new_grid.in_bounds(pos));
            }
            new_grid.set_cell(pos, Cell::Box(i));
            proof {
                assert(pos != self.player_position);
                assert forall|j: int|
                    0 <= j < i + 1 implies new_grid.cell(#[trigger] self.box_positions@[j])
                    == Cell::Box(j as usize) by {
                    if j < i {
                        assert(self.box_positions@[j] != pos);
                    }
                }
                assert forall|q: Position|
                    self.level.grid.in_bounds(q) && q != self.player_position && !box_at(
                        self.box_positions@.take(i + 1),
                        q,
                    ) implies new_grid.cell(q) == self.level.grid.cell(q) by {
                    assert(self.box_positions@.take(i + 1)[i as int] == pos);
                    assert(q != pos);
                    assert(!box_at(self.box_positions@.take(i as int), q)) by {
                        if box_at(self.box_positions@.take(i as int), q) {
                            let j = choose|j: int|
                                0 <= j < i && self.box_positions@.take(i as int)[j] == q;
                            assert(self.box_positions@.take(i + 1)[j] == q);
                        }
                    }
                }
            }
            i += 1;
        }
        proof {
            assert forall|q: Position|
                self.level.grid.in_bounds(q) && q != self.player_position && !box_at(
                    self.box_positions@,
                    q,
                ) implies new_grid.cell(q) == self.level.grid.cell(q) by {
                assert(!box_at(self.box_positions@.take(self.box_positions@.len() as int), q)) by {
                    if box_at(self.box_positions@.take(self.box_positions@.len() as int), q) {
                        let j = choose|j: int|
                            0 <= j < self.box_positions@.len() && self.box_positions@.take(
                                self.box_positions@.len() as int,
                            )[j] == q;
                        assert(self.box_positions@[j] == q);
                    }
                }
            }
        }
        new_grid
    }

    /// Applies one legal move: the player advances one cell in `direction`,
    /// a box on the target cell advances one further cell, and the history
    /// records the move together with the pushed box's identity. `grid`
    /// must be the rendered snapshot of this state, and the move must have
    /// been checked legal on it: an illegal move is a caller's bug, not a
    /// recoverable condition.
    pub fn move_player(&mut self, grid: &Grid, direction: Direction)
        requires
            old(self).wf(),
            direction.is_unit(),
            old(self).grid_matches(*grid),
            grid.spec_can_move(old(self).player_position, direction),
        ensures
            final(self).wf(),
            final(self).level == old(self).level,
            final(self).move_history@ == old(self).move_history@.push(
                move_record(old(self).player_position, old(self).box_positions@, direction),
            ),
            final(self).player_position == old(self).player_position.spec_add(direction),
            ({
                let t = old(self).player_position.spec_add(direction);
                if box_at(old(self).box_positions@, t) {
                    final(self).box_positions@ == old(self).box_positions@.update(
                        box_index_at(old(self).box_positions@, t),
                        t.spec_add(direction),
                    )
                } else {
                    final(self).box_positions@ == old(self).box_positions@
                }
            }),
    {
        proof {
            lemma_replay_ok(self.level, self.move_history@);
            assert(grid.wf());
            lemma_grid_can_move(*self, *grid, direction);
        }
        let ghost p0 = self.player_position;
        let ghost boxes0 = self.box_positions@;
        let ghost t = p0.spec_add(direction);
        let to_position = self.player_position.add(direction);
        proof {
            assert(to_position == t);
            assert(t != p0);
        }
        let mut move_item = Move { player_move: direction, box_move: None };
        match grid.cell_at(to_position) {
            Cell::Box(uid) => {
                proof {
                    assert(box_at(boxes0, t)) by {
                        if !box_at(boxes0, t) {
                            assert(grid.cell(t) == self.level.grid.cell(t));
                            assert(self.level.grid.cells@[t.x + self.level.grid.width * t.y]
                                == self.level.grid.cell(t));
                            crate::level::lemma_row_major_index(
                                self.level.grid.width as int,
                                self.level.grid.height as int,
                                t.x as int,
                                t.y as int,
                            );
                        }
                    }
                    let i = choose|i: int| 0 <= i < boxes0.len() && boxes0[i] == t;
                    assert(grid.cell(boxes0[i]) == Cell::Box(i as usize));
                    assert(self.box_positions.len() == boxes0.len());
                    assert(uid == i as usize);
                    assert(box_index_at(boxes0, t) == i) by {
                        let j = box_index_at(boxes0, t);
                        assert(0 <= j < boxes0.len() && boxes0[j] == t);
                        if i < j {
                            assert(boxes0[i] != boxes0[j]);
                        } else if j < i {
                            assert(boxes0[j] != boxes0[i]);
                        }
                    }
                }
                let beyond = to_position.add(direction);
                self.box_positions[uid] = beyond;
                move_item.box_move = Some(uid);
            },
            _ => {
                proof {
                    assert(!box_at(boxes0, t)) by {
                        if box_at(boxes0, t) {
                            let i = choose|i: int| 0 <= i < boxes0.len() && boxes0[i] == t;
                            assert(grid.cell(boxes0[i]) == Cell::Box(i as usize));
                        }
                    }
                }
            },
        }
        self.player_position = to_position;
        self.move_history.push(move_item);
        proof {
            let m = move_record(p0, boxes0, direction);
            assert(move_item == m);
            assert(self.move_history@.drop_last() =~= old(self).move_history@);
            assert(move_ok(self.level, (p0, boxes0), m));
            assert(replay(self.level, self.move_history@) == step((p0, boxes0), m));
            assert(legal_history(self.level, self.move_history@));
        }
    }

    /// Takes back the most recent move, if any: the recorded direction is
    /// subtracted from the player's position and, if the move pushed a box,
    /// from that box's position, both reverted together. With an empty
    /// history this does nothing.
    pub fn undo(&mut self)
        requires
            old(self).wf(),
        ensures
            final(self).wf(),
            final(self).level == old(self).level,
            old(self).move_history@.len() == 0 ==> {
                &&& final(self).player_position == old(self).player_position
                &&& final(self).box_positions@ == old(self).box_positions@
                &&& final(self).move_history@ == old(self).move_history@
            },
            old(self).move_history@.len() > 0 ==> ({
                let m = old(self).move_history@.last();
                &&& final(self).move_history@ == old(self).move_history@.drop_last()
                &&& final(self).player_position == old(self).player_position.spec_sub(
                    m.player_move,
                )
                &&& match m.box_move {
                    Option::None => final(self).box_positions@ == old(self).box_positions@,
                    Option::Some(b) => final(self).box_positions@ == old(
                        self,
                    ).box_positions@.update(
                        b as int,
                        old(self).box_positions@[b as int].spec_sub(m.player_move),
                    ),
                }
            }),
    {
        let move_item = match self.move_history.pop() {
            None => {
                return ;
            },
            Some(m) => m,
        };
        let ghost prefix = old(self).move_history@.drop_last();
        let ghost prev = replay(self.level, prefix);
        let ghost t = prev.0.spec_add(move_item.player_move);
        proof {
            assert(self.move_history@ =~= prefix);
            assert(legal_history(self.level, prefix));
            assert(move_ok(self.level, prev, move_item));
            lemma_replay_ok(self.level, prefix);
            assert(old(self).player_position == t);
            assert(t.x == prev.0.x + move_item.player_move.x);
            assert(t.y == prev.0.y + move_item.player_move.y);
        }
        let d = move_item.player_move;
        let p = self.player_position.sub(d);
        self.player_position = p;
        proof {
            assert(self.player_position == prev.0);
        }
        if let Some(box_id) = move_item.box_move {
            proof {
                assert(prev.1.len() == self.level.box_positions@.len());
                assert(old(self).box_positions@ == prev.1.update(box_id as int, t.spec_add(d)));
                assert(self.box_positions.len() == old(self).box_positions@.len());
                assert(old(self).box_positions@[box_id as int] == t.spec_add(d));
                assert(t.spec_add(d).x == t.x + d.x && t.spec_add(d).y == t.y + d.y);
            }
            let bp = self.box_positions[box_id];
            let nbp = bp.sub(d);
            proof {
                assert(nbp == t);
                assert(prev.1[box_id as int] == t);
            }
            self.box_positions[box_id] = nbp;
            proof {
                assert(self.box_positions@ =~= prev.1);
            }
        }
        proof {
            assert(self.player_position == replay(self.level, self.move_history@).0);
            assert(self.box_positions@ == replay(self.level, self.move_history@).1);
        }
    }

    /// True exactly when every box stands on a target cell of the template.
    pub fn level_is_complete(&self) -> (r: bool)
        requires
            self.wf(),
        ensures
            r == self.spec_complete(),
    {
        proof {
            lemma_replay_ok(self.level, self.move_history@);
        }
        let mut i: usize = 0;
        while i < self.box_positions.len()
            invariant
                self.wf(),
                ok_state(self.level, self.player_position, self.box_positions@),
                i <= self.box_positions@.len(),
                forall|j: int|
                    0 <= j < i ==> self.level.grid.cell(#[trigger] self.box_positions@[j])
                        is Target,
            decreases self.box_positions@.len() - i,
        {
            let pos = self.box_positions[i];
            let cell = self.level.grid.cell_at(pos);
            if cell != Cell::Target {
                return false;
            }
            i += 1;
        }
        true
    }
}

/// Every reachable session state is sound: the player stands inside the
/// grid on free ground — never on a wall and never on a box — every box
/// stands inside the grid on free ground, and no two boxes coincide. This
/// holds after any sequence of legal moves, undos and resets, because each
/// of them keeps the session well-formed.
pub proof fn lemma_session_sound(s: GameState)
    requires
        s.wf(),
    ensures
        ok_state(s.level, s.player_position, s.box_positions@),
{
    lemma_replay_ok(s.level, s.move_history@);
}

/// Resetting is the same as loading afresh: two well-formed sessions of
/// levels with the same content and with empty histories — one just reset,
/// one freshly constructed — agree on the player position and on every
/// box position.
pub proof fn lemma_reset_is_fresh_load(a: GameState, b: GameState)
    requires
        a.wf(),
        b.wf(),
        a.level.like(b.level),
        a.move_history@.len() == 0,
        b.move_history@.len() == 0,
    ensures
        a.player_position == b.player_position,
        a.box_positions@ == b.box_positions@,
{
}

/// A session whose history has emptied — say after as many undos as moves,
/// each undo removing exactly the latest move — stands exactly at the
/// level's start positions.
pub proof fn lemma_empty_history_at_start(s: GameState)
    requires
        s.wf(),
        s.move_history@.len() == 0,
    ensures
        s.player_position == s.level.start_position,
        s.box_positions@ == s.level.box_positions@,
{
}

/// Undoing is the exact inverse of one legal move: after stepping by a
/// legal record, subtracting its direction from the player — and from the
/// recorded box, if one was pushed — restores the state the move was made
/// in.
pub proof fn lemma_undo_inverts_step(level: Level, p: Position, boxes: Seq<Position>, m: Move)
    requires
        level.wf(),
        ok_state(level, p, boxes),
        move_ok(level, (p, boxes), m),
    ensures
        ({
            let st = step((p, boxes), m);
            &&& st.0.spec_sub(m.player_move) == p
            &&& match m.box_move {
                Option::None => st.1 == boxes,
                Option::Some(b) => st.1.update(
                    b as int,
                    st.1[b as int].spec_sub(m.player_move),
                ) == boxes,
            }
        }),
{
    let d = m.player_move;
    let t = p.spec_add(d);
    assert(t.x == p.x + d.x && t.y == p.y + d.y);
    if let Option::Some(b) = m.box_move {
        let st = step((p, boxes), m);
        let n = t.spec_add(d);
        assert(n.x == t.x + d.x && n.y == t.y + d.y);
        assert(st.1[b as int] == n);
        assert(n.spec_sub(d) == t);
        assert(boxes[b as int] == t);
        assert(st.1.update(b as int, t) =~= boxes);
    }
}

/// On a rendered snapshot, the grid-level legality check answers exactly
/// the engine-level one: a move is legal on the overlay grid if and only if
/// it is legal in the session state the overlay was drawn from.
pub proof fn lemma_grid_can_move(s: GameState, g: Grid, d: Direction)
    requires
        s.wf(),
        ok_state(s.level, s.player_position, s.box_positions@),
        s.grid_matches(g),
        d.is_unit(),
    ensures
        g.spec_can_move(s.player_position, d) == state_can_move(
            s.level,
            s.player_position,
            s.box_positions@,
            d,
        ),
{
    let lvl = s.level;
    let p = s.player_position;
    let boxes = s.box_positions@;
    let t = p.spec_add(d);
    if lvl.grid.in_bounds_xy(p.x + d.x, p.y + d.y) {
        assert(t.x == p.x + d.x && t.y == p.y + d.y);
        assert(t != p);
        assert(lvl.grid.in_bounds(t));
        assert(g.in_bounds(t));
        if box_at(boxes, t) {
            let i = choose|i: int| 0 <= i < boxes.len() && boxes[i] == t;
            assert(g.cell(boxes[i]) == Cell::Box(i as usize));
            assert(g.cell(t) is Box);
            if lvl.grid.in_bounds_xy(t.x + d.x, t.y + d.y) {
                let n = t.spec_add(d);
                assert(n.x == t.x + d.x && n.y == t.y + d.y);
                assert(n != t);
                assert(n != p);
                assert(lvl.grid.in_bounds(n));
                if box_at(boxes, n) {
                    let j = choose|j: int| 0 <= j < boxes.len() && boxes[j] == n;
                    assert(g.cell(boxes[j]) == Cell::Box(j as usize));
                    assert(!g.cell(n).passable());
                } else {
                    assert(g.cell(n) == lvl.grid.cell(n));
                }
            }
        } else {
            assert(g.cell(t) == lvl.grid.cell(t));
            assert(!(lvl.grid.cell(t) is Box) && !(lvl.grid.cell(t) is Player)) by {
                assert(lvl.grid.cells@[t.x + lvl.grid.width * t.y] == lvl.grid.cell(t));
                crate::level::lemma_row_major_index(
                    lvl.grid.width as int,
                    lvl.grid.height as int,
                    t.x as int,
                    t.y as int,
                );
            }
        }
    }
}

/// Replaying a legal history always lands in a sound state.
pub proof fn lemma_replay_ok(level: Level, moves: Seq<Move>)
    requires
        level.wf(),
        legal_history(level, moves),
    ensures
        ({
            let st = replay(level, moves);
            ok_state(level, st.0, st.1)
        }),
    decreases moves.len(),
{
    if moves.len() == 0 {
        lemma_start_ok(level);
    } else {
        lemma_replay_ok(level, moves.drop_last());
        let st = replay(level, moves.drop_last());
        lemma_step_ok(level, st.0, st.1, moves.last());
    }
}

} // verus!
