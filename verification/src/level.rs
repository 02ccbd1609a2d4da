//! Static level geometry: cells, the rectangular grid, and the level loader
//! that turns a textual description into a template grid, a player start
//! position and the initial box positions.

use vstd::arithmetic::div_mod::lemma_div_pos_is_pos;
use vstd::arithmetic::div_mod::lemma_fundamental_div_mod;
use vstd::arithmetic::div_mod::lemma_fundamental_div_mod_converse;
use vstd::arithmetic::div_mod::lemma_fundamental_div_mod_converse_div;
use vstd::arithmetic::div_mod::lemma_mod_bound;
use vstd::arithmetic::div_mod::lemma_multiply_divide_lt;
use vstd::prelude::*;
use vstd::string::StringExecFns;

use crate::math::Direction;
use crate::math::Position;

verus! {

/// One cell of a grid. `Player` and `Box` only ever appear in a rendered
/// snapshot or in freshly parsed text, never in a level's stored template.
#[derive(Clone, Copy, PartialEq, Eq, Structural, Debug)]
pub enum Cell {
    Wall,
    Empty,
    Player,
    Box(usize),
    Target,
}

impl Cell {
    /// Ground the player (or a pushed box) may occupy.
    pub open spec fn passable(self) -> bool {
        self is Empty || self is Target
    }

    /// The fixed glyph table: one drawing character per cell kind.
    pub open spec fn spec_char(self) -> char {
        match self {
            Cell::Wall => '#',
            Cell::Empty => ' ',
            Cell::Player => '@',
            Cell::Box(_) => 'Q',
            Cell::Target => 'X',
        }
    }

    pub fn to_char(self) -> (c: char)
        ensures
            c == self.spec_char(),
    {
        match self {
            Cell::Wall => '#',
            Cell::Empty => ' ',
            Cell::Player => '@',
            Cell::Box(_) => 'Q',
            Cell::Target => 'X',
        }
    }

    /// The same glyph as a one-character string slice, for building lines.
    pub fn glyph(self) -> (g: &'static str)
        ensures
            g@ =~= seq![self.spec_char()],
    {
        proof {
            reveal_strlit("#");
            reveal_strlit(" ");
            reveal_strlit("@");
            reveal_strlit("Q");
            reveal_strlit("X");
        }
        match self {
            Cell::Wall => "#",
            Cell::Empty => " ",
            Cell::Player => "@",
            Cell::Box(_) => "Q",
            Cell::Target => "X",
        }
    }
}

/// The cell a level character stands for. `' '` and `'.'` are empty ground;
/// every unrecognized character is read as empty too, which preserves the
/// layout of the row it stands in.
pub open spec fn cell_of_char(c: char) -> Cell {
    if c == '#' {
        Cell::Wall
    } else if c == '@' {
        Cell::Player
    } else if c == 'Q' {
        Cell::Box(0)
    } else if c == 'X' {
        Cell::Target
    } else {
        Cell::Empty
    }
}

pub fn char_to_cell(c: char) -> (r: Cell)
    ensures
        r == cell_of_char(c),
{
    match c {
        '#' => Cell::Wall,
        '@' => Cell::Player,
        'Q' => Cell::Box(0),
        'X' => Cell::Target,
        _ => Cell::Empty,
    }
}

/// A rectangular field of cells stored row-major: the cell at (x, y) sits at
/// index `x + width * y`.
#[derive(Debug)]
pub struct Grid {
    pub cells: Vec<Cell>,
    pub width: usize,
    pub height: usize,
}

impl Grid {
    pub open spec fn wf(self) -> bool {
        &&& 0 < self.width <= i32::MAX
        &&& 0 < self.height <= i32::MAX
        &&& self.cells@.len() == self.width * self.height
    }

    pub open spec fn in_bounds_xy(self, x: int, y: int) -> bool {
        0 <= x < self.width && 0 <= y < self.height
    }

    pub open spec fn in_bounds(self, p: Position) -> bool {
        self.in_bounds_xy(p.x as int, p.y as int)
    }

    pub open spec fn cell(self, p: Position) -> Cell {
        self.cells@[p.x + self.width * p.y]
    }

    /// Only walls, empty ground and targets: no player, no boxes.
    pub open spec fn template_only(self) -> bool {
        forall|k: int|
            0 <= k < self.cells@.len() ==> !((#[trigger] self.cells@[k]) is Player) && !(
            self.cells@[k] is Box)
    }

    pub fn cell_at(&self, position: Position) -> (c: Cell)
        requires
            self.wf(),
            self.in_bounds(position),
        ensures
            c == self.cell(position),
    {
        proof {
            lemma_row_major_index(
                self.width as int,
                self.height as int,
                position.x as int,
                position.y as int,
            );
        }
        let n = self.cells.len();
        assert(position.x + self.width * position.y < n);
        self.cells[position.x as usize + self.width * position.y as usize]
    }

    pub fn set_cell(&mut self, position: Position, value: Cell)
        requires
            old(self).wf(),
            old(self).in_bounds(position),
        ensures
            final(self).wf(),
            final(self).width == old(self).width,
            final(self).height == old(self).height,
            final(self).cells@ == old(self).cells@.update(
                position.x + old(self).width * position.y,
                value,
            ),
            final(self).cell(position) == value,
            forall|q: Position|
                old(self).in_bounds(q) && q != position ==> final(self).cell(q) == old(self).cell(
                    q,
                ),
    {
        proof {
            lemma_row_major_index(
                self.width as int,
                self.height as int,
                position.x as int,
                position.y as int,
            );
            assert(position.x + self.width * position.y < self.cells@.len());
            assert forall|q: Position| self.in_bounds(q) && q != position implies 0 <= q.x
                + self.width * q.y < self.cells@.len() && q.x + self.width * q.y != position.x
                + self.width * position.y by {
                lemma_row_major_index(self.width as int, self.height as int, q.x as int, q.y as int);
                if q.x + self.width * q.y == position.x + self.width * position.y {
                    lemma_row_major_injective(
                        self.width as int,
                        self.height as int,
                        position.x as int,
                        position.y as int,
                        q.x as int,
                        q.y as int,
                    );
                }
            }
        }
        let n = self.cells.len();
        assert(position.x + self.width * position.y < n);
        self.cells[position.x as usize + self.width * position.y as usize] = value;
    }

    /// The characters of row `y`, one glyph per cell.
    pub open spec fn row_chars(self, y: int) -> Seq<char> {
        Seq::new(
            self.width as nat,
            |x: int| self.cell(Position { x: x as i32, y: y as i32 }).spec_char(),
        )
    }

    /// One line of text per row, using the fixed glyph table.
    pub fn to_lines(&self) -> (lines: Vec<String>)
        requires
            self.wf(),
        ensures
            lines@.len() == self.height,
            forall|y: int| 0 <= y < self.height ==> (#[trigger] lines@[y])@ == self.row_chars(y),
    {
        let mut lines: Vec<String> = Vec::new();
        let mut y: usize = 0;
        while y < self.height
            invariant
                self.wf(),
                y <= self.height,
                lines@.len() == y,
                forall|yy: int| 0 <= yy < y ==> (#[trigger] lines@[yy])@ == self.row_chars(yy),
            decreases self.height - y,
        {
            let mut line = String::new();
            let mut x: usize = 0;
            while x < self.width
                invariant
                    self.wf(),
                    y < self.height,
                    x <= self.width,
                    line@ == self.row_chars(y as int).take(x as int),
                decreases self.width - x,
            {
                let c = self.cell_at(Position { x: x as i32, y: y as i32 });
                line.append(c.glyph());
                proof {
                    assert(line@ =~= self.row_chars(y as int).take(x + 1));
                }
                x += 1;
            }
            proof {
                assert(self.row_chars(y as int).take(self.width as int) =~= self.row_chars(
                    y as int,
                ));
            }
            lines.push(line);
            y += 1;
        }
        lines
    }

    /// The standard push rule, read off this grid alone: the target cell
    /// must lie inside the grid and be free ground; if it holds a box, the
    /// cell beyond the box must lie inside the grid and be free ground.
    /// A cell past the grid's rim is out of bounds, so moves and pushes
    /// over the far edge are illegal, exactly as over the near one.
    pub open spec fn spec_can_move(self, from: Position, d: Direction) -> bool {
        &&& self.in_bounds_xy(from.x + d.x, from.y + d.y)
        &&& {
            let t = from.spec_add(d);
            if self.cell(t).passable() {
                true
            } else if self.cell(t) is Box {
                &&& self.in_bounds_xy(t.x + d.x, t.y + d.y)
                &&& self.cell(t.spec_add(d)).passable()
            } else {
                false
            }
        }
    }

    /// Whether the player standing on `from_position` may move one step in
    /// `direction`, under the push rule above.
    pub fn player_can_move(&self, from_position: Position, direction: Direction) -> (r: bool)
        requires
            self.wf(),
            self.in_bounds(from_position),
            direction.is_unit(),
        ensures
            r == self.spec_can_move(from_position, direction),
    {
        let tx = from_position.x + direction.x;
        let ty = from_position.y + direction.y;
        if tx < 0 || ty < 0 || tx >= self.width as i32 || ty >= self.height as i32 {
            return false;
        }
        let to_position = Position { x: tx, y: ty };
        if self.is_empty(to_position) {
            return true;
        }
        match self.cell_at(to_position) {
            Cell::Box(_) => {
                let nx = tx + direction.x;
                let ny = ty + direction.y;
                if nx < 0 || ny < 0 || nx >= self.width as i32 || ny >= self.height as i32 {
                    return false;
                }
                self.is_empty(Position { x: nx, y: ny })
            },
            _ => false,
        }
    }

    /// A fresh grid with the same cells and dimensions.
    pub fn duplicate(&self) -> (g: Grid)
        ensures
            g.cells@ == self.cells@,
            g.width == self.width,
            g.height == self.height,
    {
        Grid { cells: copy_vec(&self.cells), width: self.width, height: self.height }
    }

    pub fn is_empty(&self, position: Position) -> (r: bool)
        requires
            self.wf(),
            self.in_bounds(position),
        ensures
            r == self.cell(position).passable(),
    {
        let cell = self.cell_at(position);
        cell == Cell::Empty || cell == Cell::Target
    }
}

/// A parsed level: the static template grid (walls, ground and targets
/// only), the player's start position, and the start position of each box.
/// Box identities are the indices into `box_positions`, assigned in row-major
/// scan order when the level text is parsed.
#[derive(Debug)]
pub struct Level {
    pub grid: Grid,
    pub start_position: Position,
    pub box_positions: Vec<Position>,
}

impl Level {
    pub open spec fn wf(self) -> bool {
        &&& self.grid.wf()
        &&& self.grid.template_only()
        &&& self.grid.in_bounds(self.start_position)
        &&& self.grid.cell(self.start_position).passable()
        &&& forall|i: int|
            0 <= i < self.box_positions@.len() ==> {
                &&& self.grid.in_bounds(#[trigger] self.box_positions@[i])
                &&& self.grid.cell(self.box_positions@[i]).passable()
                &&& self.box_positions@[i] != self.start_position
            }
        &&& forall|i: int, j: int|
            0 <= i < j < self.box_positions@.len() ==> self.box_positions@[i]
                != self.box_positions@[j]
    }

    /// Same geometry, same start, same boxes.
    pub open spec fn like(self, other: Level) -> bool {
        &&& self.grid.cells@ == other.grid.cells@
        &&& self.grid.width == other.grid.width
        &&& self.grid.height == other.grid.height
        &&& self.start_position == other.start_position
        &&& self.box_positions@ == other.box_positions@
    }

    pub fn duplicate(&self) -> (r: Level)
        ensures
            r.like(*self),
    {
        Level {
            grid: Grid {
                cells: copy_vec(&self.grid.cells),
                width: self.grid.width,
                height: self.grid.height,
            },
            start_position: self.start_position,
            box_positions: copy_vec(&self.box_positions),
        }
    }
}

/// Levels with the same content are well-formed together.
pub proof fn lemma_like_wf(a: Level, b: Level)
    requires
        a.like(b),
    ensures
        a.wf() <==> b.wf(),
{
    assert(forall|p: Position| a.grid.in_bounds(p) <==> b.grid.in_bounds(p));
    assert(forall|p: Position| a.grid.cell(p) == b.grid.cell(p));
}

/// An element-by-element copy of a vector of plain values.
pub(crate) fn copy_vec<T: Copy>(v: &Vec<T>) -> (r: Vec<T>)
    ensures
        r@ == v@,
{
    let mut r: Vec<T> = Vec::new();
    let mut i: usize = 0;
    while i < v.len()
        invariant
            i <= v@.len(),
            r@ == v@.take(i as int),
        decreases v@.len() - i,
    {
        r.push(v[i]);
        proof {
            assert(v@.take(i + 1) =~= v@.take(i as int).push(v@[i as int]));
        }
        i += 1;
    }
    proof {
        assert(v@.take(v@.len() as int) =~= v@);
    }
    r
}

/// What a freshly read cell leaves behind in the template: the player and
/// the boxes are tracked separately, so their cells become empty ground.
pub open spec fn strip(c: Cell) -> Cell {
    match c {
        Cell::Player => Cell::Empty,
        Cell::Box(_) => Cell::Empty,
        _ => c,
    }
}

/// The rows of a text, split at every line break, as the standard library's
/// `split('\n')` yields them: an empty text is one empty row, and a trailing
/// break opens one more (empty) row.
pub open spec fn split_lines(s: Seq<char>) -> Seq<Seq<char>>
    decreases s.len(),
{
    if s.len() == 0 {
        seq![Seq::<char>::empty()]
    } else {
        let prev = split_lines(s.drop_last());
        if s.last() == '\n' {
            prev.push(Seq::<char>::empty())
        } else {
            prev.update(prev.len() - 1, prev.last().push(s.last()))
        }
    }
}

pub proof fn lemma_split_lines_nonempty(s: Seq<char>)
    ensures
        split_lines(s).len() >= 1,
    decreases s.len(),
{
    if s.len() > 0 {
        lemma_split_lines_nonempty(s.drop_last());
    }
}

/// The length of the widest row; shorter rows are right-padded up to it.
pub open spec fn max_line_len(lines: Seq<Seq<char>>) -> int
    decreases lines.len(),
{
    if lines.len() == 0 {
        0
    } else {
        let prev = max_line_len(lines.drop_last());
        if lines.last().len() > prev {
            lines.last().len() as int
        } else {
            prev
        }
    }
}

/// The cell at column `x` of row `y`, after right-padding with empty ground.
pub open spec fn raw_cell(lines: Seq<Seq<char>>, x: int, y: int) -> Cell {
    if x < lines[y].len() {
        cell_of_char(lines[y][x])
    } else {
        Cell::Empty
    }
}

/// All cells of the padded rows in row-major order, before the player and
/// the boxes are stripped out.
pub open spec fn raw_cells(lines: Seq<Seq<char>>, w: int) -> Seq<Cell> {
    Seq::new((w * lines.len()) as nat, |k: int| raw_cell(lines, k % w, k / w))
}

pub open spec fn has_player(cells: Seq<Cell>) -> bool {
    exists|k: int| 0 <= k < cells.len() && cells[k] is Player
}

pub open spec fn player_unique(cells: Seq<Cell>) -> bool {
    forall|k1: int, k2: int|
        0 <= k1 < cells.len() && 0 <= k2 < cells.len() && cells[k1] is Player && cells[k2] is Player
            ==> k1 == k2
}

/// The row-major indices of the box cells, in scan order. Their order in
/// this sequence is each box's identity.
pub open spec fn box_indices(cells: Seq<Cell>) -> Seq<int>
    decreases cells.len(),
{
    if cells.len() == 0 {
        Seq::<int>::empty()
    } else {
        let prev = box_indices(cells.drop_last());
        if cells.last() is Box {
            prev.push(cells.len() - 1)
        } else {
            prev
        }
    }
}

pub proof fn lemma_box_indices_props(cells: Seq<Cell>)
    ensures
        forall|i: int|
            0 <= i < box_indices(cells).len() ==> 0 <= #[trigger] box_indices(cells)[i]
                < cells.len() && cells[box_indices(cells)[i]] is Box,
        forall|i: int, j: int|
            0 <= i < j < box_indices(cells).len() ==> box_indices(cells)[i] < box_indices(
                cells,
            )[j],
    decreases cells.len(),
{
    if cells.len() > 0 {
        lemma_box_indices_props(cells.drop_last());
    }
}

/// The grid position of row-major index `k` in a grid `w` cells wide.
pub open spec fn pos_at(k: int, w: int) -> Position {
    Position { x: (k % w) as i32, y: (k / w) as i32 }
}

/// Each box's start position, ordered by identity.
pub open spec fn box_positions_of(cells: Seq<Cell>, w: int) -> Seq<Position> {
    box_indices(cells).map_values(|k: int| pos_at(k, w))
}

/// The level texts the loader accepts: the padded grid must hold exactly one
/// player cell, and the dimensions must fit the coordinate type.
pub open spec fn parse_accepts(s: Seq<char>) -> bool {
    let lines = split_lines(s);
    let w = max_line_len(lines);
    let raw = raw_cells(lines, w);
    &&& w <= i32::MAX
    &&& lines.len() <= i32::MAX
    &&& has_player(raw)
    &&& player_unique(raw)
}

/// How a parsed `Level` relates to the text it was read from: the template
/// is the stripped padded grid, the start position is the player cell, and
/// the boxes are the box cells in row-major order.
pub open spec fn level_matches(level: Level, s: Seq<char>) -> bool {
    let lines = split_lines(s);
    let w = max_line_len(lines);
    let raw = raw_cells(lines, w);
    &&& level.grid.width == w
    &&& level.grid.height == lines.len()
    &&& level.grid.cells@.len() == raw.len()
    &&& forall|k: int| 0 <= k < raw.len() ==> level.grid.cells@[k] == strip(#[trigger] raw[k])
    &&& level.grid.in_bounds(level.start_position)
    &&& raw[level.start_position.x + w * level.start_position.y] is Player
    &&& level.box_positions@ == box_positions_of(raw, w)
}

/// The rows a vector of row vectors stands for.
pub open spec fn views_of(lines: Seq<Vec<char>>) -> Seq<Seq<char>> {
    lines.map_values(|l: Vec<char>| l@)
}

/// A valid row-major index splits into in-bounds coordinates.
pub proof fn lemma_pos_index(w: int, h: int, k: int)
    requires
        0 < w,
        w <= i32::MAX,
        h <= i32::MAX,
        0 <= k < w * h,
    ensures
        0 <= k % w < w,
        0 <= k / w < h,
        k == (k % w) + w * (k / w),
        pos_at(k, w).x as int == k % w,
        pos_at(k, w).y as int == k / w,
{
    lemma_mod_bound(k, w);
    lemma_fundamental_div_mod(k, w);
    lemma_div_pos_is_pos(k, w);
    lemma_multiply_divide_lt(k, w, h);
}

/// In-bounds coordinates are recovered from their row-major index.
pub proof fn lemma_index_of_xy(w: int, x: int, y: int)
    requires
        0 < w,
        0 <= x < w,
        0 <= y,
    ensures
        (x + w * y) % w == x,
        (x + w * y) / w == y,
{
    assert(x + w * y == y * w + x) by (nonlinear_arith);
    lemma_fundamental_div_mod_converse(x + w * y, w, y, x);
    lemma_fundamental_div_mod_converse_div(x + w * y, w, y, x);
}

/// A cell of a partly filled row still lies within the whole field.
proof fn lemma_partial_index_bound(w: int, h: int, x: int, y: int)
    requires
        0 <= x <= w,
        0 <= y < h,
    ensures
        w * y + x <= w * h,
{
    assert(w * y + x <= w * h) by (nonlinear_arith)
        requires
            0 <= x <= w,
            0 <= y < h,
    ;
}

/// Reads a textual level description. Rows are split at line breaks and
/// right-padded with empty ground up to the widest row; each character maps
/// to a cell through the fixed glyph table, unrecognized ones to empty
/// ground. The text must hold exactly one player cell: a text without one is
/// rejected, and so is one with several, rather than picking an arbitrary
/// occurrence. Boxes are numbered 0, 1, 2, ... in row-major scan order, so
/// the same text always yields the same identities. The player and box cells
/// are stripped out of the stored template grid.
pub fn parse_level(level_string: &str) -> (r: Result<Level, String>)
    ensures
        r is Ok <==> parse_accepts(level_string@),
        r matches Ok(level) ==> level.wf() && level_matches(level, level_string@),
        r matches Err(m) ==> ({
            let lines = split_lines(level_string@);
            let w = max_line_len(lines);
            let raw = raw_cells(lines, w);
            if w > i32::MAX || lines.len() > i32::MAX {
                m@ == "Level is too large."@
            } else if !has_player(raw) {
                m@ == "Level is missing a player position."@
            } else {
                m@ == "Level has more than one player position."@
            }
        }),
{
    let ghost s = level_string@;
    let n = level_string.unicode_len();

    // Split the text into rows.
    let mut lines: Vec<Vec<char>> = Vec::new();
    let mut cur: Vec<char> = Vec::new();
    let mut i: usize = 0;
    while i < n
        invariant
            i <= n,
            n == s.len(),
            level_string@ == s,
            views_of(lines@).push(cur@) == split_lines(s.take(i as int)),
        decreases n - i,
    {
        let c = level_string.get_char(i);
        proof {
            assert(s.take(i + 1).drop_last() =~= s.take(i as int));
        }
        if c == '\n' {
            lines.push(cur);
            cur = Vec::new();
            proof {
                assert(views_of(lines@).push(cur@) =~= split_lines(s.take(i + 1)));
            }
        } else {
            cur.push(c);
            proof {
                let prev = split_lines(s.take(i as int));
                assert(views_of(lines@).push(cur@) =~= prev.update(
                    prev.len() - 1,
                    prev.last().push(c),
                ));
            }
        }
        i += 1;
    }
    lines.push(cur);
    let ghost ls = split_lines(s);
    proof {
        assert(s.take(n as int) =~= s);
        assert(views_of(lines@) =~= ls);
    }

    // The width is the length of the widest row.
    let height = lines.len();
    let mut width: usize = 0;
    let mut y: usize = 0;
    while y < height
        invariant
            y <= height,
            height == ls.len(),
            views_of(lines@) == ls,
            width as int == max_line_len(ls.take(y as int)),
        decreases height - y,
    {
        proof {
            assert(ls.take(y + 1).drop_last() =~= ls.take(y as int));
            assert(lines@[y as int]@ == ls[y as int]);
        }
        if lines[y].len() > width {
            width = lines[y].len();
        }
        y += 1;
    }
    proof {
        assert(ls.take(ls.len() as int) =~= ls);
    }

    // The stored coordinates are 32-bit integers: refuse what cannot fit.
    if width > (i32::MAX as usize) || height > (i32::MAX as usize) {
        return Err("Level is too large.".to_owned());
    }
    let ghost w = width as int;
    let ghost raw = raw_cells(ls, w);

    // Lay the padded rows out row-major.
    let mut cells: Vec<Cell> = Vec::new();
    let mut y: usize = 0;
    while y < height
        invariant
            y <= height,
            height == ls.len(),
            height <= i32::MAX,
            views_of(lines@) == ls,
            w == width as int,
            w <= i32::MAX,
            raw == raw_cells(ls, w),
            cells@ == raw.take(width * y),
            cells@.len() == width * y,
        decreases height - y,
    {
        let mut x: usize = 0;
        while x < width
            invariant
                x <= width,
                y < height,
                height == ls.len(),
                height <= i32::MAX,
                views_of(lines@) == ls,
                w == width as int,
                w <= i32::MAX,
                raw == raw_cells(ls, w),
                cells@ == raw.take(width * y + x),
                cells@.len() == width * y + x,
            decreases width - x,
        {
            let c = if x < lines[y].len() {
                proof {
                    assert(lines@[y as int]@ == ls[y as int]);
                }
                char_to_cell(lines[y][x])
            } else {
                Cell::Empty
            };
            cells.push(c);
            proof {
                let k = width * y + x;
                lemma_row_major_index(w, height as int, x as int, y as int);
                lemma_index_of_xy(w, x as int, y as int);
                lemma_partial_index_bound(w, height as int, x + 1, y as int);
                assert(lines@[y as int]@ == ls[y as int]);
                assert(raw[k] == raw_cell(ls, x as int, y as int));
                assert(c == raw_cell(ls, x as int, y as int));
                assert(cells@ =~= raw.take(k + 1));
            }
            x += 1;
        }
        proof {
            assert(width * y + width == width * (y + 1)) by (nonlinear_arith);
        }
        y += 1;
    }
    let total = cells.len();
    proof {
        assert(raw.len() == width * height);
        assert(cells@ =~= raw);
    }

    // There must be exactly one player cell; its index is the start.
    let mut found: Option<usize> = None;
    let mut k: usize = 0;
    while k < total
        invariant
            k <= total,
            total == cells@.len(),
            cells@ == raw,
            raw == raw_cells(ls, w),
            w == max_line_len(ls),
            ls == split_lines(s),
            level_string@ == s,
            w <= i32::MAX,
            ls.len() <= i32::MAX,
            match found {
                Option::None => forall|j: int| 0 <= j < k ==> !((#[trigger] raw[j]) is Player),
                Option::Some(k0) => {
                    &&& k0 < k
                    &&& raw[k0 as int] is Player
                    &&& forall|j: int| 0 <= j < k && j != k0 ==> !((#[trigger] raw[j]) is Player)
                },
            },
        decreases total - k,
    {
        let cell = cells[k];
        if matches!(cell, Cell::Player) {
            if found.is_some() {
                proof {
                    assert(has_player(raw));
                    assert(!player_unique(raw));
                }
                return Err("Level has more than one player position.".to_owned());
            }
            found = Some(k);
        }
        k += 1;
    }
    let start_index = match found {
        Some(k0) => k0,
        None => {
            proof {
                assert(!has_player(raw));
            }
            return Err("Level is missing a player position.".to_owned());
        },
    };
    proof {
        assert(w * height == raw.len());
        assert(w > 0) by {
            if w == 0 {
                assert(raw.len() == 0);
            }
        }
        lemma_pos_index(w, height as int, start_index as int);
        assert(has_player(raw));
        assert(player_unique(raw));
    }
    let start_position = Position {
        x: (start_index % width) as i32,
        y: (start_index / width) as i32,
    };

    // Collect the box start positions in scan order: index = identity.
    let mut box_positions: Vec<Position> = Vec::new();
    let mut k: usize = 0;
    while k < total
        invariant
            k <= total,
            total == cells@.len(),
            cells@ == raw,
            raw == raw_cells(ls, w),
            w == width as int,
            0 < w <= i32::MAX,
            height == ls.len(),
            height <= i32::MAX,
            w * height == raw.len(),
            box_positions@ == box_positions_of(raw.take(k as int), w),
        decreases total - k,
    {
        let cell = cells[k];
        proof {
            assert(raw.take(k + 1).drop_last() =~= raw.take(k as int));
        }
        if matches!(cell, Cell::Box(_)) {
            proof {
                lemma_pos_index(w, height as int, k as int);
            }
            box_positions.push(Position { x: (k % width) as i32, y: (k / width) as i32 });
            proof {
                assert(box_positions@ =~= box_positions_of(raw.take(k + 1), w));
            }
        } else {
            proof {
                assert(box_positions@ =~= box_positions_of(raw.take(k + 1), w));
            }
        }
        k += 1;
    }
    proof {
        assert(raw.take(total as int) =~= raw);
    }

    // Strip the player and the boxes out of the stored template.
    let mut k: usize = 0;
    while k < total
        invariant
            k <= total,
            total == cells@.len(),
            total == raw.len(),
            forall|j: int| 0 <= j < k ==> cells@[j] == strip(#[trigger] raw[j]),
            forall|j: int| k <= j < total ==> cells@[j] == #[trigger] raw[j],
        decreases total - k,
    {
        let cell = cells[k];
        match cell {
            Cell::Player => {
                cells[k] = Cell::Empty;
            },
            Cell::Box(_) => {
                cells[k] = Cell::Empty;
            },
            _ => {},
        }
        k += 1;
    }

    let grid = Grid { cells, width, height };
    let level = Level { grid, start_position, box_positions };
    proof {
        lemma_split_lines_nonempty(s);
        lemma_box_indices_props(raw);
        lemma_pos_index(w, height as int, start_index as int);
        assert(start_position.x + w * start_position.y == start_index);
        assert(raw[start_index as int] is Player);
        assert(level.grid.cell(start_position) == strip(raw[start_index as int]));
        let bp = box_positions_of(raw, w);
        assert forall|ii: int| 0 <= ii < bp.len() implies {
            &&& level.grid.in_bounds(#[trigger] bp[ii])
            &&& level.grid.cell(bp[ii]).passable()
            &&& bp[ii] != start_position
        } by {
            let kb = box_indices(raw)[ii];
            assert(bp[ii] == pos_at(kb, w));
            lemma_pos_index(w, height as int, kb);
            assert(bp[ii].x + w * bp[ii].y == kb);
            assert(level.grid.cell(bp[ii]) == strip(raw[kb]));
            if bp[ii] == start_position {
                assert(kb == start_index);
            }
        }
        assert forall|ii: int, jj: int| 0 <= ii < jj < bp.len() implies bp[ii] != bp[jj] by {
            let ki = box_indices(raw)[ii];
            let kj = box_indices(raw)[jj];
            lemma_pos_index(w, height as int, ki);
            lemma_pos_index(w, height as int, kj);
            if pos_at(ki, w) == pos_at(kj, w) {
                assert(ki == (ki % w) + w * (ki / w));
                assert(kj == (kj % w) + w * (kj / w));
            }
        }
        assert forall|kk: int| 0 <= kk < level.grid.cells@.len() implies !((
        #[trigger] level.grid.cells@[kk]) is Player) && !(level.grid.cells@[kk] is Box) by {
            assert(level.grid.cells@[kk] == strip(raw[kk]));
        }
        assert(level.box_positions@ == bp);
    }
    Ok(level)
}

/// Within a `w` by `h` field, the row-major index of (x, y) is a valid offset.
pub proof fn lemma_row_major_index(w: int, h: int, x: int, y: int)
    requires
        0 <= x < w,
        0 <= y < h,
    ensures
        0 <= x + w * y < w * h,
{
    assert(0 <= x + w * y < w * h) by (nonlinear_arith)
        requires
            0 <= x < w,
            0 <= y < h,
    ;
}

/// Distinct in-bounds coordinates have distinct row-major indices.
pub proof fn lemma_row_major_injective(w: int, h: int, x1: int, y1: int, x2: int, y2: int)
    requires
        0 <= x1 < w,
        0 <= y1 < h,
        0 <= x2 < w,
        0 <= y2 < h,
        x1 + w * y1 == x2 + w * y2,
    ensures
        x1 == x2 && y1 == y2,
{
    assert(x1 == x2 && y1 == y2) by (nonlinear_arith)
        requires
            0 <= x1 < w,
            0 <= y1 < h,
            0 <= x2 < w,
            0 <= y2 < h,
            x1 + w * y1 == x2 + w * y2,
    ;
}

} // verus!
