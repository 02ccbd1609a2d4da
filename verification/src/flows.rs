//! The screen-flow controller: an explicit state machine over the intro
//! screen, the per-level banner, the running game, the end screen and the
//! quit state. It owns exactly one active state, renders it as lines of
//! text, and feeds player commands into the puzzle engine.

use vstd::prelude::*;
use vstd::string::StringExecFns;

use crate::game::box_at;
use crate::game::boxes_on_targets;
use crate::game::lemma_grid_can_move;
use crate::game::lemma_session_sound;
use crate::game::move_record;
use crate::game::replay;
use crate::game::Move;
use crate::game::state_can_move;
use crate::game::step;
use crate::game::GameState;
use crate::level::lemma_like_wf;
use crate::level::level_matches;
use crate::level::parse_accepts;
use crate::level::parse_level;
use crate::level::Level;
use crate::math::Direction;
use crate::math::Position;
use crate::platform::Key;

verus! {

/// What one keypress asks of the game.
#[derive(Clone, Copy, PartialEq, Eq, Structural, Debug)]
pub enum Command {
    Move(i32, i32),
    RestartLevel,
    Quit,
    Undo,
    Unknown,
}

/// The command a key stands for: wasd move, r restarts, u undoes, q quits,
/// and every other key does nothing.
pub open spec fn spec_translate_input(input: Key) -> Command {
    match input {
        Key::W => Command::Move(0i32, -1i32),
        Key::A => Command::Move(-1i32, 0i32),
        Key::S => Command::Move(0i32, 1i32),
        Key::D => Command::Move(1i32, 0i32),
        Key::R => Command::RestartLevel,
        Key::Q => Command::Quit,
        Key::U => Command::Undo,
        _ => Command::Unknown,
    }
}

pub fn translate_input(input: Key) -> (c: Command)
    ensures
        c == spec_translate_input(input),
        c matches Command::Move(dx, dy) ==> (Direction { x: dx, y: dy }).is_unit(),
{
    match input {
        Key::W => Command::Move(0, -1),
        Key::A => Command::Move(-1, 0),
        Key::S => Command::Move(0, 1),
        Key::D => Command::Move(1, 0),
        Key::R => Command::RestartLevel,
        Key::Q => Command::Quit,
        Key::U => Command::Undo,
        _ => Command::Unknown,
    }
}

/// The built-in level table, smallest level first.
pub fn levels() -> (v: Vec<String>)
    ensures
        v@.len() == 3,
        v@[0]@ == "####\n@.QX\n####"@,
        v@[1]@ == "######\n#.@..#\n#X...#\n#..Q.#\n#....#\n######"@,
        v@[2]@ == "#######\n#.@...#\n#XX...#\n#..QQ.#\n#.....#\n#######"@,
{
    let mut v: Vec<String> = Vec::new();
    v.push(String::from_str("####\n@.QX\n####"));
    v.push(String::from_str("######\n#.@..#\n#X...#\n#..Q.#\n#....#\n######"));
    v.push(String::from_str("#######\n#.@...#\n#XX...#\n#..QQ.#\n#.....#\n#######"));
    v
}

/// The views of a sequence of strings.
pub open spec fn string_views(v: Seq<String>) -> Seq<Seq<char>> {
    v.map_values(|s: String| s@)
}

/// The decimal digit `d` stands for.
pub open spec fn digit_char(d: int) -> char {
    if d == 0 {
        '0'
    } else if d == 1 {
        '1'
    } else if d == 2 {
        '2'
    } else if d == 3 {
        '3'
    } else if d == 4 {
        '4'
    } else if d == 5 {
        '5'
    } else if d == 6 {
        '6'
    } else if d == 7 {
        '7'
    } else if d == 8 {
        '8'
    } else {
        '9'
    }
}

/// The decimal digits of `n`, most significant first.
pub open spec fn dec_digits(n: int) -> Seq<char>
    decreases n,
{
    if n < 10 {
        seq![digit_char(n)]
    } else {
        dec_digits(n / 10).push(digit_char(n % 10))
    }
}

fn digit_str(d: usize) -> (g: &'static str)
    requires
        d < 10,
    ensures
        g@ =~= seq![digit_char(d as int)],
{
    proof {
        reveal_strlit("0");
        reveal_strlit("1");
        reveal_strlit("2");
        reveal_strlit("3");
        reveal_strlit("4");
        reveal_strlit("5");
        reveal_strlit("6");
        reveal_strlit("7");
        reveal_strlit("8");
        reveal_strlit("9");
    }
    match d {
        0 => "0",
        1 => "1",
        2 => "2",
        3 => "3",
        4 => "4",
        5 => "5",
        6 => "6",
        7 => "7",
        8 => "8",
        _ => "9",
    }
}

/// Appends the decimal digits of `n`.
fn push_decimal(line: &mut String, n: usize)
    ensures
        final(line)@ == old(line)@ + dec_digits(n as int),
    decreases n,
{
    if n >= 10 {
        push_decimal(line, n / 10);
    }
    let d = n % 10;
    line.append(digit_str(d));
    proof {
        assert(line@ =~= old(line)@ + dec_digits(n as int));
    }
}

/// The intro banner.
pub open spec fn intro_lines() -> Seq<Seq<char>> {
    seq![
        "#########################"@,
        "#                       #"@,
        "#     Sokoban Mini      #"@,
        "#                       #"@,
        "#                       #"@,
        "#     wasd -> move      #"@,
        "#       r  -> reset     #"@,
        "#       u  -> undo      #"@,
        "#       q  -> quit      #"@,
        "#                       #"@,
        "#   Any key to start!   #"@,
        "#                       #"@,
        "#########################"@,
    ]
}

/// The banner shown before level `i`, with the level number written out.
pub open spec fn level_intro_lines(i: int) -> Seq<Seq<char>> {
    seq![
        "#########################"@,
        "#                       #"@,
        "#       Level "@ + dec_digits(i) + "         #"@,
        "#                       #"@,
        "#  Any key to continue  #"@,
        "#                       #"@,
        "#########################"@,
    ]
}

/// The end banner.
pub open spec fn end_lines() -> Seq<Seq<char>> {
    seq![
        "#########################"@,
        "#                       #"@,
        "#       The End!        #"@,
        "# All levels completed. #"@,
        "#                       #"@,
        "#   Congratulations!    #"@,
        "#                       #"@,
        "#   Any key to quit...  #"@,
        "#                       #"@,
        "#########################"@,
    ]
}

/// The running game: the engine session and which level of the table it
/// plays.
#[derive(Debug)]
pub struct GameFlow {
    pub game_state: GameState,
    pub level_index: usize,
}

/// The active screen. Exactly one is active at a time.
#[derive(Debug)]
pub enum Flow {
    Intro,
    LevelIntro(usize),
    Game(GameFlow),
    End,
    Quit,
}

/// The engine state (player, boxes, history) after one command lands in a
/// running game, before any screen transition: a legal move is applied and
/// recorded, an illegal one ignored; restart returns to the level's start
/// with an empty history; undo removes the latest move, if any; everything
/// else changes nothing.
pub open spec fn state_after_command(gs: GameState, command: Command) -> (
    Position,
    Seq<Position>,
    Seq<Move>,
) {
    let p = gs.player_position;
    let boxes = gs.box_positions@;
    let h = gs.move_history@;
    match command {
        Command::Move(dx, dy) => {
            let d = Direction { x: dx, y: dy };
            if state_can_move(gs.level, p, boxes, d) {
                let m = move_record(p, boxes, d);
                let st = step((p, boxes), m);
                (st.0, st.1, h.push(m))
            } else {
                (p, boxes, h)
            }
        },
        Command::RestartLevel => (
            gs.level.start_position,
            gs.level.box_positions@,
            Seq::<Move>::empty(),
        ),
        Command::Undo => {
            if h.len() == 0 {
                (p, boxes, h)
            } else {
                (replay(gs.level, h.drop_last()).0, replay(gs.level, h.drop_last()).1, h.drop_last())
            }
        },
        _ => (p, boxes, h),
    }
}

/// The controller: the one active screen and the immutable level table it
/// was built over.
#[derive(Debug)]
pub struct AppFlow {
    pub flow: Flow,
    pub levels: Vec<Level>,
}

impl AppFlow {
    pub open spec fn wf(self) -> bool {
        &&& self.levels@.len() >= 1
        &&& forall|i: int| 0 <= i < self.levels@.len() ==> (#[trigger] self.levels@[i]).wf()
        &&& match self.flow {
            Flow::LevelIntro(i) => i < self.levels@.len(),
            Flow::Game(gf) => {
                &&& gf.level_index < self.levels@.len()
                &&& gf.game_state.wf()
                &&& gf.game_state.level.like(self.levels@[gf.level_index as int])
            },
            _ => true,
        }
    }

    /// Parses every level text up front and opens on the intro screen, or
    /// reports which kind of failure stops the game from starting.
    pub fn new(level_texts: Vec<String>) -> (r: Result<AppFlow, String>)
        ensures
            r is Ok <==> level_texts@.len() >= 1 && (forall|i: int|
                0 <= i < level_texts@.len() ==> parse_accepts((#[trigger] level_texts@[i])@)),
            r matches Ok(app) ==> {
                &&& app.wf()
                &&& app.flow is Intro
                &&& app.levels@.len() == level_texts@.len()
                &&& forall|i: int|
                    0 <= i < level_texts@.len() ==> level_matches(
                        #[trigger] app.levels@[i],
                        level_texts@[i]@,
                    )
            },
            r matches Err(m) ==> {
                if level_texts@.len() == 0 {
                    m@ == "There are no levels to play."@
                } else {
                    m@ == "Failed parsing level."@
                }
            },
    {
        if level_texts.len() == 0 {
            return Err("There are no levels to play.".to_owned());
        }
        let mut parsed: Vec<Level> = Vec::new();
        let mut i: usize = 0;
        while i < level_texts.len()
            invariant
                i <= level_texts@.len(),
                parsed@.len() == i,
                forall|j: int| 0 <= j < i ==> (#[trigger] parsed@[j]).wf(),
                forall|j: int|
                    0 <= j < i ==> level_matches(#[trigger] parsed@[j], level_texts@[j]@),
                forall|j: int| 0 <= j < i ==> parse_accepts((#[trigger] level_texts@[j])@),
            decreases level_texts@.len() - i,
        {
            let level = match parse_level(level_texts[i].as_str()) {
                Ok(level) => level,
                Err(_) => {
                    return Err("Failed parsing level.".to_owned());
                },
            };
            parsed.push(level);
            i += 1;
        }
        Ok(AppFlow { flow: Flow::Intro, levels: parsed })
    }

    /// Whether the controller has reached its terminal state.
    pub fn should_quit(&self) -> (r: bool)
        ensures
            r == (self.flow is Quit),
    {
        matches!(self.flow, Flow::Quit)
    }

    /// What the active screen shows: a banner, the rendered grid of the
    /// running game, or nothing at all once the controller has quit.
    pub fn render(&self) -> (lines: Vec<String>)
        requires
            self.wf(),
        ensures
            match self.flow {
                Flow::Intro => string_views(lines@) == intro_lines(),
                Flow::LevelIntro(i) => string_views(lines@) == level_intro_lines(i as int),
                Flow::Game(gf) => {
                    &&& lines@.len() == gf.game_state.level.grid.height
                    &&& forall|y: int|
                        0 <= y < lines@.len() ==> (#[trigger] lines@[y])@
                            == gf.game_state.rendered_line(y)
                },
                Flow::End => string_views(lines@) == end_lines(),
                Flow::Quit => lines@.len() == 0,
            },
    {
        match &self.flow {
            Flow::Intro => {
                let mut lines: Vec<String> = Vec::new();
                lines.push(String::from_str("#########################"));
                lines.push(String::from_str("#                       #"));
                lines.push(String::from_str("#     Sokoban Mini      #"));
                lines.push(String::from_str("#                       #"));
                lines.push(String::from_str("#                       #"));
                lines.push(String::from_str("#     wasd -> move      #"));
                lines.push(String::from_str("#       r  -> reset     #"));
                lines.push(String::from_str("#       u  -> undo      #"));
                lines.push(String::from_str("#       q  -> quit      #"));
                lines.push(String::from_str("#                       #"));
                lines.push(String::from_str("#   Any key to start!   #"));
                lines.push(String::from_str("#                       #"));
                lines.push(String::from_str("#########################"));
                proof {
                    assert(string_views(lines@) =~= intro_lines());
                }
                lines
            },
            Flow::LevelIntro(i) => {
                let mut lines: Vec<String> = Vec::new();
                lines.push(String::from_str("#########################"));
                lines.push(String::from_str("#                       #"));
                let mut number_line = String::from_str("#       Level ");
                push_decimal(&mut number_line, *i);
                number_line.append("         #");
                lines.push(number_line);
                lines.push(String::from_str("#                       #"));
                lines.push(String::from_str("#  Any key to continue  #"));
                lines.push(String::from_str("#                       #"));
                lines.push(String::from_str("#########################"));
                proof {
                    assert(string_views(lines@) =~= level_intro_lines(*i as int));
                }
                lines
            },
            Flow::Game(gf) => {
                let grid = gf.game_state.render_grid();
                let lines = grid.to_lines();
                proof {
                    let gs = gf.game_state;
                    lemma_session_sound(gs);
                    assert forall|y: int| 0 <= y < lines@.len() implies (#[trigger] lines@[y])@
                        == gs.rendered_line(y) by {
                        assert(lines@[y]@ == grid.row_chars(y));
                        assert forall|x: int|
                            0 <= x < gs.level.grid.width implies grid.row_chars(y)[x]
                            == gs.rendered_line(y)[x] by {
                            let q = Position { x: x as i32, y: y as i32 };
                            if q == gs.player_position {
                            } else if box_at(gs.box_positions@, q) {
                                let bi = choose|bi: int|
                                    0 <= bi < gs.box_positions@.len() && gs.box_positions@[bi]
                                        == q;
                                assert(grid.cell(gs.box_positions@[bi]) == crate::level::Cell::Box(
                                    bi as usize,
                                ));
                            } else {
                                assert(grid.cell(q) == gs.level.grid.cell(q));
                            }
                        }
                        assert(grid.row_chars(y) =~= gs.rendered_line(y));
                    }
                }
                lines
            },
            Flow::End => {
                let mut lines: Vec<String> = Vec::new();
                lines.push(String::from_str("#########################"));
                lines.push(String::from_str("#                       #"));
                lines.push(String::from_str("#       The End!        #"));
                lines.push(String::from_str("# All levels completed. #"));
                lines.push(String::from_str("#                       #"));
                lines.push(String::from_str("#   Congratulations!    #"));
                lines.push(String::from_str("#                       #"));
                lines.push(String::from_str("#   Any key to quit...  #"));
                lines.push(String::from_str("#                       #"));
                lines.push(String::from_str("#########################"));
                proof {
                    assert(string_views(lines@) =~= end_lines());
                }
                lines
            },
            Flow::Quit => Vec::new(),
        }
    }

    /// One turn of the state machine, as one command comes in.
    ///
    /// Quit always wins. The intro leads to the first level's banner; a
    /// level banner loads its level and starts the game; the end screen
    /// leads to quitting; quitting is terminal. In the running game the
    /// command lands in the engine — a legal move moves, an illegal one
    /// changes nothing — and then completion is checked: a solved level
    /// leads to the next level's banner, or to the end screen after the
    /// last one.
    pub fn update(&mut self, command: Command)
        requires
            old(self).wf(),
            command matches Command::Move(dx, dy) ==> (Direction { x: dx, y: dy }).is_unit(),
        ensures
            final(self).wf(),
            final(self).levels == old(self).levels,
            match old(self).flow {
                Flow::Intro => final(self).flow == (if command is Quit {
                    Flow::Quit
                } else {
                    Flow::LevelIntro(0usize)
                }),
                Flow::LevelIntro(i) => {
                    if command is Quit {
                        final(self).flow is Quit
                    } else {
                        &&& final(self).flow matches Flow::Game(gf)
                        &&& gf.level_index == i
                        &&& gf.game_state.level.like(old(self).levels@[i as int])
                        &&& gf.game_state.player_position == gf.game_state.level.start_position
                        &&& gf.game_state.box_positions@ == gf.game_state.level.box_positions@
                        &&& gf.game_state.move_history@.len() == 0
                    }
                },
                Flow::Game(gf0) => ({
                    let st1 = state_after_command(gf0.game_state, command);
                    if command is Quit {
                        final(self).flow is Quit
                    } else if boxes_on_targets(gf0.game_state.level, st1.1) {
                        if gf0.level_index + 1 < old(self).levels@.len() {
                            final(self).flow == Flow::LevelIntro((gf0.level_index + 1) as usize)
                        } else {
                            final(self).flow is End
                        }
                    } else {
                        &&& final(self).flow matches Flow::Game(gf1)
                        &&& gf1.level_index == gf0.level_index
                        &&& gf1.game_state.level == gf0.game_state.level
                        &&& gf1.game_state.player_position == st1.0
                        &&& gf1.game_state.box_positions@ == st1.1
                        &&& gf1.game_state.move_history@ == st1.2
                    }
                }),
                Flow::End => final(self).flow is Quit,
                Flow::Quit => final(self).flow is Quit,
            },
    {
        let mut flow = Flow::Quit;
        core::mem::swap(&mut flow, &mut self.flow);
        match flow {
            Flow::Intro => {
                if matches!(command, Command::Quit) {
                    self.flow = Flow::Quit;
                } else {
                    self.flow = Flow::LevelIntro(0);
                }
            },
            Flow::LevelIntro(i) => {
                if matches!(command, Command::Quit) {
                    self.flow = Flow::Quit;
                } else {
                    let level = self.levels[i].duplicate();
                    proof {
                        lemma_like_wf(level, self.levels@[i as int]);
                    }
                    let game_state = GameState::new(level);
                    self.flow = Flow::Game(GameFlow { game_state, level_index: i });
                }
            },
            Flow::Game(mut gf) => {
                if matches!(command, Command::Quit) {
                    self.flow = Flow::Quit;
                } else {
                    let level_index = gf.level_index;
                    let nlevels = self.levels.len();
                    let ghost gs0 = gf.game_state;
                    proof {
                        assert(level_index < nlevels);
                        lemma_session_sound(gf.game_state);
                    }
                    match command {
                        Command::Move(dx, dy) => {
                            let direction = Direction { x: dx, y: dy };
                            let grid = gf.game_state.render_grid();
                            proof {
                                lemma_grid_can_move(gf.game_state, grid, direction);
                                assert(grid.in_bounds(gf.game_state.player_position));
                            }
                            if grid.player_can_move(gf.game_state.player_position, direction) {
                                gf.game_state.move_player(&grid, direction);
                            }
                        },
                        Command::RestartLevel => {
                            gf.game_state.reset();
                        },
                        Command::Undo => {
                            gf.game_state.undo();
                        },
                        _ => {},
                    }
                    proof {
                        let st1 = state_after_command(gs0, command);
                        assert(gf.game_state.level == gs0.level);
                        assert(gf.game_state.player_position == st1.0);
                        assert(gf.game_state.box_positions@ == st1.1);
                        assert(gf.game_state.move_history@ == st1.2);
                    }
                    if gf.game_state.level_is_complete() {
                        if level_index + 1 < nlevels {
                            self.flow = Flow::LevelIntro(level_index + 1);
                        } else {
                            self.flow = Flow::End;
                        }
                    } else {
                        self.flow = Flow::Game(gf);
                    }
                }
            },
            Flow::End => {
                self.flow = Flow::Quit;
            },
            Flow::Quit => {
                self.flow = Flow::Quit;
            },
        }
    }
}

} // verus!
