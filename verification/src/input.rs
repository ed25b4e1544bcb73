//! What the keys do: the cursor on the board, and the command behind each
//! key.

use crate::board::{accepted, grid_of, user_input, with_cell, Grid};
use crate::solver::{board_after, get_solution, outcome_of, Outcome};
use vstd::prelude::*;

verus! {

/// The cell under the cursor, by the 1-based row and column that
/// [`user_input`] takes.
#[derive(Clone, Copy, Debug, PartialEq, Eq, Structural)]
pub struct Cursor {
    pub row: i32,
    pub column: i32,
}

/// A key as the terminal reports it.
#[derive(Clone, Copy, Debug, PartialEq, Eq, Structural)]
pub enum Key {
    Up,
    Down,
    Left,
    Right,
    Enter,
    Char(char),
    Other,
}

/// The four ways the cursor moves. The board is drawn with its first index
/// running across the screen, so `Right` and `Left` change the row, `Down`
/// and `Up` the column.
#[derive(Clone, Copy, Debug, PartialEq, Eq, Structural)]
pub enum Direction {
    Up,
    Down,
    Left,
    Right,
}

/// What a key asks for.
#[derive(Clone, Copy, Debug, PartialEq, Eq, Structural)]
pub enum Command {
    /// Leave the program.
    Quit,
    /// Move the cursor one cell, if the board goes on there.
    Move(Direction),
    /// Write a value into the cell under the cursor.
    Place(i32),
    /// Solve the board.
    Solve,
    /// The key has no meaning.
    Nothing,
}

/// What the caller is to do after a command.
#[derive(Clone, Copy, Debug, PartialEq, Eq, Structural)]
pub enum Reply {
    /// Stop.
    Quit,
    /// Go on.
    Continue,
    /// Go on; the board was asked to be solved, with this outcome.
    Report(Outcome),
}

/// The nearest of `1..=9` to `i`.
pub open spec fn clamped(i: int) -> int {
    if i < 1 {
        1
    } else if i > 9 {
        9
    } else {
        i
    }
}

/// The command behind each key: `q` quits, the arrows and `h` `j` `k` `l`
/// move, the digits write themselves (`0` empties the cell), Enter solves.
pub open spec fn command_of(key: Key) -> Command {
    match key {
        Key::Char('q') => Command::Quit,
        Key::Down | Key::Char('j') => Command::Move(Direction::Down),
        Key::Up | Key::Char('k') => Command::Move(Direction::Up),
        Key::Right | Key::Char('l') => Command::Move(Direction::Right),
        Key::Left | Key::Char('h') => Command::Move(Direction::Left),
        Key::Char('0') => Command::Place(0),
        Key::Char('1') => Command::Place(1),
        Key::Char('2') => Command::Place(2),
        Key::Char('3') => Command::Place(3),
        Key::Char('4') => Command::Place(4),
        Key::Char('5') => Command::Place(5),
        Key::Char('6') => Command::Place(6),
        Key::Char('7') => Command::Place(7),
        Key::Char('8') => Command::Place(8),
        Key::Char('9') => Command::Place(9),
        Key::Enter => Command::Solve,
        _ => Command::Nothing,
    }
}

/// Where the cursor stands after a command: a move takes it one cell
/// further and stops at the edge of the board, nothing else moves it.
pub open spec fn cursor_after(cursor: Cursor, command: Command) -> Cursor {
    match command {
        Command::Move(Direction::Right) => Cursor { row: clamped(cursor.row + 1) as i32, ..cursor },
        Command::Move(Direction::Left) => Cursor { row: clamped(cursor.row - 1) as i32, ..cursor },
        Command::Move(Direction::Down) => Cursor {
            column: clamped(cursor.column + 1) as i32,
            ..cursor
        },
        Command::Move(Direction::Up) => Cursor { column: clamped(cursor.column - 1) as i32, ..cursor },
        _ => cursor,
    }
}

/// What a command makes of the board: `Place` writes under the cursor, as
/// [`user_input`] does, `Solve` solves, as [`get_solution`] does, nothing
/// else touches it.
pub open spec fn grid_after(g: Grid, cursor: Cursor, command: Command) -> Grid {
    match command {
        Command::Place(value) => if accepted(cursor.row as int, cursor.column as int, value as int) {
            with_cell(g, cursor.row - 1, cursor.column - 1, value as int)
        } else {
            g
        },
        Command::Solve => board_after(g),
        _ => g,
    }
}

/// What the caller hears of a command on a board whose model is `g`.
pub open spec fn reply_to(g: Grid, command: Command) -> Reply {
    match command {
        Command::Quit => Reply::Quit,
        Command::Solve => Reply::Report(outcome_of(g)),
        _ => Reply::Continue,
    }
}

impl Cursor {
    /// The cursor is on the board.
    pub open spec fn on_board(self) -> bool {
        1 <= self.row <= 9 && 1 <= self.column <= 9
    }

    /// The cursor where a session starts: on row 7, column 6.
    pub fn new() -> (cursor: Cursor)
        ensures
            cursor == (Cursor { row: 7, column: 6 }),
    {
        Cursor { row: 7, column: 6 }
    }

    /// Moves the cursor one cell in `direction`; at the edge of the board it
    /// stays where it is. A cursor that was off the board is on it after a
    /// move along the coordinate that was off.
    pub fn step(&mut self, direction: Direction)
        ensures
            *final(self) == cursor_after(*old(self), Command::Move(direction)),
            old(self).on_board() ==> final(self).on_board(),
    {
        match direction {
            Direction::Right => {
                self.row = one_more(self.row);
            },
            Direction::Left => {
                self.row = one_less(self.row);
            },
            Direction::Down => {
                self.column = one_more(self.column);
            },
            Direction::Up => {
                self.column = one_less(self.column);
            },
        }
    }
}

/// The next index up, kept on the board.
fn one_more(i: i32) -> (j: i32)
    ensures
        j == clamped(i + 1),
{
    if i >= 9 {
        9
    } else if i < 1 {
        1
    } else {
        i + 1
    }
}

/// The next index down, kept on the board.
fn one_less(i: i32) -> (j: i32)
    ensures
        j == clamped(i - 1),
{
    if i <= 1 {
        1
    } else if i > 9 {
        9
    } else {
        i - 1
    }
}

/// The command behind `key`.
pub fn command_for(key: Key) -> (command: Command)
    ensures
        command == command_of(key),
{
    match key {
        Key::Char('q') => Command::Quit,
        Key::Down | Key::Char('j') => Command::Move(Direction::Down),
        Key::Up | Key::Char('k') => Command::Move(Direction::Up),
        Key::Right | Key::Char('l') => Command::Move(Direction::Right),
        Key::Left | Key::Char('h') => Command::Move(Direction::Left),
        Key::Char('0') => Command::Place(0),
        Key::Char('1') => Command::Place(1),
        Key::Char('2') => Command::Place(2),
        Key::Char('3') => Command::Place(3),
        Key::Char('4') => Command::Place(4),
        Key::Char('5') => Command::Place(5),
        Key::Char('6') => Command::Place(6),
        Key::Char('7') => Command::Place(7),
        Key::Char('8') => Command::Place(8),
        Key::Char('9') => Command::Place(9),
        Key::Enter => Command::Solve,
        _ => Command::Nothing,
    }
}

/// Carries out one command on the board and the cursor, and says what the
/// caller is to do next.
pub fn apply(board: &mut [[i32; 9]; 9], cursor: &mut Cursor, command: Command) -> (reply: Reply)
    ensures
        reply == reply_to(grid_of(*old(board)), command),
        *final(cursor) == cursor_after(*old(cursor), command),
        grid_of(*final(board)) == grid_after(grid_of(*old(board)), *old(cursor), command),
        old(cursor).on_board() ==> final(cursor).on_board(),
{
    match command {
        Command::Quit => Reply::Quit,
        Command::Move(direction) => {
            cursor.step(direction);
            Reply::Continue
        },
        Command::Place(value) => {
            user_input(board, cursor.row, cursor.column, value);
            Reply::Continue
        },
        Command::Solve => Reply::Report(get_solution(board)),
        Command::Nothing => Reply::Continue,
    }
}

} // verus!
