use vstd::prelude::*;

use crate::board::{initial_field, Board, Field};

verus! {

/// A command for the board's owner.
#[derive(Debug, Clone, Copy, PartialEq, Eq)]
pub enum Action {
    MoveLeft,
    MoveRight,
    MoveDown,
    Land,
    Rotate,
    Stop,
}

/// A step that yields `next` when accepted: accepted exactly when `next` is
/// there, and then the field becomes `next`; when rejected the field stays as
/// it was.
pub open spec fn step_outcome(
    before: Field,
    next: Option<Field>,
    r: Result<(), ()>,
    after: Field,
) -> bool {
    &&& (r is Ok <==> next is Some)
    &&& (next is Some ==> after == next->0)
    &&& (next is None ==> after == before)
}

/// What a running game does to its field for one action: the board operation
/// of the same name, and nothing for `Stop`.
pub open spec fn applied(before: Field, a: Action, r: Result<(), ()>, after: Field) -> bool {
    match a {
        Action::MoveLeft => step_outcome(before, before.left_move(), r, after),
        Action::MoveRight => step_outcome(before, before.right_move(), r, after),
        Action::MoveDown => step_outcome(before, before.down_move(), r, after),
        Action::Rotate => step_outcome(before, before.rotate_move(), r, after),
        Action::Land => {
            &&& (r is Ok <==> before.down_move() is Some)
            &&& (r is Ok ==> before.lands_at(after.y as int) && after == before.with_anchor(
                before.x,
                after.y,
            ))
            &&& (r is Err ==> after == before)
        },
        Action::Stop => r is Ok && after == before,
    }
}

/// The single owner of a board, applying actions to it one at a time until
/// it is stopped.
#[derive(Debug)]
pub struct Game {
    board: Board,
    stopped: bool,
}

impl View for Game {
    type V = (Field, bool);

    /// The board's field, and whether `Stop` has been handled.
    closed spec fn view(&self) -> (Field, bool) {
        (self.board@, self.stopped)
    }
}

impl Game {
    /// A running game on an empty `width` x `height` board.
    pub fn new(width: usize, height: usize) -> (r: Game)
        requires
            width * height <= usize::MAX,
        ensures
            r@.0 == initial_field(width as nat, height as nat),
            !r@.1,
    {
        Game { board: Board::new(width, height), stopped: false }
    }

    /// Applies one action. `Stop` ends the game; once it has ended, every
    /// action is dropped without error and without effect.
    pub fn handle(&mut self, a: Action) -> (r: Result<(), ()>)
        ensures
            old(self)@.1 ==> r is Ok && final(self)@ == old(self)@,
            !old(self)@.1 ==> applied(old(self)@.0, a, r, final(self)@.0),
            !old(self)@.1 ==> final(self)@.1 == (a == Action::Stop),
    {
        if self.stopped {
            return Ok(());
        }
        match a {
            Action::MoveLeft => self.board.move_left(),
            Action::MoveRight => self.board.move_right(),
            Action::MoveDown => self.board.move_down(),
            Action::Land => self.board.land(),
            Action::Rotate => self.board.rotate(),
            Action::Stop => {
                self.stopped = true;
                Ok(())
            },
        }
    }

    /// Whether `Stop` has been handled.
    pub fn is_stopped(&self) -> (r: bool)
        ensures
            r == self@.1,
    {
        self.stopped
    }

    pub fn board(&self) -> (r: &Board)
        ensures
            r@ == self@.0,
    {
        &self.board
    }
}

} // verus!
