//! The places of the board: seven columns by seven rows.

use vstd::prelude::*;
use crate::text::{decimal, push_decimal};

verus! {

/// The number of columns, and of rows, of the board.
pub const SIZE: usize = 7;

/// The number of places on the board.
pub const CELLS: usize = 49;

/// A place by its column and its row, both counted from zero at the top left.
#[derive(Hash, Debug, PartialEq, Eq, Copy, Clone, Structural)]
pub struct Location(pub usize, pub usize);

impl Location {
    /// Whether the place lies on the board.
    pub open spec fn on_board(self) -> bool {
        self.0 < SIZE && self.1 < SIZE
    }

    /// The place's rank when the board is read row by row.
    pub open spec fn index(self) -> int {
        self.1 * SIZE + self.0
    }

    /// The place that has rank `i` when the board is read row by row.
    pub open spec fn at(i: int) -> Location {
        Location((i % 7) as usize, (i / 7) as usize)
    }

    /// Whether the place lies on an even column and an even row, where the
    /// board's fixed tiles are.
    pub open spec fn fixed(self) -> bool {
        self.on_board() && self.0 % 2 == 0 && self.1 % 2 == 0
    }

    /// How the place is written: column and row in brackets.
    pub open spec fn text(self) -> Seq<char> {
        seq!['('] + decimal(self.0 as nat) + seq![',', ' '] + decimal(self.1 as nat) + seq![')']
    }

    /// Ranks and places of the board correspond one to one.
    pub proof fn lemma_index(self, i: int)
        ensures
            self.on_board() ==> 0 <= self.index() < CELLS && Location::at(self.index()) == self,
            0 <= i < CELLS ==> Location::at(i).on_board() && Location::at(i).index() == i,
    {
    }

    /// Whether the place lies on the board.
    pub fn is_on_board(&self) -> (r: bool)
        ensures
            r == self.on_board(),
    {
        self.0 < SIZE && self.1 < SIZE
    }

    /// The place's rank when the board is read row by row.
    pub fn rank(&self) -> (i: usize)
        requires
            self.on_board(),
        ensures
            i == self.index(),
            i < CELLS,
    {
        self.1 * SIZE + self.0
    }

    /// The place that has rank `i` when the board is read row by row.
    pub fn of_rank(i: usize) -> (l: Location)
        requires
            i < CELLS,
        ensures
            l == Location::at(i as int),
            l.on_board(),
            l.index() == i,
    {
        Location(i % SIZE, i / SIZE)
    }

    /// Whether the place holds one of the board's fixed tiles.
    pub fn is_fixed(&self) -> (r: bool)
        ensures
            r == self.fixed(),
    {
        self.0 < SIZE && self.1 < SIZE && self.0 % 2 == 0 && self.1 % 2 == 0
    }

    /// The place written out: column and row in brackets.
    pub fn to_string(&self) -> (s: String)
        ensures
            s@ == self.text(),
    {
        let mut s = String::new();
        s.push('(');
        push_decimal(&mut s, self.0);
        s.push(',');
        s.push(' ');
        push_decimal(&mut s, self.1);
        s.push(')');
        s
    }
}

} // verus!
