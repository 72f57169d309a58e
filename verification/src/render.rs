//! Drawing tiles and the board as text: each tile as a block of four lines.

use vstd::prelude::*;
use itertools::Itertools;
use crate::board::Board;
use crate::emoji::{display_width, Emoji};
use crate::location::{CELLS, SIZE};
use crate::players::PlayerSet;
use crate::tile::{PlacedTile, Player, Tile, TileMarking};

verus! {

/// The texts of strings.
pub open spec fn texts(strings: Seq<String>) -> Seq<Seq<char>> {
    strings.map_values(|s: String| s@)
}

/// The parts one after the other, with `separator` between each two.
pub open spec fn joined(parts: Seq<Seq<char>>, separator: Seq<char>) -> Seq<char>
    decreases parts.len(),
{
    if parts.len() == 0 {
        Seq::empty()
    } else if parts.len() == 1 {
        parts[0]
    } else {
        joined(parts.drop_last(), separator) + separator + parts.last()
    }
}

/// The parts with `element` between each two.
pub open spec fn interspersed(parts: Seq<Seq<char>>, element: Seq<char>) -> Seq<Seq<char>>
    decreases parts.len(),
{
    if parts.len() <= 1 {
        parts
    } else {
        interspersed(parts.drop_last(), element).push(element).push(parts.last())
    }
}

/// `Itertools::join` on the strings of a vector: the strings one after the
/// other, with `separator` between each two, and nothing for no strings.
#[verifier::external_body]
fn join(parts: &Vec<String>, separator: &str) -> (text: String)
    ensures
        text@ == joined(texts(parts@), separator@),
{
    parts.iter().join(separator)
}

/// `Itertools::intersperse` on the strings of a vector: the strings in their
/// order, with a copy of `element` between each two.
#[verifier::external_body]
fn intersperse(parts: &Vec<String>, element: &String) -> (all: Vec<String>)
    ensures
        texts(all@) == interspersed(texts(parts@), element@),
{
    Itertools::intersperse(parts.iter().cloned(), element.clone()).collect()
}

/// `piece`, `n` times.
pub open spec fn repeated(piece: Seq<char>, n: nat) -> Seq<char>
    decreases n,
{
    if n == 0 {
        Seq::empty()
    } else {
        repeated(piece, (n - 1) as nat) + piece
    }
}

/// How a wall is drawn.
pub open spec fn wall() -> Seq<char> {
    "▒"@
}

/// How open ground is drawn.
pub open spec fn ground() -> Seq<char> {
    "░"@
}

/// How the middle of a side is drawn: open, or walled.
pub open spec fn side(open: bool) -> Seq<char> {
    if open {
        ground()
    } else {
        wall()
    }
}

/// The top or bottom line of a tile.
pub open spec fn edge_line(open: bool) -> Seq<char> {
    wall() + repeated(side(open), 4) + wall()
}

/// Whether the emoji of `marking` is at most four columns wide, so that it
/// can be drawn on a tile.
pub open spec fn fits(marking: Option<TileMarking>) -> bool {
    match marking {
        Some(marking) => display_width(marking.emoji_text()) <= 4,
        None => true,
    }
}

/// The four columns in the middle of a tile that show its marking: the emoji
/// of the marking, filled up with open ground.
pub open spec fn marking_cell(marking: Option<TileMarking>) -> Seq<char> {
    match marking {
        Some(marking) => padded(marking.emoji_text(), display_width(marking.emoji_text())),
        None => repeated(ground(), 4),
    }
}

/// An emoji that is `width` columns wide, filled up to four columns with open
/// ground.
pub open spec fn padded(emoji: Seq<char>, width: nat) -> Seq<char> {
    emoji + repeated(ground(), (4 - width) as nat)
}

/// How the slot of `player` is drawn on a tile with `players` on it.
pub open spec fn token(players: PlayerSet, player: Player) -> Seq<char> {
    if players.has(player) {
        player.emoji_text()
    } else {
        ground()
    }
}

/// The four lines of a tile: its top, its marking between its left and right
/// sides, the players on it between the sides, and its bottom.
pub open spec fn tile_lines(placed: PlacedTile) -> Seq<Seq<char>> {
    let tile = placed.effective();
    seq![
        edge_line(tile.path_up),
        side(tile.path_left) + marking_cell(tile.marking) + side(tile.path_right),
        side(tile.path_left) + token(placed.players, Player::Player1) + token(
            placed.players,
            Player::Player2,
        ) + token(placed.players, Player::Player3) + token(placed.players, Player::Player4)
            + side(tile.path_right),
        edge_line(tile.path_down),
    ]
}

/// Appends `piece` to `text`, `n` times.
pub fn push_repeated(text: &mut String, piece: &str, n: usize)
    ensures
        final(text)@ == old(text)@ + repeated(piece@, n as nat),
{
    let mut i: usize = 0;
    while i < n
        invariant
            i <= n,
            text@ == old(text)@ + repeated(piece@, i as nat),
        decreases n - i,
    {
        text.push_str(piece);
        i = i + 1;
    }
}

/// How the middle of a side is drawn.
fn side_str(open: bool) -> (text: &'static str)
    ensures
        text@ == side(open),
{
    if open {
        "░"
    } else {
        "▒"
    }
}

/// The top or bottom line of a tile.
fn edge(open: bool) -> (text: String)
    ensures
        text@ == edge_line(open),
{
    let mut text = "▒".to_owned();
    push_repeated(&mut text, side_str(open), 4);
    text.push_str("▒");
    text
}

/// An emoji that is `width` columns wide, filled up to four columns with open
/// ground.
pub fn pad(emoji: &str, width: usize) -> (text: String)
    requires
        width <= 4,
    ensures
        text@ == padded(emoji@, width as nat),
{
    let mut text = emoji.to_owned();
    push_repeated(&mut text, "░", 4 - width);
    text
}

/// Appends how the slot of `player` is drawn on a tile with `players` on it.
fn push_token(text: &mut String, players: &PlayerSet, player: Player)
    ensures
        final(text)@ == old(text)@ + token(*players, player),
{
    if players.contains(&player) {
        text.push_str(player.emoji());
    } else {
        text.push_str("░");
    }
}

impl PlacedTile {
    /// The four lines of the tile, if the emoji of its marking is at most
    /// four columns wide.
    pub fn lines(&self) -> (r: Option<Vec<String>>)
        ensures
            r is Some <==> fits(self.tile.marking),
            r is Some ==> texts(r->Some_0@) == tile_lines(*self),
    {
        let tile = Tile::from(self);
        let cell = match tile.marking {
            Some(marking) => {
                let width = marking.emoji_width();
                if width > 4 {
                    return None;
                }
                pad(marking.emoji(), width)
            },
            None => {
                let mut cell = String::new();
                push_repeated(&mut cell, "░", 4);
                cell
            },
        };
        let mut second = side_str(tile.path_left).to_owned();
        second.push_str(cell.as_str());
        second.push_str(side_str(tile.path_right));
        let mut third = side_str(tile.path_left).to_owned();
        push_token(&mut third, &self.players, Player::Player1);
        push_token(&mut third, &self.players, Player::Player2);
        push_token(&mut third, &self.players, Player::Player3);
        push_token(&mut third, &self.players, Player::Player4);
        third.push_str(side_str(tile.path_right));
        let mut lines: Vec<String> = Vec::new();
        lines.push(edge(tile.path_up));
        lines.push(second);
        lines.push(third);
        lines.push(edge(tile.path_down));
        Some(lines)
    }

    /// The tile drawn as text: its four lines, one below the other. Nothing,
    /// if the emoji of its marking is more than four columns wide.
    pub fn render(&self) -> (r: Option<String>)
        ensures
            r is Some <==> fits(self.tile.marking),
            r is Some ==> r->Some_0@ == joined(tile_lines(*self), "\n"@),
    {
        match self.lines() {
            Some(lines) => Some(join(&lines, "\n")),
            None => None,
        }
    }
}

impl Tile {
    /// The tile drawn as text, as it lies unrotated with nobody on it.
    pub fn render(&self) -> (r: Option<String>)
        ensures
            r is Some <==> fits(self.marking),
            r is Some ==> r->Some_0@ == joined(tile_lines(PlacedTile::unrotated(*self)), "\n"@),
    {
        let placed_tile = PlacedTile::from(self);
        placed_tile.render()
    }
}

/// The line number `line` of the tiles of row `row`, side by side with one
/// blank between each two.
pub open spec fn row_line(placed: Seq<PlacedTile>, row: int, line: int) -> Seq<char> {
    joined(Seq::new(SIZE as nat, |c: int| tile_lines(placed[row * 7 + c])[line]), " "@)
}

/// The four lines of row `row`, one below the other.
pub open spec fn row_text(placed: Seq<PlacedTile>, row: int) -> Seq<char> {
    joined(Seq::new(4, |line: int| row_line(placed, row, line)), "\n"@)
}

/// The board drawn as text: its rows one below the other, with a line of
/// blanks as long as the first line between each two.
pub open spec fn board_text(placed: Seq<PlacedTile>) -> Seq<char> {
    joined(
        interspersed(
            Seq::new(SIZE as nat, |row: int| row_text(placed, row)),
            repeated(" "@, row_line(placed, 0, 0).len()),
        ),
        "\n"@,
    )
}

impl Board {
    /// Whether every tile of the board can be drawn: the emoji of each
    /// marking is at most four columns wide.
    pub open spec fn drawable(&self) -> bool {
        forall|k: int| 0 <= k < self.placed@.len() ==> fits((#[trigger] self.placed@[k]).tile.marking)
    }

    /// The board drawn as text, if every tile of it can be drawn.
    pub fn render(&self) -> (r: Option<String>)
        requires
            self.full(),
        ensures
            r is Some <==> self.drawable(),
            r is Some ==> r->Some_0@ == board_text(self.placed@),
    {
        let mut tile_line_strs: Vec<Vec<String>> = Vec::new();
        let mut k: usize = 0;
        while k < CELLS
            invariant
                k <= CELLS,
                self.full(),
                tile_line_strs@.len() == k,
                forall|j: int| 0 <= j < k ==> fits((#[trigger] self.placed@[j]).tile.marking),
                forall|j: int|
                    0 <= j < k ==> texts((#[trigger] tile_line_strs@[j])@) == tile_lines(
                        self.placed@[j],
                    ),
            decreases CELLS - k,
        {
            match self.placed[k].lines() {
                Some(lines) => {
                    tile_line_strs.push(lines);
                },
                None => {
                    return None;
                },
            }
            k = k + 1;
        }
        let mut board_row_strs: Vec<String> = Vec::new();
        let mut num_col_chars: usize = 0;
        let mut row: usize = 0;
        while row < SIZE
            invariant
                row <= SIZE,
                self.full(),
                tile_line_strs@.len() == CELLS,
                forall|j: int|
                    0 <= j < CELLS ==> texts((#[trigger] tile_line_strs@[j])@) == tile_lines(
                        self.placed@[j],
                    ),
                texts(board_row_strs@) == Seq::new(row as nat, |r: int| row_text(self.placed@, r)),
                row > 0 ==> num_col_chars == row_line(self.placed@, 0, 0).len(),
            decreases SIZE - row,
        {
            let mut col_strs: Vec<String> = Vec::new();
            let mut col: usize = 0;
            while col < 4
                invariant
                    col <= 4,
                    row < SIZE,
                    self.full(),
                    row > 0 || col > 0 ==> num_col_chars == row_line(self.placed@, 0, 0).len(),
                    tile_line_strs@.len() == CELLS,
                    forall|j: int|
                        0 <= j < CELLS ==> texts((#[trigger] tile_line_strs@[j])@) == tile_lines(
                            self.placed@[j],
                        ),
                    texts(col_strs@) == Seq::new(
                        col as nat,
                        |line: int| row_line(self.placed@, row as int, line),
                    ),
                decreases 4 - col,
            {
                let mut parts: Vec<String> = Vec::new();
                let mut c: usize = 0;
                while c < SIZE
                    invariant
                        c <= SIZE,
                        row < SIZE,
                        col < 4,
                        self.full(),
                        tile_line_strs@.len() == CELLS,
                        forall|j: int|
                            0 <= j < CELLS ==> texts((#[trigger] tile_line_strs@[j])@)
                                == tile_lines(self.placed@[j]),
                        texts(parts@) == Seq::new(
                            c as nat,
                            |x: int| tile_lines(self.placed@[row * 7 + x])[col as int],
                        ),
                    decreases SIZE - c,
                {
                    let tile_str = &tile_line_strs[row * SIZE + c];
                    let ghost before = parts@;
                    parts.push(tile_str[col].clone());
                    c = c + 1;
                    proof {
                        assert(texts(parts@) =~= texts(before).push(tile_str@[col as int]@));
                    }
                }
                let ghost before = col_strs@;
                let line = join(&parts, " ");
                if row == 0 && col == 0 {
                    num_col_chars = line.as_str().unicode_len();
                }
                col_strs.push(line);
                col = col + 1;
                proof {
                    assert(texts(col_strs@) =~= texts(before).push(
                        row_line(self.placed@, row as int, col - 1),
                    ));
                }
            }
            let ghost before = board_row_strs@;
            board_row_strs.push(join(&col_strs, "\n"));
            row = row + 1;
            proof {
                assert(texts(board_row_strs@) =~= texts(before).push(
                    row_text(self.placed@, row - 1),
                ));
            }
        }
        let mut blank = String::new();
        push_repeated(&mut blank, " ", num_col_chars);
        let all = intersperse(&board_row_strs, &blank);
        Some(join(&all, "\n"))
    }
}

} // verus!
