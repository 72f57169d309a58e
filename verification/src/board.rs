//! The board: forty-nine placed tiles and the spare tile, the links between
//! neighbouring tiles, and the tokens of the players on the tiles.

use vstd::prelude::*;
use vstd::multiset::Multiset;
use crate::errors::{
    invalid_location_text, GenericError, GenericResult, LocationError, LocationErrorKind,
};
use crate::location::{Location, CELLS, SIZE};
use crate::players::PlayerSet;
use crate::tile::{Item, PlacedTile, Player, Tile, TileMarking};

verus! {

/// All tiles placed on the board, row by row from the top left, and the spare
/// tile that is held beside it.
#[derive(Debug, PartialEq, Eq, Clone)]
pub struct Board {
    pub placed: Vec<PlacedTile>,
    pub spare: Tile,
}

/// The places above, below, left and right of a place, wherever they lie.
pub open spec fn above(l: Location) -> Location {
    Location(l.0, (l.1 - 1) as usize)
}

pub open spec fn below(l: Location) -> Location {
    Location(l.0, (l.1 + 1) as usize)
}

pub open spec fn left_of(l: Location) -> Location {
    Location((l.0 - 1) as usize, l.1)
}

pub open spec fn right_of(l: Location) -> Location {
    Location((l.0 + 1) as usize, l.1)
}

/// No opening of `tile`, as it lies at `location`, leads off the board.
pub open spec fn placement_ok(location: Location, tile: Tile) -> bool {
    &&& location.1 == 0 ==> !tile.path_up
    &&& location.1 == 6 ==> !tile.path_down
    &&& location.0 == 0 ==> !tile.path_left
    &&& location.0 == 6 ==> !tile.path_right
}

/// The tokens on the tile at `l`, in the order of the players.
pub open spec fn tokens_on(l: Location, players: PlayerSet) -> Seq<(Location, Player)> {
    (if players.player1 { seq![(l, Player::Player1)] } else { seq![] })
        + (if players.player2 { seq![(l, Player::Player2)] } else { seq![] })
        + (if players.player3 { seq![(l, Player::Player3)] } else { seq![] })
        + (if players.player4 { seq![(l, Player::Player4)] } else { seq![] })
}

/// The tokens on the tiles of `placed`, place by place.
pub open spec fn token_seq(placed: Seq<PlacedTile>) -> Seq<(Location, Player)>
    decreases placed.len(),
{
    if placed.len() == 0 {
        seq![]
    } else {
        token_seq(placed.drop_last()) + tokens_on(
            Location::at(placed.len() - 1),
            placed.last().players,
        )
    }
}

/// The number of tokens on the tiles of `placed`.
pub open spec fn token_total(placed: Seq<PlacedTile>) -> nat
    decreases placed.len(),
{
    if placed.len() == 0 {
        0
    } else {
        token_total(placed.drop_last()) + placed.last().players.count()
    }
}

/// The tiles of `placed` without their rotations and tokens.
pub open spec fn tile_seq(placed: Seq<PlacedTile>) -> Seq<Tile> {
    placed.map_values(|p: PlacedTile| p.tile)
}

impl Board {
    /// The tile that lies at `l`.
    pub open spec fn tile_at(&self, l: Location) -> PlacedTile
        recommends
            l.on_board(),
    {
        self.placed@[l.index()]
    }

    /// Whether `player` stands on the tile at `l`.
    pub open spec fn holds(&self, l: Location, player: Player) -> bool {
        l.on_board() && self.tile_at(l).players.has(player)
    }

    /// Whether `player` stands anywhere on the board.
    pub open spec fn has_token(&self, player: Player) -> bool {
        exists|l: Location| self.holds(l, player)
    }

    /// The place where `player` stands.
    pub open spec fn token_place(&self, player: Player) -> Location {
        choose|l: Location| self.holds(l, player)
    }

    /// Every place of the board holds a tile.
    pub open spec fn full(&self) -> bool {
        self.placed@.len() == CELLS
    }

    /// Every place of the board holds a tile, and no player stands on two
    /// tiles.
    pub open spec fn wf(&self) -> bool {
        &&& self.full()
        &&& forall|a: Location, b: Location, p: Player|
            #![trigger self.holds(a, p), self.holds(b, p)]
            self.holds(a, p) && self.holds(b, p) ==> a == b
    }

    /// All tiles of the game: those on the board and the spare.
    pub open spec fn tiles(&self) -> Multiset<Tile> {
        tile_seq(self.placed@).to_multiset().insert(self.spare)
    }

    /// The number of tokens on the board.
    pub open spec fn token_count(&self) -> nat {
        token_total(self.placed@)
    }

    /// Whether a path leads straight from `a` to its neighbour `b`: the two
    /// lie side by side on the board, and each is open towards the other.
    pub open spec fn linked(&self, a: Location, b: Location) -> bool {
        let ta = self.tile_at(a).effective();
        let tb = self.tile_at(b).effective();
        &&& a.on_board()
        &&& b.on_board()
        &&& {
            ||| (a.1 > 0 && b == above(a) && ta.path_up && tb.path_down)
            ||| (b == below(a) && ta.path_down && tb.path_up)
            ||| (a.0 > 0 && b == left_of(a) && ta.path_left && tb.path_right)
            ||| (b == right_of(a) && ta.path_right && tb.path_left)
        }
    }

    /// The neighbours to which a path leads straight from `at`: above, below,
    /// left, right, in this order.
    pub open spec fn neighbor_seq(&self, at: Location) -> Seq<Location> {
        (if self.linked(at, above(at)) && at.1 > 0 { seq![above(at)] } else { seq![] })
            + (if self.linked(at, below(at)) { seq![below(at)] } else { seq![] })
            + (if self.linked(at, left_of(at)) && at.0 > 0 { seq![left_of(at)] } else { seq![] })
            + (if self.linked(at, right_of(at)) { seq![right_of(at)] } else { seq![] })
    }

    /// A link joins two different places and can be walked both ways, and the
    /// neighbours of a place are the places linked to it.
    pub proof fn lemma_linked(&self, a: Location, b: Location)
        ensures
            self.linked(a, b) == self.linked(b, a),
            self.linked(a, b) ==> a != b,
            a.on_board() ==> (self.neighbor_seq(a).contains(b) <==> self.linked(a, b)),
            self.neighbor_seq(a).no_duplicates(),
    {
        let up = if self.linked(a, above(a)) && a.1 > 0 { seq![above(a)] } else { seq![] };
        let down = if self.linked(a, below(a)) { seq![below(a)] } else { seq![] };
        let left = if self.linked(a, left_of(a)) && a.0 > 0 { seq![left_of(a)] } else { seq![] };
        let right = if self.linked(a, right_of(a)) { seq![right_of(a)] } else { seq![] };
        let s = self.neighbor_seq(a);
        if a.on_board() {
            if self.linked(a, b) {
                if a.1 > 0 && b == above(a) {
                    assert(s[0] == b);
                } else if b == below(a) {
                    assert(s[up.len() as int] == b);
                } else if a.0 > 0 && b == left_of(a) {
                    assert(s[(up.len() + down.len()) as int] == b);
                } else {
                    assert(s[(up.len() + down.len() + left.len()) as int] == b);
                }
            }
        }
    }

    /// The places of the board, row by row from the top left.
    pub fn locations() -> (v: Vec<Location>)
        ensures
            v@ == Seq::new(CELLS as nat, |i: int| Location::at(i)),
    {
        let mut v: Vec<Location> = Vec::new();
        let mut i: usize = 0;
        while i < CELLS
            invariant
                i <= CELLS,
                v@ == Seq::new(i as nat, |k: int| Location::at(k)),
            decreases CELLS - i,
        {
            v.push(Location::of_rank(i));
            i = i + 1;
        }
        v
    }

    /// Whether the board is well formed.
    pub fn check(&self) -> (ok: bool)
        ensures
            ok == self.wf(),
    {
        if self.placed.len() != CELLS {
            return false;
        }
        let mut seen = PlayerSet::new();
        let mut i: usize = 0;
        while i < CELLS
            invariant
                i <= CELLS,
                self.placed@.len() == CELLS,
                forall|a: Location, b: Location, p: Player|
                    #![trigger self.holds(a, p), self.holds(b, p)]
                    self.holds(a, p) && self.holds(b, p) && a.index() < i && b.index() < i ==> a
                        == b,
                forall|p: Player|
                    seen.has(p) <==> exists|a: Location| a.index() < i && #[trigger] self.holds(a, p),
            decreases CELLS - i,
        {
            let here = self.placed[i].players;
            let ghost l = Location::at(i as int);
            proof {
                l.lemma_index(i as int);
            }
            if (here.player1 && seen.player1) || (here.player2 && seen.player2) || (here.player3
                && seen.player3) || (here.player4 && seen.player4) {
                proof {
                    let p = if here.player1 && seen.player1 {
                        Player::Player1
                    } else if here.player2 && seen.player2 {
                        Player::Player2
                    } else if here.player3 && seen.player3 {
                        Player::Player3
                    } else {
                        Player::Player4
                    };
                    assert(seen.has(p));
                    let a = choose|a: Location| a.index() < i && #[trigger] self.holds(a, p);
                    assert(self.holds(l, p));
                }
                return false;
            }
            let ghost before = seen;
            seen = PlayerSet {
                player1: seen.player1 || here.player1,
                player2: seen.player2 || here.player2,
                player3: seen.player3 || here.player3,
                player4: seen.player4 || here.player4,
            };
            proof {
                assert forall|a: Location, b: Location, p: Player|
                    #![trigger self.holds(a, p), self.holds(b, p)]
                    self.holds(a, p) && self.holds(b, p) && a.index() < i + 1 && b.index() < i
                        + 1 implies a == b by {
                    a.lemma_index(0);
                    b.lemma_index(0);
                    if a.index() == i && b.index() < i {
                        assert(before.has(p));
                    }
                    if b.index() == i && a.index() < i {
                        assert(before.has(p));
                    }
                }
                assert forall|p: Player|
                    seen.has(p) <==> exists|a: Location|
                        a.index() < i + 1 && #[trigger] self.holds(a, p) by {
                    if seen.has(p) {
                        if before.has(p) {
                            let a = choose|a: Location| a.index() < i && #[trigger] self.holds(a, p);
                        } else {
                            assert(l.index() < i + 1 && self.holds(l, p));
                        }
                    }
                    if exists|a: Location| a.index() < i + 1 && #[trigger] self.holds(a, p) {
                        let a = choose|a: Location| a.index() < i + 1 && #[trigger] self.holds(a, p);
                        a.lemma_index(0);
                        if a.index() < i {
                            assert(before.has(p));
                        }
                    }
                }
            }
            i = i + 1;
        }
        proof {
            assert forall|a: Location, b: Location, p: Player|
                #![trigger self.holds(a, p), self.holds(b, p)]
                self.holds(a, p) && self.holds(b, p) implies a == b by {
                a.lemma_index(0);
                b.lemma_index(0);
            }
        }
        true
    }

    /// Whether a tile may lie at `location` as `placed_tile` lies: none of its
    /// openings leads off the board.
    pub fn tile_placement_ok(location: &Location, placed_tile: &PlacedTile) -> (ok: bool)
        ensures
            ok == placement_ok(*location, placed_tile.effective()),
    {
        let rotated_tile = Tile::from(placed_tile);
        match location {
            Location(0, 0) => !rotated_tile.path_up && !rotated_tile.path_left,
            Location(6, 0) => !rotated_tile.path_up && !rotated_tile.path_right,
            Location(6, 6) => !rotated_tile.path_down && !rotated_tile.path_right,
            Location(0, 6) => !rotated_tile.path_down && !rotated_tile.path_left,
            Location(_, 6) => !rotated_tile.path_down,
            Location(_, 0) => !rotated_tile.path_up,
            Location(0, _) => !rotated_tile.path_left,
            Location(6, _) => !rotated_tile.path_right,
            _ => true,
        }
    }

    /// The tile that lies at `at`. A place off the board is refused.
    pub fn get(&self, at: &Location) -> (r: Result<&PlacedTile, LocationError>)
        requires
            self.full(),
        ensures
            at.on_board() ==> r == Ok::<&PlacedTile, LocationError>(&self.tile_at(*at)),
            !at.on_board() ==> r is Err && r->Err_0.kind == LocationErrorKind::InvalidLocation
                && r->Err_0.text() == invalid_location_text(*at),
    {
        if at.is_on_board() {
            Ok(&self.placed[at.rank()])
        } else {
            Err(LocationError::from(at))
        }
    }

    /// The neighbours of `at` to which a path leads straight from it: above,
    /// below, left, right, in this order. A place off the board is refused.
    pub fn neighbors(&self, at: &Location) -> (r: Result<Vec<Location>, LocationError>)
        requires
            self.full(),
        ensures
            at.on_board() ==> r is Ok && r->Ok_0@ == self.neighbor_seq(*at),
            !at.on_board() ==> r is Err && r->Err_0.kind == LocationErrorKind::InvalidLocation
                && r->Err_0.text() == invalid_location_text(*at),
    {
        let here = Tile::from(self.get(at)?);
        let mut neighbors: Vec<Location> = Vec::new();
        if at.1 > 0 {
            let up_at = Location(at.0, at.1 - 1);
            if here.path_up && Tile::from(&self.placed[up_at.rank()]).path_down {
                neighbors.push(up_at);
            }
        }
        if at.1 + 1 < SIZE {
            let down_at = Location(at.0, at.1 + 1);
            if here.path_down && Tile::from(&self.placed[down_at.rank()]).path_up {
                neighbors.push(down_at);
            }
        }
        if at.0 > 0 {
            let left_at = Location(at.0 - 1, at.1);
            if here.path_left && Tile::from(&self.placed[left_at.rank()]).path_right {
                neighbors.push(left_at);
            }
        }
        if at.0 + 1 < SIZE {
            let right_at = Location(at.0 + 1, at.1);
            if here.path_right && Tile::from(&self.placed[right_at.rank()]).path_left {
                neighbors.push(right_at);
            }
        }
        Ok(neighbors)
    }
}

/// The tokens on one tile are the players that stand on it.
pub proof fn lemma_tokens_on(l: Location, players: PlayerSet, m: Location, p: Player)
    ensures
        tokens_on(l, players).contains((m, p)) <==> m == l && players.has(p),
        tokens_on(l, players).no_duplicates(),
        tokens_on(l, players).len() == players.count(),
{
    let s1 = if players.player1 { seq![(l, Player::Player1)] } else { seq![] };
    let s2 = if players.player2 { seq![(l, Player::Player2)] } else { seq![] };
    let s3 = if players.player3 { seq![(l, Player::Player3)] } else { seq![] };
    let s = tokens_on(l, players);
    if m == l && players.has(p) {
        match p {
            Player::Player1 => {
                assert(s[0] == (m, p));
            },
            Player::Player2 => {
                assert(s[s1.len() as int] == (m, p));
            },
            Player::Player3 => {
                assert(s[(s1.len() + s2.len()) as int] == (m, p));
            },
            Player::Player4 => {
                assert(s[(s1.len() + s2.len() + s3.len()) as int] == (m, p));
            },
        }
    }
}

/// The tokens of the board are the players on its tiles, each at the place of
/// its tile, and there are as many as the tiles count.
pub proof fn lemma_token_seq(placed: Seq<PlacedTile>, l: Location, p: Player)
    ensures
        token_seq(placed).contains((l, p)) <==> exists|k: int|
            0 <= k < placed.len() && l == Location::at(k) && (#[trigger] placed[k]).players.has(p),
        token_seq(placed).len() == token_total(placed),
    decreases placed.len(),
{
    if placed.len() > 0 {
        let front = token_seq(placed.drop_last());
        let k_last = placed.len() - 1;
        let back = tokens_on(Location::at(k_last), placed.last().players);
        lemma_token_seq(placed.drop_last(), l, p);
        lemma_tokens_on(Location::at(k_last), placed.last().players, l, p);
        let s = token_seq(placed);
        assert(s == front + back);
        if s.contains((l, p)) {
            let j = choose|j: int| 0 <= j < s.len() && s[j] == (l, p);
            if j < front.len() {
                assert(front[j] == (l, p));
                let k = choose|k: int|
                    0 <= k < placed.drop_last().len() && l == Location::at(k) && (
                    #[trigger] placed.drop_last()[k]).players.has(p);
                assert(placed[k].players.has(p));
            } else {
                assert(back[j - front.len()] == (l, p));
                assert(placed[k_last].players.has(p));
            }
        }
        if exists|k: int|
            0 <= k < placed.len() && l == Location::at(k) && (#[trigger] placed[k]).players.has(p) {
            let k = choose|k: int|
                0 <= k < placed.len() && l == Location::at(k) && (#[trigger] placed[k]).players.has(
                    p,
                );
            if k < k_last {
                assert(placed.drop_last()[k].players.has(p));
                let j = choose|j: int| 0 <= j < front.len() && front[j] == (l, p);
                assert(s[j] == (l, p));
            } else {
                let j = choose|j: int| 0 <= j < back.len() && back[j] == (l, p);
                assert(s[front.len() + j] == (l, p));
            }
        }
    }
}

/// Appends the tokens on the tile at `location` to `v`.
fn push_tokens(v: &mut Vec<(Location, Player)>, location: Location, players: PlayerSet)
    ensures
        final(v)@ == old(v)@ + tokens_on(location, players),
{
    if players.player1 {
        v.push((location, Player::Player1));
    }
    if players.player2 {
        v.push((location, Player::Player2));
    }
    if players.player3 {
        v.push((location, Player::Player3));
    }
    if players.player4 {
        v.push((location, Player::Player4));
    }
}

impl Board {
    /// The tokens of the board are the players that its tiles hold.
    pub proof fn lemma_tokens(&self, l: Location, p: Player)
        requires
            self.full(),
        ensures
            token_seq(self.placed@).contains((l, p)) <==> self.holds(l, p),
            token_seq(self.placed@).len() == self.token_count(),
    {
        lemma_token_seq(self.placed@, l, p);
        l.lemma_index(0);
        if token_seq(self.placed@).contains((l, p)) {
            let k = choose|k: int|
                0 <= k < self.placed@.len() && l == Location::at(k) && (
                #[trigger] self.placed@[k]).players.has(p);
            l.lemma_index(k);
        }
    }

    /// Which player stands where: the tokens of the board, place by place
    /// from the top left, and in the order of the players on one tile.
    pub fn players(&self) -> (v: Vec<(Location, Player)>)
        ensures
            v@ == token_seq(self.placed@),
            v@.len() == self.token_count(),
            self.full() ==> forall|l: Location, p: Player|
                #[trigger] v@.contains((l, p)) <==> self.holds(l, p),
    {
        let mut v: Vec<(Location, Player)> = Vec::new();
        let mut i: usize = 0;
        while i < self.placed.len()
            invariant
                i <= self.placed@.len(),
                v@ == token_seq(self.placed@.take(i as int)),
            decreases self.placed@.len() - i,
        {
            let location = Location(i % SIZE, i / SIZE);
            let players = self.placed[i].players;
            push_tokens(&mut v, location, players);
            proof {
                let next = self.placed@.take(i + 1);
                assert(next.drop_last() =~= self.placed@.take(i as int));
            }
            i = i + 1;
        }
        proof {
            assert(self.placed@.take(i as int) =~= self.placed@);
            lemma_token_seq(self.placed@, Location(0, 0), Player::Player1);
            if self.full() {
                assert forall|l: Location, p: Player| #[trigger]
                    v@.contains((l, p)) <==> self.holds(l, p) by {
                    self.lemma_tokens(l, p);
                }
            }
        }
        v
    }

    /// The item on the tile at `location`, if the tile shows one. A place off
    /// the board is refused.
    pub fn item_at(&self, location: &Location) -> (r: GenericResult<Option<Item>>)
        requires
            self.full(),
        ensures
            location.on_board() ==> r == Ok::<Option<Item>, GenericError>(
                self.tile_at(*location).tile.item(),
            ),
            !location.on_board() ==> (r matches Err(GenericError::Location(e)) && e.kind
                == LocationErrorKind::InvalidLocation && e.text() == invalid_location_text(
                *location,
            )),
    {
        match self.get(location) {
            Ok(tile) => match tile.tile.marking {
                Some(TileMarking::Item(item)) => Ok(Some(item)),
                _ => Ok(None),
            },
            Err(error) => Err(GenericError::Location(error)),
        }
    }
}

/// A walk over the tiles of a board, row by row from the top left.
#[derive(Debug, Clone)]
pub struct BoardIter<'a> {
    pub board: &'a Board,
    pub position: usize,
}

impl<'a> BoardIter<'a> {
    /// The tiles that the walk has still to visit.
    pub open spec fn remaining(&self) -> Seq<PlacedTile> {
        self.board.placed@.skip(self.position as int)
    }

    /// The next tile of the walk, if it has not visited all.
    pub fn next(&mut self) -> (r: Option<&'a PlacedTile>)
        ensures
            final(self).board == old(self).board,
            old(self).position < old(self).board.placed@.len() ==> r == Some(
                &old(self).board.placed@[old(self).position as int],
            ) && final(self).position == old(self).position + 1 && final(self).remaining()
                == old(self).remaining().drop_first(),
            old(self).position >= old(self).board.placed@.len() ==> r is None
                && final(self).position == old(self).position,
    {
        let board: &'a Board = self.board;
        if self.position < board.placed.len() {
            let tile = &board.placed[self.position];
            self.position = self.position + 1;
            Some(tile)
        } else {
            None
        }
    }
}

impl Board {
    /// A walk over the tiles of the board, which has all of them to visit.
    pub fn iter(&self) -> (it: BoardIter<'_>)
        ensures
            it.board == self,
            it.position == 0,
            it.remaining() == self.placed@,
    {
        let it = BoardIter { board: self, position: 0 };
        it
    }
}

} // verus!
