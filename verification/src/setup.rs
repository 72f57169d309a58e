//! Laying out a new board: the sixteen fixed tiles at their places, and the
//! thirty-four free tiles dealt at random over the other places, one of them
//! kept as the spare.

use vstd::prelude::*;
use vstd::multiset::Multiset;
use rand::seq::SliceRandom;
use rand::Rng;
use crate::board::{placement_ok, tile_seq, Board};
use crate::insertion::lemma_tile_seq_update;
use crate::location::{Location, CELLS};
use crate::players::PlayerSet;
use crate::tile::{Item, PlacedTile, Player, Rotation, Tile, TileMarking};

verus! {

/// `Rng::gen_range` on the range from zero to `high`, both included: some
/// number of that range. The range is never empty, which is all that the call
/// asks for.
#[verifier::external_body]
fn random_up_to<R: Rng>(rng: &mut R, high: usize) -> (n: usize)
    ensures
        n <= high,
{
    rng.gen_range(0..=high)
}

/// `SliceRandom::shuffle` on the items of a vector: it swaps items, so that
/// the vector holds the same items as before, each as often as before.
#[verifier::external_body]
pub(crate) fn shuffle<T, R: Rng>(items: &mut Vec<T>, rng: &mut R)
    ensures
        final(items)@.to_multiset() == old(items)@.to_multiset(),
{
    items.shuffle(rng)
}

/// The shapes of the tiles: corners, tees and lines, named by the sides on
/// which they are open (a tee by the side to which its stem points).
#[derive(Debug, PartialEq, Eq, Copy, Clone, Structural)]
pub enum Shape {
    CornerRightDown,
    CornerLeftDown,
    CornerLeftUp,
    CornerRightUp,
    TeeLeft,
    TeeRight,
    TeeUp,
    TeeDown,
    LineVertical,
    LineHorizontal,
}

impl Shape {
    /// The unmarked tile of this shape.
    pub open spec fn tile(self) -> Tile {
        match self {
            Shape::CornerRightDown => Tile::plain(false, true, true, false),
            Shape::CornerLeftDown => Tile::plain(false, false, true, true),
            Shape::CornerLeftUp => Tile::plain(true, false, false, true),
            Shape::CornerRightUp => Tile::plain(true, true, false, false),
            Shape::TeeLeft => Tile::plain(true, false, true, true),
            Shape::TeeRight => Tile::plain(true, true, true, false),
            Shape::TeeUp => Tile::plain(true, true, false, true),
            Shape::TeeDown => Tile::plain(false, true, true, true),
            Shape::LineVertical => Tile::plain(true, false, true, false),
            Shape::LineHorizontal => Tile::plain(false, true, false, true),
        }
    }

    /// The tile of this shape that shows `item`.
    pub open spec fn showing(self, item: Item) -> Tile {
        self.tile().marked(TileMarking::Item(item))
    }

    /// The tile of this shape on which `player` starts.
    pub open spec fn start_of(self, player: Player) -> Tile {
        self.tile().marked(TileMarking::PlayerStart(player))
    }

    /// The tile of this shape with the given marking.
    pub fn to_tile(self, marking: Option<TileMarking>) -> (t: Tile)
        ensures
            t == (Tile { marking, ..self.tile() }),
            t.openings() <= 3,
    {
        let (path_up, path_right, path_down, path_left) = match self {
            Shape::CornerRightDown => (false, true, true, false),
            Shape::CornerLeftDown => (false, false, true, true),
            Shape::CornerLeftUp => (true, false, false, true),
            Shape::CornerRightUp => (true, true, false, false),
            Shape::TeeLeft => (true, false, true, true),
            Shape::TeeRight => (true, true, true, false),
            Shape::TeeUp => (true, true, false, true),
            Shape::TeeDown => (false, true, true, true),
            Shape::LineVertical => (true, false, true, false),
            Shape::LineHorizontal => (false, true, false, true),
        };
        Tile { marking, path_up, path_right, path_down, path_left }
    }
}

/// The number of tiles that are fixed to the board.
pub const FIXED: usize = 16;

/// The number of tiles that move over the board, the spare among them.
pub const FREE: usize = 34;

/// The place of the fixed tile with number `i`: the fixed tiles lie on the
/// even columns of the even rows, and are counted row by row.
pub open spec fn fixed_place(i: int) -> Location {
    Location((2 * (i % 4)) as usize, (2 * (i / 4)) as usize)
}

/// The fixed tile with number `i`. The fixed tiles never move or turn.
pub open spec fn fixed_tile(i: int) -> Tile {
    if i == 0 {
        Shape::CornerRightDown.start_of(Player::Player1)
    } else if i == 1 {
        Shape::TeeDown.showing(Item::Goblet)
    } else if i == 2 {
        Shape::TeeDown.showing(Item::Sword)
    } else if i == 3 {
        Shape::CornerLeftDown.start_of(Player::Player2)
    } else if i == 4 {
        Shape::TeeRight.showing(Item::Sack)
    } else if i == 5 {
        Shape::TeeRight.showing(Item::Keys)
    } else if i == 6 {
        Shape::TeeDown.showing(Item::Gem)
    } else if i == 7 {
        Shape::TeeLeft.showing(Item::Helmet)
    } else if i == 8 {
        Shape::TeeRight.showing(Item::Book)
    } else if i == 9 {
        Shape::TeeUp.showing(Item::Crown)
    } else if i == 10 {
        Shape::TeeLeft.showing(Item::Chest)
    } else if i == 11 {
        Shape::TeeLeft.showing(Item::Candle)
    } else if i == 12 {
        Shape::CornerRightUp.start_of(Player::Player3)
    } else if i == 13 {
        Shape::TeeUp.showing(Item::Potion)
    } else if i == 14 {
        Shape::TeeUp.showing(Item::Ring)
    } else {
        Shape::CornerLeftUp.start_of(Player::Player4)
    }
}

/// The free tile with number `i`: twelve tiles that show an item, twelve
/// unmarked straight lines and ten unmarked corners.
pub open spec fn free_tile(i: int) -> Tile {
    if i == 0 {
        Shape::CornerRightDown.showing(Item::Spider)
    } else if i == 1 {
        Shape::TeeUp.showing(Item::Phantom)
    } else if i == 2 {
        Shape::TeeUp.showing(Item::Unicorn)
    } else if i == 3 {
        Shape::TeeUp.showing(Item::Gnome)
    } else if i == 4 {
        Shape::CornerRightDown.showing(Item::Cat)
    } else if i == 5 {
        Shape::CornerRightDown.showing(Item::Owl)
    } else if i == 6 {
        Shape::TeeUp.showing(Item::Genie)
    } else if i == 7 {
        Shape::CornerLeftDown.showing(Item::Mouse)
    } else if i == 8 {
        Shape::CornerRightDown.showing(Item::Lizard)
    } else if i == 9 {
        Shape::TeeUp.showing(Item::Bat)
    } else if i == 10 {
        Shape::TeeUp.showing(Item::Dragon)
    } else if i == 11 {
        Shape::CornerRightDown.showing(Item::Beetle)
    } else if i < 24 {
        Shape::LineVertical.tile()
    } else {
        Shape::CornerRightUp.tile()
    }
}

/// The tiles that are fixed to the board, each with its place.
pub open spec fn fixed_tiles() -> Seq<(Location, Tile)> {
    Seq::new(FIXED as nat, |i: int| (fixed_place(i), fixed_tile(i)))
}

/// The tiles that move over the board.
pub open spec fn free_tiles() -> Seq<Tile> {
    Seq::new(FREE as nat, |i: int| free_tile(i))
}

/// All tiles of the game.
pub open spec fn pool() -> Multiset<Tile> {
    Seq::new(FIXED as nat, |i: int| fixed_tile(i)).to_multiset().add(free_tiles().to_multiset())
}

/// The fixed tile with number `i`.
pub fn nth_fixed_tile(i: usize) -> (t: Tile)
    requires
        i < FIXED,
    ensures
        t == fixed_tile(i as int),
{
    if i == 0 {
        Shape::CornerRightDown.to_tile(Some(TileMarking::PlayerStart(Player::Player1)))
    } else if i == 1 {
        Shape::TeeDown.to_tile(Some(TileMarking::Item(Item::Goblet)))
    } else if i == 2 {
        Shape::TeeDown.to_tile(Some(TileMarking::Item(Item::Sword)))
    } else if i == 3 {
        Shape::CornerLeftDown.to_tile(Some(TileMarking::PlayerStart(Player::Player2)))
    } else if i == 4 {
        Shape::TeeRight.to_tile(Some(TileMarking::Item(Item::Sack)))
    } else if i == 5 {
        Shape::TeeRight.to_tile(Some(TileMarking::Item(Item::Keys)))
    } else if i == 6 {
        Shape::TeeDown.to_tile(Some(TileMarking::Item(Item::Gem)))
    } else if i == 7 {
        Shape::TeeLeft.to_tile(Some(TileMarking::Item(Item::Helmet)))
    } else if i == 8 {
        Shape::TeeRight.to_tile(Some(TileMarking::Item(Item::Book)))
    } else if i == 9 {
        Shape::TeeUp.to_tile(Some(TileMarking::Item(Item::Crown)))
    } else if i == 10 {
        Shape::TeeLeft.to_tile(Some(TileMarking::Item(Item::Chest)))
    } else if i == 11 {
        Shape::TeeLeft.to_tile(Some(TileMarking::Item(Item::Candle)))
    } else if i == 12 {
        Shape::CornerRightUp.to_tile(Some(TileMarking::PlayerStart(Player::Player3)))
    } else if i == 13 {
        Shape::TeeUp.to_tile(Some(TileMarking::Item(Item::Potion)))
    } else if i == 14 {
        Shape::TeeUp.to_tile(Some(TileMarking::Item(Item::Ring)))
    } else {
        Shape::CornerLeftUp.to_tile(Some(TileMarking::PlayerStart(Player::Player4)))
    }
}

/// The free tile with number `i`.
pub fn nth_free_tile(i: usize) -> (t: Tile)
    requires
        i < FREE,
    ensures
        t == free_tile(i as int),
        t.openings() <= 3,
{
    if i == 0 {
        Shape::CornerRightDown.to_tile(Some(TileMarking::Item(Item::Spider)))
    } else if i == 1 {
        Shape::TeeUp.to_tile(Some(TileMarking::Item(Item::Phantom)))
    } else if i == 2 {
        Shape::TeeUp.to_tile(Some(TileMarking::Item(Item::Unicorn)))
    } else if i == 3 {
        Shape::TeeUp.to_tile(Some(TileMarking::Item(Item::Gnome)))
    } else if i == 4 {
        Shape::CornerRightDown.to_tile(Some(TileMarking::Item(Item::Cat)))
    } else if i == 5 {
        Shape::CornerRightDown.to_tile(Some(TileMarking::Item(Item::Owl)))
    } else if i == 6 {
        Shape::TeeUp.to_tile(Some(TileMarking::Item(Item::Genie)))
    } else if i == 7 {
        Shape::CornerLeftDown.to_tile(Some(TileMarking::Item(Item::Mouse)))
    } else if i == 8 {
        Shape::CornerRightDown.to_tile(Some(TileMarking::Item(Item::Lizard)))
    } else if i == 9 {
        Shape::TeeUp.to_tile(Some(TileMarking::Item(Item::Bat)))
    } else if i == 10 {
        Shape::TeeUp.to_tile(Some(TileMarking::Item(Item::Dragon)))
    } else if i == 11 {
        Shape::CornerRightDown.to_tile(Some(TileMarking::Item(Item::Beetle)))
    } else if i < 24 {
        Shape::LineVertical.to_tile(None)
    } else {
        Shape::CornerRightUp.to_tile(None)
    }
}

/// The tiles that are fixed to the board, each with its place.
pub fn fixed_tile_list() -> (v: Vec<(Location, Tile)>)
    ensures
        v@ == fixed_tiles(),
{
    let mut v: Vec<(Location, Tile)> = Vec::new();
    let mut i: usize = 0;
    while i < FIXED
        invariant
            i <= FIXED,
            v@ == Seq::new(i as nat, |k: int| (fixed_place(k), fixed_tile(k))),
        decreases FIXED - i,
    {
        v.push((Location(2 * (i % 4), 2 * (i / 4)), nth_fixed_tile(i)));
        i = i + 1;
    }
    v
}

/// The tiles that move over the board.
pub fn free_tile_list() -> (v: Vec<Tile>)
    ensures
        v@ == free_tiles(),
{
    let mut v: Vec<Tile> = Vec::new();
    let mut i: usize = 0;
    while i < FREE
        invariant
            i <= FREE,
            v@ == Seq::new(i as nat, |k: int| free_tile(k)),
        decreases FREE - i,
    {
        v.push(nth_free_tile(i));
        i = i + 1;
    }
    v
}

impl Rotation {
    /// A rotation drawn at random. Each of the four rotations can come out.
    pub fn random<R: Rng>(rng: &mut R) -> (r: Rotation) {
        Rotation::from_quarter_turns(random_up_to(rng, 3))
    }
}

/// Whether `locations` deals the free places of the board: it holds every
/// place that has no fixed tile, once, and nothing else.
pub open spec fn deals_free_places(locations: Seq<Location>) -> bool {
    &&& locations.len() == FREE - 1
    &&& locations.no_duplicates()
    &&& forall|k: int|
        0 <= k < locations.len() ==> (#[trigger] locations[k]).on_board() && !locations[k].fixed()
    &&& forall|l: Location| l.on_board() && !l.fixed() ==> locations.contains(l)
}

/// How many places without a fixed tile come before rank `i`.
pub open spec fn free_before(i: int) -> int {
    let y = i / 7;
    let x = i % 7;
    3 * ((y + 1) / 2) + 7 * (y / 2) + if y % 2 == 0 {
        x / 2
    } else {
        x
    }
}

/// The same items in another order deal the free places too.
pub proof fn lemma_deal_permuted(dealt: Seq<Location>, permuted: Seq<Location>)
    requires
        deals_free_places(dealt),
        permuted.to_multiset() == dealt.to_multiset(),
    ensures
        deals_free_places(permuted),
{
    broadcast use vstd::seq_lib::group_to_multiset_ensures;

    assert(permuted.to_multiset().len() == permuted.len());
    dealt.lemma_multiset_has_no_duplicates();
    permuted.lemma_multiset_has_no_duplicates_conv();
    assert forall|k: int| 0 <= k < permuted.len() implies (#[trigger] permuted[k]).on_board()
        && !permuted[k].fixed() by {
        assert(dealt.to_multiset().count(permuted[k]) > 0);
    }
    assert forall|l: Location| l.on_board() && !l.fixed() implies permuted.contains(l) by {
        assert(permuted.to_multiset().count(l) > 0);
    }
}

/// The places of the board that have no fixed tile, row by row from the top
/// left.
pub fn free_locations() -> (v: Vec<Location>)
    ensures
        deals_free_places(v@),
        forall|j: int, k: int| 0 <= j < k < v@.len() ==> v@[j].index() < v@[k].index(),
{
    let mut v: Vec<Location> = Vec::new();
    let mut i: usize = 0;
    while i < CELLS
        invariant
            i <= CELLS,
            v@.len() == free_before(i as int),
            forall|k: int|
                0 <= k < v@.len() ==> (#[trigger] v@[k]).on_board() && !v@[k].fixed()
                    && v@[k].index() < i,
            forall|j: int, k: int| 0 <= j < k < v@.len() ==> v@[j].index() < v@[k].index(),
            forall|l: Location| l.on_board() && !l.fixed() && l.index() < i ==> v@.contains(l),
        decreases CELLS - i,
    {
        let location = Location::of_rank(i);
        let ghost before = v@;
        if !location.is_fixed() {
            v.push(location);
            proof {
                assert(v@[before.len() as int] == location);
                assert forall|l: Location|
                    l.on_board() && !l.fixed() && l.index() < i + 1 implies v@.contains(l) by {
                    l.lemma_index(0);
                    if l.index() < i {
                        let k = choose|k: int| 0 <= k < before.len() && before[k] == l;
                        assert(v@[k] == l);
                    }
                }
            }
        } else {
            proof {
                assert forall|l: Location|
                    l.on_board() && !l.fixed() && l.index() < i + 1 implies v@.contains(l) by {
                    l.lemma_index(0);
                }
            }
        }
        i = i + 1;
    }
    v
}

/// The shapes of two vectors that hold the same placed tiles hold the same
/// tiles.
pub proof fn lemma_tile_seq_permuted(a: Seq<PlacedTile>, b: Seq<PlacedTile>)
    requires
        a.to_multiset() == b.to_multiset(),
    ensures
        tile_seq(a).to_multiset() == tile_seq(b).to_multiset(),
    decreases a.len(),
{
    broadcast use vstd::seq_lib::group_to_multiset_ensures;

    assert(b.to_multiset().len() == b.len());
    if a.len() == 0 {
    } else {
        let x = a.last();
        assert(b.to_multiset().count(x) > 0);
        let j = choose|j: int| 0 <= j < b.len() && b[j] == x;
        let shorter_a = a.drop_last();
        let shorter_b = b.remove(j);
        assert(shorter_a =~= a.remove(a.len() - 1));
        lemma_tile_seq_permuted(shorter_a, shorter_b);
        assert(tile_seq(a) =~= tile_seq(shorter_a).push(x.tile));
        assert(tile_seq(b) =~= tile_seq(shorter_b).insert(j, x.tile));
    }
}

/// The number of a fixed place among the fixed places, counted row by row.
pub open spec fn fixed_number(l: Location) -> int {
    (l.1 / 2) * 4 + l.0 / 2
}

/// The players that stand on `tile` when the game begins: the player whose
/// start it marks, if that player takes part.
pub open spec fn starting(tile: Tile, participants: PlayerSet) -> PlayerSet {
    match tile.marking {
        Some(TileMarking::PlayerStart(p)) => if participants.has(p) {
            PlayerSet::none().with(p)
        } else {
            PlayerSet::none()
        },
        _ => PlayerSet::none(),
    }
}

/// The fixed tile with number `i` as it lies when the game begins.
pub open spec fn fixed_placed(i: int, participants: PlayerSet) -> PlacedTile {
    PlacedTile {
        tile: fixed_tile(i),
        rotation: Rotation::Zero,
        players: starting(fixed_tile(i), participants),
    }
}

/// The place of the tile on which `player` starts.
pub open spec fn start_place(player: Player) -> Location {
    match player {
        Player::Player1 => Location(0, 0),
        Player::Player2 => Location(6, 0),
        Player::Player3 => Location(0, 6),
        Player::Player4 => Location(6, 6),
    }
}

/// The fixed tiles lie on the fixed places, open no path off the board, and
/// mark the start of each player at one corner.
pub proof fn lemma_fixed_tiles(i: int, l: Location)
    ensures
        0 <= i < FIXED ==> fixed_place(i).fixed() && fixed_number(fixed_place(i)) == i
            && placement_ok(fixed_place(i), fixed_tile(i)),
        l.fixed() ==> 0 <= fixed_number(l) < FIXED && fixed_place(fixed_number(l)) == l,
        forall|p: Player|
            0 <= i < FIXED ==> (fixed_tile(i).marking == Some(TileMarking::PlayerStart(p))
                <==> fixed_place(i) == start_place(p)),
{
}

/// A sequence without items holds nothing.
proof fn lemma_nothing(s: Seq<Tile>)
    requires
        s.len() == 0,
    ensures
        s.to_multiset() == Multiset::<Tile>::empty(),
{
    broadcast use vstd::seq_lib::group_to_multiset_ensures;
    broadcast use vstd::multiset::group_multiset_axioms;

}

/// A multiset of `n` copies of `tile`.
spec fn copies(n: nat, tile: Tile) -> Multiset<Tile> {
    Seq::new(n, |j: int| tile).to_multiset()
}

/// Laying a tile on a place that held a filler takes one filler away.
proof fn lemma_lay(
    placed: Seq<PlacedTile>,
    q: int,
    tile: PlacedTile,
    filler: Tile,
    n: nat,
    laid: Multiset<Tile>,
)
    requires
        0 <= q < placed.len(),
        placed[q].tile == filler,
        n >= 1,
        tile_seq(placed).to_multiset() == copies(n, filler).add(laid),
    ensures
        tile_seq(placed.update(q, tile)).to_multiset() == copies((n - 1) as nat, filler).add(
            laid.insert(tile.tile),
        ),
{
    broadcast use vstd::seq_lib::group_to_multiset_ensures;
    broadcast use vstd::multiset::group_multiset_axioms;

    lemma_tile_seq_update(placed, q, tile);
    let fewer = Seq::new((n - 1) as nat, |j: int| filler);
    assert(Seq::new(n, |j: int| filler) =~= fewer.push(filler));
    let after = tile_seq(placed.update(q, tile)).to_multiset();
    assert forall|t: Tile| after.count(t) == copies((n - 1) as nat, filler).add(
        laid.insert(tile.tile),
    ).count(t) by {
        assert(after.insert(filler).count(t) == tile_seq(placed).to_multiset().insert(
            tile.tile,
        ).count(t));
    }
}

/// The rotations under which `tile` opens no path off the board at
/// `location`, by their quarter turns.
pub fn fitting_rotations(location: &Location, tile: &Tile) -> (v: Vec<Rotation>)
    ensures
        forall|r: Rotation| v@.contains(r) <==> placement_ok(*location, tile.rotated(r)),
        forall|j: int, k: int|
            0 <= j < k < v@.len() ==> v@[j].quarter_turns() < v@[k].quarter_turns(),
{
    let mut v: Vec<Rotation> = Vec::new();
    let mut rotation = Rotation::Zero;
    let mut turns: usize = 0;
    while turns < 4
        invariant
            turns <= 4,
            turns < 4 ==> rotation.quarter_turns() == turns,
            forall|r: Rotation|
                v@.contains(r) <==> r.quarter_turns() < turns && placement_ok(
                    *location,
                    tile.rotated(r),
                ),
            forall|j: int, k: int|
                0 <= j < k < v@.len() ==> v@[j].quarter_turns() < v@[k].quarter_turns(),
        decreases 4 - turns,
    {
        let candidate = PlacedTile { tile: *tile, rotation, players: PlayerSet::new() };
        let ghost before = v@;
        if Board::tile_placement_ok(location, &candidate) {
            v.push(rotation);
            proof {
                assert(v@[before.len() as int] == rotation);
                assert forall|r: Rotation|
                    v@.contains(r) <==> r.quarter_turns() < turns + 1 && placement_ok(
                        *location,
                        tile.rotated(r),
                    ) by {
                    if before.contains(r) {
                        let k = choose|k: int| 0 <= k < before.len() && before[k] == r;
                        assert(v@[k] == r);
                    }
                    if v@.contains(r) {
                        let k = choose|k: int| 0 <= k < v@.len() && v@[k] == r;
                        if k < before.len() {
                            assert(before[k] == r);
                        }
                    }
                }
                assert forall|j: int, k: int| 0 <= j < k < v@.len() implies v@[j].quarter_turns()
                    < v@[k].quarter_turns() by {
                    assert(before.contains(v@[j]));
                }
            }
        }
        rotation = rotation.clockwise();
        turns = turns + 1;
    }
    v
}

/// A tile that is closed on one side fits every place of an edge that is no
/// corner, under some rotation.
pub proof fn lemma_some_rotation_fits(location: Location, tile: Tile)
    requires
        location.on_board(),
        !location.fixed(),
        tile.openings() <= 3,
    ensures
        exists|r: Rotation| placement_ok(location, tile.rotated(r)),
{
    if placement_ok(location, tile.rotated(Rotation::Zero)) {
    } else if placement_ok(location, tile.rotated(Rotation::Clockwise90)) {
    } else if placement_ok(location, tile.rotated(Rotation::Clockwise180)) {
    } else {
        assert(placement_ok(location, tile.rotated(Rotation::Clockwise270)));
    }
}

/// Turns `placed_tile` so that it opens no path off the board at `location`.
/// A tile that fits stays as it lies; one that does not gets a rotation drawn
/// at random among those that fit.
fn settle<R: Rng>(rng: &mut R, location: &Location, placed_tile: &mut PlacedTile)
    requires
        location.on_board(),
        !location.fixed(),
        old(placed_tile).tile.openings() <= 3,
    ensures
        final(placed_tile).tile == old(placed_tile).tile,
        final(placed_tile).players == old(placed_tile).players,
        placement_ok(*location, final(placed_tile).effective()),
        placement_ok(*location, old(placed_tile).effective()) ==> *final(placed_tile) == *old(
            placed_tile,
        ),
{
    if !Board::tile_placement_ok(location, placed_tile) {
        let fitting = fitting_rotations(location, &placed_tile.tile);
        proof {
            lemma_some_rotation_fits(*location, placed_tile.tile);
            let r = choose|r: Rotation| placement_ok(*location, placed_tile.tile.rotated(r));
            assert(fitting@.contains(r));
        }
        let k = random_up_to(rng, fitting.len() - 1);
        proof {
            assert(fitting@.contains(fitting@[k as int]));
        }
        placed_tile.rotation = fitting[k];
    }
}

impl Board {
    /// The board on which the fixed tiles lie at their places, with the
    /// players that take part on their starts, and on which the tile number
    /// `k` of `tiles` lies at the place number `k` of `locations`; beside it
    /// the tile `spare`.
    pub fn assemble(
        participants: &PlayerSet,
        locations: &Vec<Location>,
        tiles: &Vec<PlacedTile>,
        spare: Tile,
    ) -> (board: Board)
        requires
            deals_free_places(locations@),
            tiles@.len() == locations@.len(),
            forall|k: int| 0 <= k < tiles@.len() ==> (#[trigger] tiles@[k]).players == PlayerSet::none(),
        ensures
            board.wf(),
            board.spare == spare,
            forall|i: int|
                0 <= i < FIXED ==> board.tile_at(#[trigger] fixed_place(i)) == fixed_placed(
                    i,
                    *participants,
                ),
            forall|k: int| 0 <= k < tiles@.len() ==> board.tile_at(#[trigger] locations@[k]) == tiles@[k],
            tile_seq(board.placed@).to_multiset() == Seq::new(
                FIXED as nat,
                |i: int| fixed_tile(i),
            ).to_multiset().add(tile_seq(tiles@).to_multiset()),
            forall|p: Player| board.has_token(p) <==> participants.has(p),
            forall|p: Player| participants.has(p) ==> board.holds(start_place(p), p),
    {
        let filler = PlacedTile { tile: spare, rotation: Rotation::Zero, players: PlayerSet::new() };
        let mut placed: Vec<PlacedTile> = Vec::new();
        while placed.len() < CELLS
            invariant
                placed@.len() <= CELLS,
                placed@ == Seq::new(placed@.len(), |q: int| filler),
            decreases CELLS - placed@.len(),
        {
            placed.push(filler);
            assert(placed@ =~= Seq::new(placed@.len(), |q: int| filler));
        }
        let ghost none = Multiset::<Tile>::empty();
        proof {
            broadcast use vstd::multiset::group_multiset_axioms;

            assert(tile_seq(placed@) =~= Seq::new(CELLS as nat, |j: int| spare));
            lemma_nothing(Seq::new(0, |j: int| fixed_tile(j)));
            assert(copies(CELLS as nat, spare).add(none) =~= copies(CELLS as nat, spare));
        }
        let mut i: usize = 0;
        while i < FIXED
            invariant
                i <= FIXED,
                placed@.len() == CELLS,
                filler == (PlacedTile {
                    tile: spare,
                    rotation: Rotation::Zero,
                    players: PlayerSet::none(),
                }),
                forall|j: int|
                    0 <= j < i ==> placed@[(#[trigger] fixed_place(j)).index()] == fixed_placed(
                        j,
                        *participants,
                    ),
                forall|l: Location|
                    l.on_board() && !(l.fixed() && fixed_number(l) < i) ==> #[trigger] placed@[l.index()]
                        == filler,
                tile_seq(placed@).to_multiset() == copies((CELLS - i) as nat, spare).add(
                    Seq::new(i as nat, |j: int| fixed_tile(j)).to_multiset(),
                ),
            decreases FIXED - i,
        {
            let location = Location(2 * (i % 4), 2 * (i / 4));
            let tile = nth_fixed_tile(i);
            let mut players = PlayerSet::new();
            match tile.marking {
                Some(TileMarking::PlayerStart(p)) => {
                    if participants.contains(&p) {
                        players.insert(p);
                    }
                },
                _ => {},
            }
            let fixed = PlacedTile { tile, rotation: Rotation::Zero, players };
            let ghost before = placed@;
            proof {
                lemma_fixed_tiles(i as int, location);
                location.lemma_index(0);
                assert(before[location.index()] == filler);
                lemma_lay(
                    before,
                    location.index(),
                    fixed,
                    spare,
                    (CELLS - i) as nat,
                    Seq::new(i as nat, |j: int| fixed_tile(j)).to_multiset(),
                );
                vstd::seq_lib::to_multiset_build(
                    Seq::new(i as nat, |j: int| fixed_tile(j)),
                    fixed_tile(i as int),
                );
                assert(Seq::new((i + 1) as nat, |j: int| fixed_tile(j)) =~= Seq::new(
                    i as nat,
                    |j: int| fixed_tile(j),
                ).push(fixed_tile(i as int)));
            }
            placed.set(location.rank(), fixed);
            proof {
                assert forall|j: int| 0 <= j < i + 1 implies placed@[(
                #[trigger] fixed_place(j)).index()] == fixed_placed(j, *participants) by {
                    lemma_fixed_tiles(j, location);
                    fixed_place(j).lemma_index(0);
                }
                assert forall|l: Location|
                    l.on_board() && !(l.fixed() && fixed_number(l) < i + 1)
                    implies #[trigger] placed@[l.index()] == filler by {
                    lemma_fixed_tiles(i as int, l);
                    l.lemma_index(0);
                }
            }
            i = i + 1;
        }
        let ghost fixed_multiset = Seq::new(FIXED as nat, |j: int| fixed_tile(j)).to_multiset();
        proof {
            broadcast use vstd::multiset::group_multiset_axioms;

            lemma_nothing(tile_seq(tiles@.take(0)));
            assert(fixed_multiset.add(tile_seq(tiles@.take(0)).to_multiset()) =~= fixed_multiset);
        }
        let mut k: usize = 0;
        while k < locations.len()
            invariant
                k <= locations@.len(),
                placed@.len() == CELLS,
                deals_free_places(locations@),
                tiles@.len() == locations@.len(),
                filler == (PlacedTile {
                    tile: spare,
                    rotation: Rotation::Zero,
                    players: PlayerSet::none(),
                }),
                fixed_multiset == Seq::new(FIXED as nat, |j: int| fixed_tile(j)).to_multiset(),
                forall|j: int|
                    0 <= j < FIXED ==> placed@[(#[trigger] fixed_place(j)).index()] == fixed_placed(
                        j,
                        *participants,
                    ),
                forall|j: int| 0 <= j < k ==> placed@[(#[trigger] locations@[j]).index()] == tiles@[j],
                forall|l: Location|
                    l.on_board() && !l.fixed() && !locations@.take(k as int).contains(l)
                        ==> #[trigger] placed@[l.index()] == filler,
                tile_seq(placed@).to_multiset() == copies((CELLS - FIXED - k) as nat, spare).add(
                    fixed_multiset.add(tile_seq(tiles@.take(k as int)).to_multiset()),
                ),
            decreases locations@.len() - k,
        {
            let location = locations[k];
            let tile = tiles[k];
            let ghost before = placed@;
            let ghost laid = fixed_multiset.add(tile_seq(tiles@.take(k as int)).to_multiset());
            proof {
                location.lemma_index(0);
                if locations@.take(k as int).contains(location) {
                    let j = choose|j: int|
                        0 <= j < locations@.take(k as int).len() && locations@.take(k as int)[j]
                            == location;
                    assert(locations@[j] == locations@[k as int]);
                }
                assert(before[location.index()] == filler);
                lemma_lay(before, location.index(), tile, spare, (CELLS - FIXED - k) as nat, laid);
                assert(tiles@.take(k + 1) =~= tiles@.take(k as int).push(tile));
                assert(tile_seq(tiles@.take(k + 1)) =~= tile_seq(tiles@.take(k as int)).push(
                    tile.tile,
                ));
                vstd::seq_lib::to_multiset_build(tile_seq(tiles@.take(k as int)), tile.tile);
                assert(laid.insert(tile.tile) =~= fixed_multiset.add(
                    tile_seq(tiles@.take(k + 1)).to_multiset(),
                ));
            }
            placed.set(location.rank(), tile);
            proof {
                assert forall|j: int| 0 <= j < FIXED implies placed@[(
                #[trigger] fixed_place(j)).index()] == fixed_placed(j, *participants) by {
                    lemma_fixed_tiles(j, location);
                    fixed_place(j).lemma_index(0);
                }
                assert forall|j: int| 0 <= j < k + 1 implies placed@[(
                #[trigger] locations@[j]).index()] == tiles@[j] by {
                    locations@[j].lemma_index(0);
                }
                assert forall|l: Location|
                    l.on_board() && !l.fixed() && !locations@.take(k + 1).contains(l)
                    implies #[trigger] placed@[l.index()] == filler by {
                    l.lemma_index(0);
                    assert(locations@.take(k + 1)[k as int] == location);
                    if locations@.take(k as int).contains(l) {
                        let j = choose|j: int|
                            0 <= j < locations@.take(k as int).len() && locations@.take(
                                k as int,
                            )[j] == l;
                        assert(locations@.take(k + 1)[j] == l);
                    }
                }
            }
            k = k + 1;
        }
        let board = Board { placed, spare };
        proof {
            assert(tiles@.take(k as int) =~= tiles@);
            broadcast use vstd::multiset::group_multiset_axioms;

            lemma_nothing(Seq::new(0, |j: int| spare));
            assert(copies(0, spare).add(fixed_multiset.add(tile_seq(tiles@).to_multiset()))
                =~= fixed_multiset.add(tile_seq(tiles@).to_multiset()));
            board.lemma_assembled(*participants, locations@, tiles@);
        }
        board
    }

    /// On an assembled board every player that takes part stands on their
    /// start, and nobody stands anywhere else.
    proof fn lemma_assembled(
        &self,
        participants: PlayerSet,
        locations: Seq<Location>,
        tiles: Seq<PlacedTile>,
    )
        requires
            self.full(),
            deals_free_places(locations),
            tiles.len() == locations.len(),
            forall|k: int| 0 <= k < tiles.len() ==> (#[trigger] tiles[k]).players == PlayerSet::none(),
            forall|i: int|
                0 <= i < FIXED ==> self.tile_at(#[trigger] fixed_place(i)) == fixed_placed(
                    i,
                    participants,
                ),
            forall|k: int| 0 <= k < tiles.len() ==> self.tile_at(#[trigger] locations[k]) == tiles[k],
        ensures
            self.wf(),
            forall|p: Player| self.has_token(p) <==> participants.has(p),
            forall|p: Player| participants.has(p) ==> self.holds(start_place(p), p),
            forall|l: Location, p: Player|
                self.holds(l, p) ==> l == start_place(p) && participants.has(p),
            forall|l: Location|
                l.on_board() && !l.fixed() ==> (#[trigger] self.tile_at(l)).players
                    == PlayerSet::none(),
    {
        assert forall|l: Location, p: Player| self.holds(l, p) implies l == start_place(p)
            && participants.has(p) by {
            if l.fixed() {
                let i = fixed_number(l);
                lemma_fixed_tiles(i, l);
            }
        }
        assert forall|p: Player| participants.has(p) implies self.holds(start_place(p), p) by {
            let l = start_place(p);
            let i = fixed_number(l);
            lemma_fixed_tiles(i, l);
        }
    }
}

/// Every free tile is closed on one side at least.
pub proof fn lemma_free_tiles(i: int)
    requires
        0 <= i < FREE,
    ensures
        free_tile(i).openings() <= 3,
{
}

impl Board {
    /// Whether the board is one on which a game of `participants` begins. It
    /// is well formed and holds all tiles of the game. The fixed tiles lie at
    /// their places, unrotated. No tile opens a path off the board. Each
    /// participant stands on their start, and nobody stands anywhere else.
    pub open spec fn fresh(&self, participants: PlayerSet) -> bool {
        &&& self.wf()
        &&& self.tiles() == pool()
        &&& forall|i: int|
            0 <= i < FIXED ==> self.tile_at(#[trigger] fixed_place(i)) == fixed_placed(
                i,
                participants,
            )
        &&& forall|l: Location|
            l.on_board() ==> placement_ok(l, (#[trigger] self.tile_at(l)).effective())
        &&& forall|l: Location|
            l.on_board() && !l.fixed() ==> (#[trigger] self.tile_at(l)).players
                == PlayerSet::none()
        &&& forall|p: Player| self.has_token(p) <==> participants.has(p)
        &&& forall|p: Player| participants.has(p) ==> self.holds(start_place(p), p)
    }

    /// A new board. The fixed tiles lie at their places; each player of
    /// `players` stands on their start. The free tiles are dealt at random over
    /// the other places, each under a rotation drawn at random among those
    /// that open no path off the board, and one of them is the spare.
    pub fn new<R: Rng>(rng: &mut R, players: &PlayerSet) -> (board: Board)
        ensures
            board.fresh(*players),
    {
        let catalog = free_tile_list();
        let mut free_tiles: Vec<PlacedTile> = Vec::new();
        let mut i: usize = 0;
        while i < catalog.len()
            invariant
                i <= catalog@.len(),
                catalog@ == crate::setup::free_tiles(),
                free_tiles@.len() == i,
                tile_seq(free_tiles@) == catalog@.take(i as int),
                forall|j: int|
                    0 <= j < i ==> (#[trigger] free_tiles@[j]).players == PlayerSet::none()
                        && free_tiles@[j].tile.openings() <= 3,
            decreases catalog@.len() - i,
        {
            let rotation = Rotation::random(rng);
            let tile = catalog[i];
            proof {
                lemma_free_tiles(i as int);
            }
            free_tiles.push(PlacedTile { tile, rotation, players: PlayerSet::new() });
            i = i + 1;
        }
        let mut free_locations = free_locations();
        let ghost drawn = free_tiles@;
        let ghost dealt = free_locations@;
        shuffle(&mut free_tiles, rng);
        shuffle(&mut free_locations, rng);
        let ghost shuffled = free_tiles@;
        proof {
            broadcast use vstd::seq_lib::group_to_multiset_ensures;

            assert(catalog@.take(i as int) =~= catalog@);
            lemma_deal_permuted(dealt, free_locations@);
            lemma_tile_seq_permuted(shuffled, drawn);
            assert(drawn.to_multiset().len() == drawn.len());
            assert forall|j: int| 0 <= j < shuffled.len() implies (#[trigger] shuffled[j]).players
                == PlayerSet::none() && shuffled[j].tile.openings() <= 3 by {
                assert(drawn.to_multiset().count(shuffled[j]) > 0);
            }
        }
        let extra_tile = free_tiles.pop().unwrap().tile;
        let ghost kept = free_tiles@;
        proof {
            assert(tile_seq(shuffled) =~= tile_seq(kept).push(extra_tile));
            vstd::seq_lib::to_multiset_build(tile_seq(kept), extra_tile);
        }
        let mut k: usize = 0;
        while k < free_tiles.len()
            invariant
                k <= free_tiles@.len(),
                free_tiles@.len() == free_locations@.len(),
                deals_free_places(free_locations@),
                tile_seq(free_tiles@) == tile_seq(kept),
                forall|j: int|
                    0 <= j < free_tiles@.len() ==> (#[trigger] free_tiles@[j]).players
                        == PlayerSet::none() && free_tiles@[j].tile.openings() <= 3,
                forall|j: int|
                    0 <= j < k ==> placement_ok(
                        free_locations@[j],
                        (#[trigger] free_tiles@[j]).effective(),
                    ),
            decreases free_tiles@.len() - k,
        {
            let location = free_locations[k];
            let mut placed_tile = free_tiles[k];
            settle(rng, &location, &mut placed_tile);
            free_tiles.set(k, placed_tile);
            k = k + 1;
        }
        let board = Board::assemble(players, &free_locations, &free_tiles, extra_tile);
        proof {
            broadcast use vstd::multiset::group_multiset_axioms;

            let fixed_multiset = Seq::new(FIXED as nat, |j: int| fixed_tile(j)).to_multiset();
            assert(fixed_multiset.add(tile_seq(kept).to_multiset()).insert(extra_tile)
                =~= fixed_multiset.add(tile_seq(kept).to_multiset().insert(extra_tile)));
            board.lemma_assembled(*players, free_locations@, free_tiles@);
            assert forall|l: Location| l.on_board() implies placement_ok(
                l,
                (#[trigger] board.tile_at(l)).effective(),
            ) by {
                if l.fixed() {
                    let n = fixed_number(l);
                    lemma_fixed_tiles(n, l);
                }
            }
        }
        board
    }
}

} // verus!
