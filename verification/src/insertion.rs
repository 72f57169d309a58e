//! Sliding the spare tile into the board: one row or column moves by one
//! place, the tile at its far end leaves the board and becomes the spare.

use vstd::prelude::*;
use crate::board::{placement_ok, tile_seq, token_total, Board};
use crate::errors::{LocationError, LocationErrorKind};
use crate::location::{Location, CELLS, SIZE};
use crate::players::PlayerSet;
use crate::tile::{PlacedTile, Player, Rotation, Tile};

verus! {

/// The twelve places where the spare tile can enter: the odd places of the
/// four edges.
pub open spec fn entry_point(l: Location) -> bool {
    &&& l.on_board()
    &&& {
        ||| ((l.1 == 0 || l.1 == 6) && l.0 % 2 == 1)
        ||| ((l.0 == 0 || l.0 == 6) && l.1 % 2 == 1)
    }
}

/// Whether a tile that enters at `entry` moves a column (and not a row).
pub open spec fn vertical(entry: Location) -> bool {
    entry.0 % 2 == 1
}

/// Whether `l` lies on the row or column that moves when a tile enters at
/// `entry`.
pub open spec fn in_line(entry: Location, l: Location) -> bool {
    if vertical(entry) {
        l.0 == entry.0
    } else {
        l.1 == entry.1
    }
}

/// How many places `l` lies from the edge of `entry`, along the moving line.
pub open spec fn steps_from(entry: Location, l: Location) -> int {
    if vertical(entry) {
        if entry.1 == 0 {
            l.1 as int
        } else {
            6 - l.1
        }
    } else {
        if entry.0 == 0 {
            l.0 as int
        } else {
            6 - l.0
        }
    }
}

/// The place of the moving line that lies `d` places from `entry`.
pub open spec fn cell(entry: Location, d: int) -> Location {
    if vertical(entry) {
        Location(entry.0, (if entry.1 == 0 { d } else { 6 - d }) as usize)
    } else {
        Location((if entry.0 == 0 { d } else { 6 - d }) as usize, entry.1)
    }
}

/// The far end of the moving line, where a tile leaves the board.
pub open spec fn opposite(entry: Location) -> Location {
    cell(entry, 6)
}

/// The place from which the tile comes that lies at `l` after a tile has
/// entered at `entry`: one place nearer to `entry` on the moving line, and `l`
/// itself elsewhere.
pub open spec fn source(entry: Location, l: Location) -> Location {
    if in_line(entry, l) && l != entry {
        cell(entry, steps_from(entry, l) - 1)
    } else {
        l
    }
}

/// The tiles of the board after `pushed_in` has entered at `entry`.
pub open spec fn inserted(placed: Seq<PlacedTile>, entry: Location, pushed_in: PlacedTile) -> Seq<
    PlacedTile,
> {
    Seq::new(
        placed.len(),
        |k: int|
            if Location::at(k) == entry {
                pushed_in
            } else {
                placed[source(entry, Location::at(k)).index()]
            },
    )
}

/// The tiles of the board while the line slides: the places up to `done`
/// steps from `entry` have their new tiles, but for `entry` itself.
pub open spec fn sliding(placed: Seq<PlacedTile>, entry: Location, done: int) -> Seq<PlacedTile> {
    Seq::new(
        placed.len(),
        |k: int|
            if in_line(entry, Location::at(k)) && 1 <= steps_from(entry, Location::at(k)) <= done {
                placed[source(entry, Location::at(k)).index()]
            } else {
                placed[k]
            },
    )
}

impl Board {
    /// The tile that enters when the spare is inserted at `entry` under
    /// `rotation`: it carries the players of the tile that leaves.
    pub open spec fn entering(&self, entry: Location, rotation: Rotation) -> PlacedTile {
        PlacedTile {
            tile: self.spare,
            rotation,
            players: self.tile_at(opposite(entry)).players,
        }
    }

    /// Whether the spare tile may enter at `entry` under `rotation`.
    pub open spec fn may_enter(&self, entry: Location, rotation: Rotation) -> bool {
        placement_ok(entry, self.spare.rotated(rotation))
    }
}

/// The number of tokens changes with one tile as that tile's tokens do.
pub proof fn lemma_token_total_update(placed: Seq<PlacedTile>, i: int, tile: PlacedTile)
    requires
        0 <= i < placed.len(),
    ensures
        token_total(placed.update(i, tile)) + placed[i].players.count() == token_total(placed)
            + tile.players.count(),
    decreases placed.len(),
{
    let updated = placed.update(i, tile);
    if i == placed.len() - 1 {
        assert(updated.drop_last() =~= placed.drop_last());
    } else {
        assert(updated.drop_last() =~= placed.drop_last().update(i, tile));
        lemma_token_total_update(placed.drop_last(), i, tile);
    }
}

/// The tiles change with one place as the tile at that place does.
pub proof fn lemma_tile_seq_update(placed: Seq<PlacedTile>, i: int, tile: PlacedTile)
    requires
        0 <= i < placed.len(),
    ensures
        tile_seq(placed.update(i, tile)).to_multiset().insert(placed[i].tile) == tile_seq(
            placed,
        ).to_multiset().insert(tile.tile),
{
    broadcast use vstd::seq_lib::group_to_multiset_ensures;

    let before = tile_seq(placed);
    let after = tile_seq(placed.update(i, tile));
    assert(after =~= before.update(i, tile.tile));
    vstd::seq_lib::to_multiset_update(before, i, tile.tile);
}

/// The places of the line that moves when a tile enters at `entry`.
pub proof fn lemma_cells(entry: Location, d: int, l: Location)
    requires
        entry_point(entry),
    ensures
        0 <= d <= 6 ==> cell(entry, d).on_board() && in_line(entry, cell(entry, d)) && steps_from(
            entry,
            cell(entry, d),
        ) == d,
        cell(entry, 0) == entry,
        l.on_board() && in_line(entry, l) ==> 0 <= steps_from(entry, l) <= 6 && cell(
            entry,
            steps_from(entry, l),
        ) == l,
        l.on_board() ==> source(entry, l).on_board(),
        l.on_board() ==> (source(entry, l) == l <==> !in_line(entry, l) || l == entry),
        l.on_board() ==> source(entry, l) != opposite(entry),
{
}

/// While the line slides, the tiles on the board and the tile in hand are
/// together the tiles that were on the board and the tile at the entry, and
/// the tokens on them are the same in number.
pub proof fn lemma_sliding(placed: Seq<PlacedTile>, entry: Location, d: int)
    requires
        placed.len() == CELLS,
        entry_point(entry),
        0 <= d <= 6,
    ensures
        tile_seq(sliding(placed, entry, d)).to_multiset().insert(
            placed[cell(entry, d).index()].tile,
        ) == tile_seq(placed).to_multiset().insert(placed[entry.index()].tile),
        token_total(sliding(placed, entry, d)) + placed[cell(entry, d).index()].players.count()
            == token_total(placed) + placed[entry.index()].players.count(),
        d > 0 ==> sliding(placed, entry, d) == sliding(placed, entry, d - 1).update(
            cell(entry, d).index(),
            placed[cell(entry, d - 1).index()],
        ),
        sliding(placed, entry, 0) == placed,
    decreases d,
{
    lemma_cells(entry, d, entry);
    assert(sliding(placed, entry, 0) =~= placed);
    if d > 0 {
        lemma_sliding(placed, entry, d - 1);
        lemma_cells(entry, d - 1, entry);
        let prev = sliding(placed, entry, d - 1);
        let c = cell(entry, d).index();
        let moving = placed[cell(entry, d - 1).index()];
        assert forall|k: int| 0 <= k < CELLS implies #[trigger] sliding(placed, entry, d)[k]
            == prev.update(c, moving)[k] by {
            let l = Location::at(k);
            l.lemma_index(k);
            lemma_cells(entry, d, l);
        }
        assert(sliding(placed, entry, d) =~= prev.update(c, moving));
        lemma_tile_seq_update(prev, c, moving);
        lemma_token_total_update(prev, c, moving);
    }
}

/// After `pushed_in` has entered at `entry`, the tiles on the board and the
/// tile that left are together the tiles that were on the board and the tile
/// that entered, and the tokens on them are the same in number.
pub proof fn lemma_inserted(placed: Seq<PlacedTile>, entry: Location, pushed_in: PlacedTile)
    requires
        placed.len() == CELLS,
        entry_point(entry),
    ensures
        inserted(placed, entry, pushed_in).len() == CELLS,
        inserted(placed, entry, pushed_in) == sliding(placed, entry, 6).update(
            entry.index(),
            pushed_in,
        ),
        tile_seq(inserted(placed, entry, pushed_in)).to_multiset().insert(
            placed[opposite(entry).index()].tile,
        ) == tile_seq(placed).to_multiset().insert(pushed_in.tile),
        token_total(inserted(placed, entry, pushed_in)) + placed[opposite(
            entry,
        ).index()].players.count() == token_total(placed) + pushed_in.players.count(),
{
    broadcast use vstd::multiset::group_multiset_axioms;

    lemma_sliding(placed, entry, 6);
    lemma_cells(entry, 6, entry);
    let slid = sliding(placed, entry, 6);
    let after = inserted(placed, entry, pushed_in);
    let e = entry.index();
    assert forall|k: int| 0 <= k < CELLS implies #[trigger] after[k] == slid.update(
        e,
        pushed_in,
    )[k] by {
        let l = Location::at(k);
        l.lemma_index(k);
        entry.lemma_index(k);
        lemma_cells(entry, 6, l);
    }
    assert(after =~= slid.update(e, pushed_in));
    lemma_tile_seq_update(slid, e, pushed_in);
    lemma_token_total_update(slid, e, pushed_in);
    let out = placed[opposite(entry).index()].tile;
    let m_after = tile_seq(after).to_multiset();
    let m_slid = tile_seq(slid).to_multiset();
    let m = tile_seq(placed).to_multiset();
    assert forall|t: Tile| m_after.insert(out).count(t) == m.insert(pushed_in.tile).count(t) by {
        assert(m_after.insert(placed[e].tile).count(t) == m_slid.insert(pushed_in.tile).count(t));
        assert(m_slid.insert(out).count(t) == m.insert(placed[e].tile).count(t));
    }
}

/// The entry of the line with number `idx`: a column if `idx_is_x`, else a
/// row; entered from the top or the left, or, if `reverse`, from the bottom or
/// the right.
pub open spec fn push_in_at(idx: usize, reverse: bool, idx_is_x: bool) -> Location {
    match (reverse, idx_is_x) {
        (false, false) => Location(0, idx),
        (false, true) => Location(idx, 0),
        (true, false) => Location(6, idx),
        (true, true) => Location(idx, 6),
    }
}

/// The message of an insertion that would open a path off the board.
pub open spec fn placement_text() -> Seq<char> {
    "Tile cannot be inserted here with this rotation"@
}

/// The message of an insertion at a place where no tile can enter.
pub open spec fn no_entry_text(location: Location) -> Seq<char> {
    "Cannot insert a tile at location "@ + location.text()
}

/// What an insertion of the spare tile at `entry` under `rotation` makes of
/// the board `before`.
pub open spec fn insertion(before: Board, after: Board, entry: Location, rotation: Rotation) -> bool {
    &&& after.placed@ == inserted(before.placed@, entry, before.entering(entry, rotation))
    &&& after.spare == before.tile_at(opposite(entry)).tile
}

/// The laws of the insertion. It keeps the tiles of the game the same. Every
/// token stays on its tile, and the tokens of the tile that leaves stand on the
/// tile that enters: no token is lost and none appears, so that their number
/// stays the same, and a board on which nobody stood on two tiles is still
/// such a board.
pub proof fn lemma_insertion(before: Board, after: Board, entry: Location, rotation: Rotation)
    requires
        before.full(),
        entry_point(entry),
        insertion(before, after, entry, rotation),
    ensures
        after.full(),
        before.wf() ==> after.wf(),
        after.tiles() == before.tiles(),
        after.token_count() == before.token_count(),
        after.tile_at(entry).players == before.tile_at(opposite(entry)).players,
        forall|p: Player| after.holds(entry, p) <==> before.holds(opposite(entry), p),
        forall|l: Location, p: Player|
            l != entry ==> (#[trigger] after.holds(l, p) <==> l.on_board() && before.holds(
                source(entry, l),
                p,
            )),
        forall|l: Location|
            l.on_board() && l != entry ==> #[trigger] after.tile_at(l) == before.tile_at(
                source(entry, l),
            ),
        forall|p: Player| after.has_token(p) <==> before.has_token(p),
{
    broadcast use vstd::multiset::group_multiset_axioms;

    lemma_insertion_places(before, after, entry, rotation);
    lemma_insertion_tokens(before, after, entry, rotation);
    lemma_inserted(before.placed@, entry, before.entering(entry, rotation));
}

/// Where the tiles lie after an insertion: the tile that entered at the
/// entry, and every other tile of the moving line one place further from it.
proof fn lemma_insertion_places(before: Board, after: Board, entry: Location, rotation: Rotation)
    requires
        before.full(),
        entry_point(entry),
        insertion(before, after, entry, rotation),
    ensures
        after.full(),
        after.tile_at(entry) == before.entering(entry, rotation),
        forall|p: Player| after.holds(entry, p) <==> before.holds(opposite(entry), p),
        forall|l: Location, p: Player|
            l != entry ==> (#[trigger] after.holds(l, p) <==> l.on_board() && before.holds(
                source(entry, l),
                p,
            )),
        forall|l: Location|
            l.on_board() && l != entry ==> #[trigger] after.tile_at(l) == before.tile_at(
                source(entry, l),
            ),
{
    lemma_cells(entry, 6, entry);
    entry.lemma_index(0);
    assert forall|l: Location| l.on_board() && l != entry implies #[trigger] after.tile_at(l)
        == before.tile_at(source(entry, l)) by {
        l.lemma_index(0);
    }
    assert forall|l: Location, p: Player| l != entry implies (#[trigger] after.holds(l, p)
        <==> l.on_board() && before.holds(source(entry, l), p)) by {
        if l.on_board() {
            l.lemma_index(0);
            lemma_cells(entry, 6, l);
            assert(after.tile_at(l) == before.tile_at(source(entry, l)));
        }
    }
}

/// An insertion loses no token and adds none.
proof fn lemma_insertion_tokens(before: Board, after: Board, entry: Location, rotation: Rotation)
    requires
        before.full(),
        entry_point(entry),
        insertion(before, after, entry, rotation),
    ensures
        before.wf() ==> after.wf(),
        forall|p: Player| after.has_token(p) <==> before.has_token(p),
{
    lemma_insertion_places(before, after, entry, rotation);
    lemma_cells(entry, 6, entry);
    if before.wf() {
        assert forall|a: Location, b: Location, p: Player|
            #![trigger after.holds(a, p), after.holds(b, p)]
            after.holds(a, p) && after.holds(b, p) implies a == b by {
            let from_a = if a == entry { opposite(entry) } else { source(entry, a) };
            let from_b = if b == entry { opposite(entry) } else { source(entry, b) };
            lemma_cells(entry, 6, a);
            lemma_cells(entry, 6, b);
            assert(before.holds(from_a, p));
            assert(before.holds(from_b, p));
            assert(from_a == from_b);
        }
    }
    assert forall|p: Player| after.has_token(p) <==> before.has_token(p) by {
        if after.has_token(p) {
            let l = choose|l: Location| after.holds(l, p);
            let from = if l == entry { opposite(entry) } else { source(entry, l) };
            lemma_cells(entry, 6, l);
            assert(before.holds(from, p));
        }
        if before.has_token(p) {
            let l = choose|l: Location| before.holds(l, p);
            lemma_cells(entry, 6, l);
            let to = if l == opposite(entry) {
                entry
            } else if in_line(entry, l) {
                cell(entry, steps_from(entry, l) + 1)
            } else {
                l
            };
            lemma_cells(entry, steps_from(entry, l) + 1, to);
            assert(to.on_board());
            if to != entry {
                assert(source(entry, to) == l);
            }
            assert(after.holds(to, p));
        }
    }
}

impl Board {
    /// Slides the line with number `idx` by one place and puts the spare tile
    /// in at its entry, as `insert_spare` says for that entry.
    fn rotate_common(
        &mut self,
        idx: usize,
        tile_rotation: Rotation,
        reverse: bool,
        idx_is_x: bool,
    ) -> (r: Result<(), LocationError>)
        requires
            old(self).full(),
            idx < SIZE,
            idx % 2 == 1,
        ensures
            old(self).may_enter(push_in_at(idx, reverse, idx_is_x), tile_rotation) ==> r is Ok
                && insertion(
                *old(self),
                *final(self),
                push_in_at(idx, reverse, idx_is_x),
                tile_rotation,
            ),
            !old(self).may_enter(push_in_at(idx, reverse, idx_is_x), tile_rotation) ==> r is Err
                && *final(self) == *old(self) && r->Err_0.kind
                == LocationErrorKind::InvalidPlacement && r->Err_0.text() == placement_text(),
    {
        let push_in_at = match (reverse, idx_is_x) {
            (false, false) => Location(0, idx),
            (false, true) => Location(idx, 0),
            (true, false) => Location(6, idx),
            (true, true) => Location(idx, 6),
        };
        let push_out_at = match (reverse, idx_is_x) {
            (false, false) => Location(6, idx),
            (false, true) => Location(idx, 6),
            (true, false) => Location(0, idx),
            (true, true) => Location(idx, 0),
        };
        let mut to_push_in = PlacedTile {
            tile: self.spare,
            rotation: tile_rotation,
            players: PlayerSet::new(),
        };
        if !Board::tile_placement_ok(&push_in_at, &to_push_in) {
            return Err(LocationError::placement("Tile cannot be inserted here with this rotation"));
        }
        let ghost before = self.placed@;
        proof {
            lemma_cells(push_in_at, 6, push_in_at);
            lemma_sliding(before, push_in_at, 0);
        }
        let pushed_out = self.placed[push_out_at.rank()];
        to_push_in.players = pushed_out.players;
        let mut moving_tile = self.placed[push_in_at.rank()];
        let mut j: usize = 1;
        while j < SIZE
            invariant
                1 <= j <= SIZE,
                idx < SIZE,
                idx % 2 == 1,
                before.len() == CELLS,
                push_in_at == crate::insertion::push_in_at(idx, reverse, idx_is_x),
                self.placed@ == sliding(before, push_in_at, j - 1),
                moving_tile == before[cell(push_in_at, j - 1).index()],
                self.spare == old(self).spare,
            decreases SIZE - j,
        {
            let i: usize = if reverse { 6 - j } else { j };
            let move_to = if idx_is_x { Location(idx, i) } else { Location(i, idx) };
            proof {
                lemma_cells(push_in_at, j as int, push_in_at);
                lemma_sliding(before, push_in_at, j as int);
            }
            let next = self.placed[move_to.rank()];
            self.placed.set(move_to.rank(), moving_tile);
            moving_tile = next;
            j = j + 1;
        }
        self.placed.set(push_in_at.rank(), to_push_in);
        self.spare = pushed_out.tile;
        proof {
            lemma_inserted(before, push_in_at, to_push_in);
        }
        Ok(())
    }

    /// Slides row `y` to the left: the spare tile enters at its right end.
    fn rotate_left(&mut self, y: usize, tile_rotation: Rotation) -> (r: Result<(), LocationError>)
        requires
            old(self).full(),
            y < SIZE,
            y % 2 == 1,
        ensures
            old(self).may_enter(Location(6, y), tile_rotation) ==> r is Ok && insertion(
                *old(self),
                *final(self),
                Location(6, y),
                tile_rotation,
            ),
            !old(self).may_enter(Location(6, y), tile_rotation) ==> r is Err && *final(self)
                == *old(self) && r->Err_0.kind == LocationErrorKind::InvalidPlacement
                && r->Err_0.text() == placement_text(),
    {
        self.rotate_common(y, tile_rotation, true, false)
    }

    /// Slides row `y` to the right: the spare tile enters at its left end.
    fn rotate_right(&mut self, y: usize, tile_rotation: Rotation) -> (r: Result<(), LocationError>)
        requires
            old(self).full(),
            y < SIZE,
            y % 2 == 1,
        ensures
            old(self).may_enter(Location(0, y), tile_rotation) ==> r is Ok && insertion(
                *old(self),
                *final(self),
                Location(0, y),
                tile_rotation,
            ),
            !old(self).may_enter(Location(0, y), tile_rotation) ==> r is Err && *final(self)
                == *old(self) && r->Err_0.kind == LocationErrorKind::InvalidPlacement
                && r->Err_0.text() == placement_text(),
    {
        self.rotate_common(y, tile_rotation, false, false)
    }

    /// Slides column `x` up: the spare tile enters at its bottom end.
    fn rotate_up(&mut self, x: usize, tile_rotation: Rotation) -> (r: Result<(), LocationError>)
        requires
            old(self).full(),
            x < SIZE,
            x % 2 == 1,
        ensures
            old(self).may_enter(Location(x, 6), tile_rotation) ==> r is Ok && insertion(
                *old(self),
                *final(self),
                Location(x, 6),
                tile_rotation,
            ),
            !old(self).may_enter(Location(x, 6), tile_rotation) ==> r is Err && *final(self)
                == *old(self) && r->Err_0.kind == LocationErrorKind::InvalidPlacement
                && r->Err_0.text() == placement_text(),
    {
        self.rotate_common(x, tile_rotation, true, true)
    }

    /// Slides column `x` down: the spare tile enters at its top end.
    fn rotate_down(&mut self, x: usize, tile_rotation: Rotation) -> (r: Result<(), LocationError>)
        requires
            old(self).full(),
            x < SIZE,
            x % 2 == 1,
        ensures
            old(self).may_enter(Location(x, 0), tile_rotation) ==> r is Ok && insertion(
                *old(self),
                *final(self),
                Location(x, 0),
                tile_rotation,
            ),
            !old(self).may_enter(Location(x, 0), tile_rotation) ==> r is Err && *final(self)
                == *old(self) && r->Err_0.kind == LocationErrorKind::InvalidPlacement
                && r->Err_0.text() == placement_text(),
    {
        self.rotate_common(x, tile_rotation, false, true)
    }

    /// Inserts the spare tile at `insert_at` under `rotation`. The row or
    /// column of `insert_at` slides by one place away from it, the tile at its
    /// far end leaves the board and becomes the new spare, and the players
    /// that stood on that tile stand on the tile that entered.
    ///
    /// A tile can enter at the odd places of the four edges only, and only
    /// under a rotation that opens no path off the board. An insertion that is
    /// refused leaves the board as it was.
    pub fn insert_spare(&mut self, insert_at: Location, rotation: Rotation) -> (r: Result<
        (),
        LocationError,
    >)
        requires
            old(self).full(),
        ensures
            final(self).full(),
            old(self).wf() ==> final(self).wf(),
            final(self).tiles() == old(self).tiles(),
            final(self).token_count() == old(self).token_count(),
            forall|p: Player| final(self).has_token(p) <==> old(self).has_token(p),
            r is Ok <==> entry_point(insert_at) && old(self).may_enter(insert_at, rotation),
            r is Ok ==> insertion(*old(self), *final(self), insert_at, rotation),
            r is Ok ==> final(self).tile_at(insert_at).players == old(self).tile_at(
                opposite(insert_at),
            ).players,
            r is Err ==> *final(self) == *old(self),
            !entry_point(insert_at) ==> r is Err && r->Err_0.kind
                == LocationErrorKind::InvalidLocation && r->Err_0.text() == no_entry_text(
                insert_at,
            ),
            entry_point(insert_at) && !old(self).may_enter(insert_at, rotation) ==> r is Err
                && r->Err_0.kind == LocationErrorKind::InvalidPlacement && r->Err_0.text()
                == placement_text(),
    {
        let ghost before = *self;
        let Location(x, y) = insert_at;
        let r = if y == 0 && x % 2 == 1 && x < SIZE {
            self.rotate_down(x, rotation)
        } else if x == 6 && y % 2 == 1 && y < SIZE {
            self.rotate_left(y, rotation)
        } else if y == 6 && x % 2 == 1 && x < SIZE {
            self.rotate_up(x, rotation)
        } else if x == 0 && y % 2 == 1 && y < SIZE {
            self.rotate_right(y, rotation)
        } else {
            let mut details = "Cannot insert a tile at location ".to_owned();
            let place = insert_at.to_string();
            details.push_str(place.as_str());
            Err(LocationError::new(details.as_str()))
        };
        proof {
            if r is Ok {
                lemma_insertion(before, *self, insert_at, rotation);
            }
        }
        r
    }
}

} // verus!
