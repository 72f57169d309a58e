//! The state of a game: the board, the cards of the players, and whose turn
//! it is.

use vstd::prelude::*;
use vstd::multiset::Multiset;
use rand::Rng;
use crate::board::Board;
use crate::errors::{GenericError, GenericResult, WrongPlayer};
use crate::players::PlayerSet;
use crate::setup::shuffle;
use crate::tile::{Item, Player};

verus! {

/// The number of items, and of cards.
pub const ITEMS: usize = 24;

/// The item with number `i`, in the order in which the items are declared.
pub open spec fn item(i: int) -> Item {
    if i == 0 {
        Item::Chest
    } else if i == 1 {
        Item::Gnome
    } else if i == 2 {
        Item::Dragon
    } else if i == 3 {
        Item::Unicorn
    } else if i == 4 {
        Item::Phantom
    } else if i == 5 {
        Item::Candle
    } else if i == 6 {
        Item::Cat
    } else if i == 7 {
        Item::Keys
    } else if i == 8 {
        Item::Book
    } else if i == 9 {
        Item::Spider
    } else if i == 10 {
        Item::Crown
    } else if i == 11 {
        Item::Sword
    } else if i == 12 {
        Item::Goblet
    } else if i == 13 {
        Item::Mouse
    } else if i == 14 {
        Item::Ring
    } else if i == 15 {
        Item::Potion
    } else if i == 16 {
        Item::Beetle
    } else if i == 17 {
        Item::Owl
    } else if i == 18 {
        Item::Gem
    } else if i == 19 {
        Item::Genie
    } else if i == 20 {
        Item::Bat
    } else if i == 21 {
        Item::Sack
    } else if i == 22 {
        Item::Helmet
    } else {
        Item::Lizard
    }
}

/// All items, in the order in which they are declared: the deck of cards
/// before it is shuffled.
pub open spec fn deck() -> Seq<Item> {
    Seq::new(ITEMS as nat, |i: int| item(i))
}

impl Item {
    /// The number of the item.
    pub open spec fn number(self) -> int {
        match self {
            Item::Chest => 0,
            Item::Gnome => 1,
            Item::Dragon => 2,
            Item::Unicorn => 3,
            Item::Phantom => 4,
            Item::Candle => 5,
            Item::Cat => 6,
            Item::Keys => 7,
            Item::Book => 8,
            Item::Spider => 9,
            Item::Crown => 10,
            Item::Sword => 11,
            Item::Goblet => 12,
            Item::Mouse => 13,
            Item::Ring => 14,
            Item::Potion => 15,
            Item::Beetle => 16,
            Item::Owl => 17,
            Item::Gem => 18,
            Item::Genie => 19,
            Item::Bat => 20,
            Item::Sack => 21,
            Item::Helmet => 22,
            Item::Lizard => 23,
        }
    }

    /// Every item has one number, and is the item of that number.
    pub proof fn lemma_number(self)
        ensures
            0 <= self.number() < ITEMS,
            item(self.number()) == self,
            forall|i: int| 0 <= i < ITEMS ==> (#[trigger] item(i)).number() == i,
    {
    }

    /// The item with number `i`.
    pub fn nth(i: usize) -> (it: Item)
        requires
            i < ITEMS,
        ensures
            it == item(i as int),
            it.number() == i,
    {
        if i == 0 {
            Item::Chest
        } else if i == 1 {
            Item::Gnome
        } else if i == 2 {
            Item::Dragon
        } else if i == 3 {
            Item::Unicorn
        } else if i == 4 {
            Item::Phantom
        } else if i == 5 {
            Item::Candle
        } else if i == 6 {
            Item::Cat
        } else if i == 7 {
            Item::Keys
        } else if i == 8 {
            Item::Book
        } else if i == 9 {
            Item::Spider
        } else if i == 10 {
            Item::Crown
        } else if i == 11 {
            Item::Sword
        } else if i == 12 {
            Item::Goblet
        } else if i == 13 {
            Item::Mouse
        } else if i == 14 {
            Item::Ring
        } else if i == 15 {
            Item::Potion
        } else if i == 16 {
            Item::Beetle
        } else if i == 17 {
            Item::Owl
        } else if i == 18 {
            Item::Gem
        } else if i == 19 {
            Item::Genie
        } else if i == 20 {
            Item::Bat
        } else if i == 21 {
            Item::Sack
        } else if i == 22 {
            Item::Helmet
        } else {
            Item::Lizard
        }
    }

    /// All items, in the order in which they are declared: every item, once.
    pub fn all() -> (v: Vec<Item>)
        ensures
            v@ == deck(),
            v@.no_duplicates(),
            forall|it: Item| v@.contains(it),
    {
        let mut v: Vec<Item> = Vec::new();
        let mut i: usize = 0;
        while i < ITEMS
            invariant
                i <= ITEMS,
                v@ == Seq::new(i as nat, |k: int| item(k)),
            decreases ITEMS - i,
        {
            v.push(Item::nth(i));
            i = i + 1;
        }
        proof {
            assert forall|it: Item| v@.contains(it) by {
                it.lemma_number();
                assert(v@[it.number()] == it);
            }
            assert forall|j: int, k: int| 0 <= j < v@.len() && 0 <= k < v@.len() && j != k
                implies v@[j] != v@[k] by {
                assert(item(j).number() == j && item(k).number() == k);
            }
        }
        v
    }
}

/// What a player does next in their turn.
#[derive(Debug, PartialEq, Eq, Copy, Clone, Structural)]
pub enum TurnPhase {
    Move,
    InsertTile,
}

/// The cards of one player: the card they are looking for, the cards that
/// they have not seen yet, and the cards that they have found, each once.
#[derive(Debug, PartialEq, Eq, Clone)]
pub struct Cards {
    pub current_card: Option<Item>,
    pub hidden_cards: Vec<Item>,
    pub found_cards: Vec<Item>,
}

/// The state of a game. The cards of the players stand in the order of the
/// players' slots; a player who does not take part has none.
#[derive(Debug, PartialEq, Eq, Clone)]
pub struct Model {
    pub board: Board,
    pub players: Vec<Option<Cards>>,
    pub current_player: Player,
    pub turn_phase: TurnPhase,
}

impl Cards {
    /// No card is among the found cards twice.
    pub open spec fn wf(&self) -> bool {
        self.found_cards@.no_duplicates()
    }

    /// The cards that the player has found.
    pub open spec fn found(&self) -> Set<Item> {
        self.found_cards@.to_set()
    }

    /// The cards that the player has still to find: the hidden cards and the
    /// card they are looking for.
    pub open spec fn hand(&self) -> Seq<Item> {
        match self.current_card {
            Some(card) => self.hidden_cards@.push(card),
            None => self.hidden_cards@,
        }
    }

    /// No cards at all.
    pub fn new() -> (cards: Cards)
        ensures
            cards.current_card is None,
            cards.hidden_cards@ == Seq::<Item>::empty(),
            cards.found_cards@ == Seq::<Item>::empty(),
            cards.wf(),
    {
        Cards { current_card: None, hidden_cards: Vec::new(), found_cards: Vec::new() }
    }

    /// Whether the cards are well formed.
    pub fn check(&self) -> (ok: bool)
        ensures
            ok == self.wf(),
    {
        let mut i: usize = 0;
        while i < self.found_cards.len()
            invariant
                i <= self.found_cards@.len(),
                forall|j: int, k: int|
                    0 <= j < k < i ==> self.found_cards@[j] != self.found_cards@[k],
            decreases self.found_cards@.len() - i,
        {
            let mut j: usize = 0;
            while j < i
                invariant
                    j <= i,
                    i < self.found_cards@.len(),
                    forall|k: int| 0 <= k < j ==> self.found_cards@[k] != self.found_cards@[i as int],
                decreases i - j,
            {
                if self.found_cards[j] == self.found_cards[i] {
                    return false;
                }
                j = j + 1;
            }
            i = i + 1;
        }
        true
    }

    /// Whether `item` is among the found cards.
    pub fn has_found(&self, item: Item) -> (r: bool)
        ensures
            r == self.found().contains(item),
    {
        let mut i: usize = 0;
        while i < self.found_cards.len()
            invariant
                i <= self.found_cards@.len(),
                forall|j: int| 0 <= j < i ==> self.found_cards@[j] != item,
            decreases self.found_cards@.len() - i,
        {
            if self.found_cards[i] == item {
                return true;
            }
            i = i + 1;
        }
        false
    }

    /// The card that the player looked for is found: it goes to the found
    /// cards, and the last of the hidden cards, if there is one, is the card
    /// that they look for next.
    pub fn draw_next(&mut self)
        requires
            old(self).wf(),
        ensures
            final(self).wf(),
            final(self).found() == (match old(self).current_card {
                Some(card) => old(self).found().insert(card),
                None => old(self).found(),
            }),
            final(self).found_cards@ == (match old(self).current_card {
                Some(card) => if old(self).found().contains(card) {
                    old(self).found_cards@
                } else {
                    old(self).found_cards@.push(card)
                },
                None => old(self).found_cards@,
            }),
            old(self).hidden_cards@.len() > 0 ==> final(self).current_card == Some(
                old(self).hidden_cards@.last(),
            ) && final(self).hidden_cards@ == old(self).hidden_cards@.drop_last(),
            old(self).hidden_cards@.len() == 0 ==> final(self).current_card is None
                && final(self).hidden_cards@ == old(self).hidden_cards@,
    {
        if let Some(current_card) = self.current_card {
            if !self.has_found(current_card) {
                let ghost before = self.found_cards@;
                self.found_cards.push(current_card);
                proof {
                    assert(self.found_cards@.to_set() =~= before.to_set().insert(current_card)) by {
                        assert forall|x: Item|
                            self.found_cards@.to_set().contains(x) <==> before.to_set().insert(
                                current_card,
                            ).contains(x) by {
                            if before.contains(x) {
                                let j = choose|j: int| 0 <= j < before.len() && before[j] == x;
                                assert(self.found_cards@[j] == x);
                            }
                            if x == current_card {
                                assert(self.found_cards@[before.len() as int] == x);
                            }
                        }
                    }
                }
            }
        }
        self.current_card = self.hidden_cards.pop();
    }
}

/// The player whose turn follows that of `current` among `players`: the first
/// of the three players after `current` that takes part, or `current` again;
/// nobody, if nobody takes part.
pub open spec fn next_in(players: PlayerSet, current: Player) -> Option<Player> {
    let second = current.successor();
    let third = second.successor();
    let fourth = third.successor();
    if players.has(second) {
        Some(second)
    } else if players.has(third) {
        Some(third)
    } else if players.has(fourth) {
        Some(fourth)
    } else if players.has(current) {
        Some(current)
    } else {
        None
    }
}

/// The message when no player can take the next turn.
pub open spec fn no_next_player_text() -> Seq<char> {
    "Unable to find next player"@
}

/// The player whose turn follows that of `current_player` among `players`.
pub fn next_player(players: &PlayerSet, current_player: Player) -> (r: GenericResult<Player>)
    ensures
        match next_in(*players, current_player) {
            Some(player) => r == Ok::<Player, GenericError>(player),
            None => r matches Err(GenericError::WrongPlayer(e)) && e.text()
                == no_next_player_text(),
        },
{
    let mut player = current_player;
    let mut steps: usize = 0;
    loop
        invariant
            steps < 4,
            steps == 0 ==> player == current_player,
            steps == 1 ==> player == current_player.successor(),
            steps == 2 ==> player == current_player.successor().successor(),
            steps == 3 ==> player == current_player.successor().successor().successor(),
            steps >= 1 ==> !players.has(current_player.successor()),
            steps >= 2 ==> !players.has(current_player.successor().successor()),
            steps >= 3 ==> !players.has(current_player.successor().successor().successor()),
        decreases 4 - steps,
    {
        player = player.next();
        if players.contains(&player) {
            return Ok(player);
        }
        if player == current_player {
            return Err(GenericError::WrongPlayer(WrongPlayer::new("Unable to find next player")));
        }
        steps = steps + 1;
    }
}

/// The cards that the player in slot `slot` has still to find.
pub open spec fn hand_of(players: Seq<Option<Cards>>, slot: int) -> Multiset<Item> {
    match players[slot] {
        Some(cards) => cards.hand().to_multiset(),
        None => Multiset::empty(),
    }
}

/// The message when the game is to begin with a player who does not take
/// part.
pub open spec fn not_playing_text() -> Seq<char> {
    "Starting player is not playing"@
}

impl Model {
    /// The players that take part.
    pub open spec fn participants(&self) -> PlayerSet {
        PlayerSet {
            player1: self.players@[0] is Some,
            player2: self.players@[1] is Some,
            player3: self.players@[2] is Some,
            player4: self.players@[3] is Some,
        }
    }

    /// The cards of `player`.
    pub open spec fn cards_of(&self, player: Player) -> Cards
        recommends
            self.participants().has(player),
    {
        self.players@[player.slot() as int]->Some_0
    }

    /// The cards that the players have still to find, all together.
    pub open spec fn to_find(&self) -> Multiset<Item> {
        hand_of(self.players@, 0).add(hand_of(self.players@, 1)).add(
            hand_of(self.players@, 2),
        ).add(hand_of(self.players@, 3))
    }

    /// The board is well formed, there is a place for the cards of each of
    /// the four players, the cards of those that take part are well formed,
    /// and the player whose turn it is takes part.
    pub open spec fn wf(&self) -> bool {
        &&& self.board.wf()
        &&& self.players@.len() == 4
        &&& self.participants().has(self.current_player)
        &&& forall|i: int|
            0 <= i < 4 && self.players@[i] is Some ==> (#[trigger] self.players@[i])->Some_0.wf()
    }

    /// Whether the game is well formed.
    pub fn check(&self) -> (ok: bool)
        ensures
            ok == self.wf(),
    {
        if !self.board.check() || self.players.len() != 4 {
            return false;
        }
        if self.players[self.current_player.index()].is_none() {
            return false;
        }
        let mut i: usize = 0;
        while i < 4
            invariant
                i <= 4,
                self.players@.len() == 4,
                forall|k: int|
                    0 <= k < i && self.players@[k] is Some ==> (#[trigger] self.players@[k])->Some_0.wf(),
            decreases 4 - i,
        {
            match &self.players[i] {
                Some(cards) => {
                    if !cards.check() {
                        return false;
                    }
                },
                None => {},
            }
            i = i + 1;
        }
        true
    }

    /// The players that take part.
    pub fn playing(&self) -> (s: PlayerSet)
        requires
            self.players@.len() == 4,
        ensures
            s == self.participants(),
    {
        PlayerSet {
            player1: self.players[0].is_some(),
            player2: self.players[1].is_some(),
            player3: self.players[2].is_some(),
            player4: self.players[3].is_some(),
        }
    }

    /// The cards of the player whose turn it is.
    pub fn current_player_cards(&self) -> (cards: &Cards)
        requires
            self.wf(),
        ensures
            *cards == self.cards_of(self.current_player),
    {
        match &self.players[self.current_player.index()] {
            Some(cards) => cards,
            None => vstd::pervasive::unreached(),
        }
    }

    /// The cards of the player whose turn it is, to be changed.
    pub fn current_player_cards_mut(&mut self) -> (cards: &mut Cards)
        requires
            old(self).wf(),
        ensures
            *cards == old(self).cards_of(old(self).current_player),
            final(self).players@ == old(self).players@.update(
                old(self).current_player.slot() as int,
                Some(*final(cards)),
            ),
            final(self).board == old(self).board,
            final(self).current_player == old(self).current_player,
            final(self).turn_phase == old(self).turn_phase,
    {
        match &mut self.players[self.current_player.index()] {
            Some(cards) => cards,
            None => vstd::pervasive::unreached(),
        }
    }

    /// The turn goes to the next of the players that take part.
    pub fn end_turn(&mut self)
        requires
            old(self).wf(),
        ensures
            final(self).wf(),
            Some(final(self).current_player) == next_in(
                old(self).participants(),
                old(self).current_player,
            ),
            final(self).board == old(self).board,
            final(self).players == old(self).players,
            final(self).turn_phase == old(self).turn_phase,
    {
        let playing = self.playing();
        self.current_player = next_player(&playing, self.current_player).unwrap();
    }

    /// A new game of `players`, which `starting_player` begins: a new board,
    /// and the shuffled deck dealt to the players. A starting player who does
    /// not take part is refused.
    pub fn new<R: Rng>(rng: &mut R, players: &PlayerSet, starting_player: Player) -> (r:
        GenericResult<Model>)
        ensures
            players.has(starting_player) ==> r is Ok && r->Ok_0.wf() && r->Ok_0.begins(
                *players,
                starting_player,
            ),
            !players.has(starting_player) ==> (r matches Err(GenericError::WrongPlayer(e))
                && e.text() == not_playing_text()),
    {
        if !players.contains(&starting_player) {
            return Err(GenericError::WrongPlayer(WrongPlayer::new("Starting player is not playing")));
        }
        let board = Board::new(rng, players);
        let mut deck: Vec<Item> = Item::all();
        shuffle(&mut deck, rng);
        let player_cards = deal(players, starting_player, &deck);
        let model = Model {
            board,
            players: player_cards,
            current_player: starting_player,
            turn_phase: TurnPhase::InsertTile,
        };
        proof {
            assert(model.players@[Player::Player2.slot() as int] is Some <==> players.has(
                Player::Player2,
            ));
            assert(model.players@[Player::Player3.slot() as int] is Some <==> players.has(
                Player::Player3,
            ));
            assert(model.players@[Player::Player4.slot() as int] is Some <==> players.has(
                Player::Player4,
            ));
            assert forall|i: int| 0 <= i < 4 && model.players@[i] is Some implies (
            #[trigger] model.players@[i])->Some_0.wf() by {
                let p = if i == 0 {
                    Player::Player1
                } else if i == 1 {
                    Player::Player2
                } else if i == 2 {
                    Player::Player3
                } else {
                    Player::Player4
                };
                assert(holds_deal(model.cards_of(p), dealt_to(*players, starting_player, deck@, p)));
            }
            assert(model.dealt_from(*players, starting_player, deck@));
            assert(deck@.len() == ITEMS) by {
                broadcast use vstd::seq_lib::group_to_multiset_ensures;

                assert(crate::model::deck().to_multiset().len() == crate::model::deck().len());
            }
            assert forall|p: Player| players.has(p) implies (#[trigger] model.cards_of(
                p,
            )).hand().len() * players.count() == ITEMS by {
                lemma_turns_go_round(*players, starting_player, p);
                let rounds: nat = if players.count() == 1 {
                    24
                } else if players.count() == 2 {
                    12
                } else if players.count() == 3 {
                    8
                } else {
                    6
                };
                lemma_even_deal(*players, starting_player, deck@, p, rounds);
            }
        }
        Ok(model)
    }

    /// Whether the game is one that `starting_player` begins among
    /// `participants`: the board is fresh, it is the starting player's turn
    /// to insert a tile, and the players that take part hold what a deal of
    /// the whole deck, in some order, gives them, which is the same number of
    /// cards for each.
    pub open spec fn begins(&self, participants: PlayerSet, starting_player: Player) -> bool {
        &&& self.board.fresh(participants)
        &&& self.participants() == participants
        &&& self.current_player == starting_player
        &&& self.turn_phase == TurnPhase::InsertTile
        &&& self.to_find() == deck().to_multiset()
        &&& forall|p: Player|
            participants.has(p) ==> (#[trigger] self.cards_of(p)).hand().len()
                * participants.count() == ITEMS
        &&& exists|shuffled: Seq<Item>|
            #[trigger] self.dealt_from(participants, starting_player, shuffled)
    }

    /// Whether the players hold what a deal of `shuffled` gives them, and
    /// `shuffled` is the whole deck in some order.
    pub open spec fn dealt_from(
        &self,
        participants: PlayerSet,
        starting_player: Player,
        shuffled: Seq<Item>,
    ) -> bool {
        &&& shuffled.to_multiset() == deck().to_multiset()
        &&& forall|p: Player|
            participants.has(p) ==> holds_deal(
                #[trigger] self.cards_of(p),
                dealt_to(participants, starting_player, shuffled, p),
            )
    }
}

/// The player who gets the card number `n` of the deck: the starting player
/// gets the first card, and each further card goes to the player whose turn
/// follows that of the player who got the card before.
pub open spec fn receiver(players: PlayerSet, starting_player: Player, n: nat) -> Player
    decreases n,
{
    if n == 0 {
        starting_player
    } else {
        let before = receiver(players, starting_player, (n - 1) as nat);
        match next_in(players, before) {
            Some(player) => player,
            None => before,
        }
    }
}

/// The cards of `cards` that `player` gets, in the order of the deck.
pub open spec fn dealt_to(
    players: PlayerSet,
    starting_player: Player,
    cards: Seq<Item>,
    player: Player,
) -> Seq<Item>
    decreases cards.len(),
{
    if cards.len() == 0 {
        Seq::empty()
    } else {
        let before = dealt_to(players, starting_player, cards.drop_last(), player);
        if receiver(players, starting_player, (cards.len() - 1) as nat) == player {
            before.push(cards.last())
        } else {
            before
        }
    }
}

/// Whether `cards` are what a player holds who was dealt `dealt`: they look
/// for the card that they got last, the others are hidden in the order in
/// which they got them, and they have found none.
pub open spec fn holds_deal(cards: Cards, dealt: Seq<Item>) -> bool {
    &&& cards.found_cards@ == Seq::<Item>::empty()
    &&& dealt.len() > 0 ==> cards.current_card == Some(dealt.last()) && cards.hidden_cards@
        == dealt.drop_last()
    &&& dealt.len() == 0 ==> cards.current_card is None && cards.hidden_cards@ == dealt
}

/// Deals `deck` to `players`, card by card in the order of their turns,
/// beginning with `starting_player`; each player then looks for the card that
/// they got last. A player who does not take part gets no cards at all.
pub fn deal(players: &PlayerSet, starting_player: Player, deck: &Vec<Item>) -> (player_cards: Vec<
    Option<Cards>,
>)
    requires
        players.has(starting_player),
    ensures
        player_cards@.len() == 4,
        forall|p: Player| players.has(p) <==> #[trigger] player_cards@[p.slot() as int] is Some,
        forall|p: Player|
            players.has(p) ==> holds_deal(
                (#[trigger] player_cards@[p.slot() as int])->Some_0,
                dealt_to(*players, starting_player, deck@, p),
            ),
        hand_of(player_cards@, 0).add(hand_of(player_cards@, 1)).add(hand_of(player_cards@, 2)).add(
            hand_of(player_cards@, 3),
        ) == deck@.to_multiset(),
{
    let mut player_cards: Vec<Option<Cards>> = Vec::new();
    player_cards.push(if players.player1 { Some(Cards::new()) } else { None });
    player_cards.push(if players.player2 { Some(Cards::new()) } else { None });
    player_cards.push(if players.player3 { Some(Cards::new()) } else { None });
    player_cards.push(if players.player4 { Some(Cards::new()) } else { None });
    proof {
        broadcast use vstd::multiset::group_multiset_axioms;

        lemma_no_cards(deck@.take(0));
        lemma_no_cards(Seq::<Item>::empty());
        assert forall|k: int| 0 <= k < 4 implies hand_of(player_cards@, k) == Multiset::<
            Item,
        >::empty() by {
            if player_cards@[k] is Some {
                assert(player_cards@[k]->Some_0.hand() =~= Seq::<Item>::empty());
            }
        }
        assert(hand_of(player_cards@, 0).add(hand_of(player_cards@, 1)).add(
            hand_of(player_cards@, 2),
        ).add(hand_of(player_cards@, 3)) =~= Multiset::<Item>::empty());
    }
    let mut current_player = starting_player;
    let mut n: usize = 0;
    while n < deck.len()
        invariant
            n <= deck@.len(),
            players.has(current_player),
            current_player == receiver(*players, starting_player, n as nat),
            player_cards@.len() == 4,
            forall|p: Player| players.has(p) <==> #[trigger] player_cards@[p.slot() as int] is Some,
            forall|i: int|
                0 <= i < 4 && player_cards@[i] is Some ==> (
                #[trigger] player_cards@[i])->Some_0.current_card is None
                    && player_cards@[i]->Some_0.found_cards@ == Seq::<Item>::empty(),
            forall|p: Player|
                players.has(p) ==> (#[trigger] player_cards@[p.slot() as int])->Some_0.hidden_cards@
                    == dealt_to(*players, starting_player, deck@.take(n as int), p),
            hand_of(player_cards@, 0).add(hand_of(player_cards@, 1)).add(
                hand_of(player_cards@, 2),
            ).add(hand_of(player_cards@, 3)) == deck@.take(n as int).to_multiset(),
        decreases deck@.len() - n,
    {
        let card = deck[n];
        let slot = current_player.index();
        let ghost before = player_cards@;
        proof {
            assert(before[current_player.slot() as int] is Some);
        }
        match &mut player_cards[slot] {
            Some(cards) => {
                cards.hidden_cards.push(card);
            },
            None => {},
        }
        proof {
            broadcast use vstd::multiset::group_multiset_axioms;

            let hand_before = before[slot as int]->Some_0.hand();
            let hand_after = player_cards@[slot as int]->Some_0.hand();
            assert(hand_after =~= hand_before.push(card));
            vstd::seq_lib::to_multiset_build(hand_before, card);
            assert(deck@.take(n + 1) =~= deck@.take(n as int).push(card));
            assert(deck@.take(n + 1).drop_last() =~= deck@.take(n as int));
            vstd::seq_lib::to_multiset_build(deck@.take(n as int), card);
            assert(hand_of(player_cards@, 0).add(hand_of(player_cards@, 1)).add(
                hand_of(player_cards@, 2),
            ).add(hand_of(player_cards@, 3)) =~= deck@.take(n as int).to_multiset().insert(card));
            assert forall|p: Player| players.has(p) <==> #[trigger] player_cards@[p.slot() as int] is Some by {
                assert(before[p.slot() as int] is Some <==> players.has(p));
            }
            assert forall|p: Player| players.has(p) implies (
            #[trigger] player_cards@[p.slot() as int])->Some_0.hidden_cards@ == dealt_to(
                *players,
                starting_player,
                deck@.take(n + 1),
                p,
            ) by {
                assert(before[p.slot() as int]->Some_0.hidden_cards@ == dealt_to(
                    *players,
                    starting_player,
                    deck@.take(n as int),
                    p,
                ));
            }
        }
        current_player = next_player(players, current_player).unwrap();
        n = n + 1;
    }
    let ghost dealt = player_cards@;
    let mut i: usize = 0;
    while i < 4
        invariant
            i <= 4,
            player_cards@.len() == 4,
            dealt.len() == 4,
            forall|k: int| 0 <= k < 4 ==> (#[trigger] player_cards@[k] is Some <==> dealt[k] is Some),
            forall|k: int|
                0 <= k < 4 && dealt[k] is Some ==> (#[trigger] dealt[k])->Some_0.current_card is None
                    && dealt[k]->Some_0.found_cards@ == Seq::<Item>::empty(),
            forall|k: int| i <= k < 4 ==> #[trigger] player_cards@[k] == dealt[k],
            forall|k: int|
                0 <= k < i && dealt[k] is Some ==> holds_deal(
                    player_cards@[k]->Some_0,
                    (#[trigger] dealt[k])->Some_0.hidden_cards@,
                ),
        decreases 4 - i,
    {
        let ghost before = player_cards@;
        match &mut player_cards[i] {
            Some(cards) => {
                cards.draw_next();
            },
            None => {},
        }
        proof {
            assert forall|k: int| 0 <= k < i + 1 && dealt[k] is Some implies holds_deal(
                player_cards@[k]->Some_0,
                (#[trigger] dealt[k])->Some_0.hidden_cards@,
            ) by {
                if k < i {
                    assert(player_cards@[k] == before[k]);
                } else {
                    assert(before[k] == dealt[k]);
                }
            }
        }
        i = i + 1;
    }
    proof {
        assert(deck@.take(n as int) =~= deck@);
        assert forall|k: int| 0 <= k < 4 implies hand_of(player_cards@, k) == hand_of(dealt, k) by {
            if dealt[k] is Some {
                let before = dealt[k]->Some_0;
                let after = player_cards@[k]->Some_0;
                assert(holds_deal(after, before.hidden_cards@));
                assert(after.hand() =~= before.hand());
            }
        }
        assert forall|p: Player| players.has(p) <==> #[trigger] player_cards@[p.slot() as int] is Some by {
            assert(dealt[p.slot() as int] is Some <==> players.has(p));
        }
        assert forall|p: Player| players.has(p) implies holds_deal(
            (#[trigger] player_cards@[p.slot() as int])->Some_0,
            dealt_to(*players, starting_player, deck@, p),
        ) by {
            assert(dealt[p.slot() as int] is Some);
            assert(dealt[p.slot() as int]->Some_0.hidden_cards@ == dealt_to(
                *players,
                starting_player,
                deck@,
                p,
            ));
        }
    }
    player_cards
}

/// A sequence without cards holds nothing.
proof fn lemma_no_cards(s: Seq<Item>)
    requires
        s.len() == 0,
    ensures
        s.to_multiset() == Multiset::<Item>::empty(),
{
    broadcast use vstd::seq_lib::group_to_multiset_ensures;
    broadcast use vstd::multiset::group_multiset_axioms;

}

/// The turns go round the players that take part: counted from any of them,
/// each of them has one turn before the first has the next.
pub proof fn lemma_turns_go_round(players: PlayerSet, first: Player, player: Player)
    requires
        players.has(first),
    ensures
        next_in(players, first) is Some,
        players.has(next_in(players, first)->Some_0),
        players.count() == 1 ==> next_in(players, first) == Some(first),
        players.count() >= 1,
        players.has(player) ==> ({
            let second = next_in(players, first)->Some_0;
            let third = next_in(players, second)->Some_0;
            let fourth = next_in(players, third)->Some_0;
            &&& players.count() == 1 ==> player == first
            &&& players.count() == 2 ==> third == first && (player == first) != (player == second)
            &&& players.count() == 3 ==> fourth == first && (if player == first {
                player != second && player != third
            } else {
                (player == second) != (player == third)
            })
            &&& players.count() == 4 ==> next_in(players, fourth) == Some(first) && (if player
                == first {
                player != second && player != third && player != fourth
            } else if player == second {
                player != third && player != fourth
            } else {
                (player == third) != (player == fourth)
            })
        }),
{
}

/// Every card goes to a player that takes part, and the next card to the
/// player whose turn is next.
pub proof fn lemma_receiver(players: PlayerSet, starting_player: Player, n: nat)
    requires
        players.has(starting_player),
    ensures
        players.has(receiver(players, starting_player, n)),
        Some(receiver(players, starting_player, n + 1)) == next_in(
            players,
            receiver(players, starting_player, n),
        ),
    decreases n,
{
    if n > 0 {
        lemma_receiver(players, starting_player, (n - 1) as nat);
    }
    lemma_turns_go_round(players, receiver(players, starting_player, n), starting_player);
}

/// Of cards that go round the players a whole number of times, every player
/// that takes part gets the same number.
pub proof fn lemma_even_deal(
    players: PlayerSet,
    starting_player: Player,
    cards: Seq<Item>,
    player: Player,
    rounds: nat,
)
    requires
        players.has(starting_player),
        players.has(player),
        cards.len() == rounds * players.count(),
    ensures
        dealt_to(players, starting_player, cards, player).len() == rounds,
    decreases rounds,
{
    let n = players.count();
    if rounds == 0 {
        assert(cards.len() == 0) by (nonlinear_arith)
            requires
                cards.len() == rounds * n,
                rounds == 0,
        ;
    } else {
        assert((rounds - 1) * n == rounds * n - n) by (nonlinear_arith);
        let k = ((rounds - 1) * n) as nat;
        let c0 = cards.take(k as int);
        lemma_even_deal(players, starting_player, c0, player, (rounds - 1) as nat);
        let first = receiver(players, starting_player, k);
        lemma_receiver(players, starting_player, k);
        lemma_receiver(players, starting_player, k + 1);
        lemma_receiver(players, starting_player, k + 2);
        lemma_receiver(players, starting_player, k + 3);
        lemma_turns_go_round(players, first, player);
        let c1 = cards.take((k + 1) as int);
        let c2 = cards.take((k + 2) as int);
        let c3 = cards.take((k + 3) as int);
        let c4 = cards.take((k + 4) as int);
        assert(c1.drop_last() =~= c0);
        if n >= 2 {
            assert(c2.drop_last() =~= c1);
        }
        if n >= 3 {
            assert(c3.drop_last() =~= c2);
        }
        if n >= 4 {
            assert(c4.drop_last() =~= c3);
        }
        assert(cards.take((k + n) as int) =~= cards);
        let d0 = dealt_to(players, starting_player, c0, player).len();
        let d1 = dealt_to(players, starting_player, c1, player).len();
        assert(d1 == d0 + if first == player { 1int } else { 0int });
        if n == 1 {
            assert(c1 == cards);
        } else {
            let d2 = dealt_to(players, starting_player, c2, player).len();
            assert(d2 == d1 + if receiver(players, starting_player, k + 1) == player {
                1int
            } else {
                0int
            });
            if n == 2 {
                assert(c2 == cards);
            } else {
                let d3 = dealt_to(players, starting_player, c3, player).len();
                assert(d3 == d2 + if receiver(players, starting_player, k + 2) == player {
                    1int
                } else {
                    0int
                });
                if n == 3 {
                    assert(c3 == cards);
                } else {
                    let d4 = dealt_to(players, starting_player, c4, player).len();
                    assert(d4 == d3 + if receiver(players, starting_player, k + 3) == player {
                        1int
                    } else {
                        0int
                    });
                    assert(c4 == cards);
                }
            }
        }
    }
}

} // verus!
