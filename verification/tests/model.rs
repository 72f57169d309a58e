use labyrinth::errors::GenericError;
use labyrinth::location::Location;
use labyrinth::model::{deal, next_player, Cards, Model, TurnPhase};
use labyrinth::players::PlayerSet;
use labyrinth::tile::{Item, Player};
use rand::rngs::StdRng;
use rand::SeedableRng;
use std::collections::HashSet;

fn set(players: &[Player]) -> PlayerSet {
    let mut set = PlayerSet::new();
    for player in players {
        set.insert(*player);
    }
    set
}

#[test]
fn all_items_in_their_order() {
    let items = Item::all();
    assert_eq!(items.len(), 24);
    assert_eq!(items[0], Item::Chest);
    assert_eq!(items[4], Item::Phantom);
    assert_eq!(items[12], Item::Goblet);
    assert_eq!(items[23], Item::Lizard);
    assert_eq!(Item::nth(19), Item::Genie);
    let distinct: HashSet<Item> = items.iter().cloned().collect();
    assert_eq!(distinct.len(), 24);
}

#[test]
fn the_next_player_is_the_next_who_takes_part() {
    let players = set(&[Player::Player1, Player::Player2, Player::Player4]);
    assert_eq!(next_player(&players, Player::Player1), Ok(Player::Player2));
    assert_eq!(next_player(&players, Player::Player2), Ok(Player::Player4));
    assert_eq!(next_player(&players, Player::Player4), Ok(Player::Player1));
    // a player who does not take part hands on to the next who does
    assert_eq!(next_player(&players, Player::Player3), Ok(Player::Player4));
}

#[test]
fn a_lone_player_has_the_next_turn_too() {
    let players = set(&[Player::Player3]);
    assert_eq!(next_player(&players, Player::Player3), Ok(Player::Player3));
    assert_eq!(next_player(&players, Player::Player1), Ok(Player::Player3));
}

#[test]
fn with_all_four_the_turn_goes_round() {
    let players = set(&[Player::Player1, Player::Player2, Player::Player3, Player::Player4]);
    let mut player = Player::Player1;
    let mut order = Vec::new();
    for _ in 0..5 {
        player = next_player(&players, player).unwrap();
        order.push(player);
    }
    assert_eq!(
        order,
        vec![Player::Player2, Player::Player3, Player::Player4, Player::Player1, Player::Player2]
    );
}

#[test]
fn nobody_follows_when_nobody_takes_part() {
    match next_player(&PlayerSet::new(), Player::Player2) {
        Err(GenericError::WrongPlayer(error)) => {
            assert_eq!(error.to_string(), "Unable to find next player")
        }
        other => panic!("unexpected answer {:?}", other),
    }
}

#[test]
fn new_cards_are_empty() {
    let cards = Cards::new();
    assert_eq!(cards.current_card, None);
    assert!(cards.hidden_cards.is_empty());
    assert!(cards.found_cards.is_empty());
}

#[test]
fn drawing_takes_the_last_hidden_card() {
    let mut cards = Cards::new();
    cards.hidden_cards = vec![Item::Bat, Item::Cat, Item::Owl];
    cards.draw_next();
    assert_eq!(cards.current_card, Some(Item::Owl));
    assert_eq!(cards.hidden_cards, vec![Item::Bat, Item::Cat]);
    assert!(cards.found_cards.is_empty());
}

#[test]
fn drawing_puts_the_current_card_to_the_found_ones() {
    let mut cards = Cards::new();
    cards.hidden_cards = vec![Item::Bat, Item::Cat];
    cards.current_card = Some(Item::Gem);
    cards.draw_next();
    assert_eq!(cards.found_cards, vec![Item::Gem]);
    assert_eq!(cards.current_card, Some(Item::Cat));
    cards.draw_next();
    assert_eq!(cards.found_cards, vec![Item::Gem, Item::Cat]);
    assert_eq!(cards.current_card, Some(Item::Bat));
    assert!(cards.has_found(Item::Cat));
    assert!(!cards.has_found(Item::Bat));
    cards.draw_next();
    assert_eq!(cards.found_cards, vec![Item::Gem, Item::Cat, Item::Bat]);
    assert_eq!(cards.current_card, None);
    assert!(cards.hidden_cards.is_empty());
    cards.draw_next();
    assert_eq!(cards.found_cards, vec![Item::Gem, Item::Cat, Item::Bat]);
    assert_eq!(cards.current_card, None);
}

#[test]
fn a_card_is_found_once() {
    let mut cards = Cards::new();
    cards.found_cards = vec![Item::Ring];
    cards.current_card = Some(Item::Ring);
    cards.draw_next();
    assert_eq!(cards.found_cards, vec![Item::Ring]);
}

#[test]
fn a_game_cannot_begin_with_a_player_who_does_not_take_part() {
    let mut rng = StdRng::seed_from_u64(1);
    let players = set(&[Player::Player1, Player::Player2]);
    match Model::new(&mut rng, &players, Player::Player3) {
        Err(GenericError::WrongPlayer(error)) => {
            assert_eq!(error.to_string(), "Starting player is not playing")
        }
        other => panic!("unexpected answer {:?}", other.map(|_| ())),
    }
    assert!(Model::new(&mut rng, &PlayerSet::new(), Player::Player1).is_err());
}

#[test]
fn a_new_game_begins_with_the_starting_player_inserting_a_tile() {
    let mut rng = StdRng::seed_from_u64(2);
    let players = set(&[Player::Player1, Player::Player2, Player::Player4]);
    let model = Model::new(&mut rng, &players, Player::Player2).unwrap();
    assert_eq!(model.current_player, Player::Player2);
    assert_eq!(model.turn_phase, TurnPhase::InsertTile);
    assert_eq!(model.playing(), players);
    assert!(model.players[2].is_none());
    assert!(model.board.check());
    assert_eq!(
        model.board.players(),
        vec![
            (Location(0, 0), Player::Player1),
            (Location(6, 0), Player::Player2),
            (Location(6, 6), Player::Player4),
        ]
    );
}

#[test]
fn a_new_game_deals_the_whole_deck() {
    for seed in 0..10 {
        let mut rng = StdRng::seed_from_u64(seed);
        let players = set(&[Player::Player1, Player::Player2, Player::Player4]);
        let model = Model::new(&mut rng, &players, Player::Player1).unwrap();
        let mut dealt = Vec::new();
        for cards in model.players.iter().flatten() {
            assert!(cards.found_cards.is_empty());
            assert!(cards.current_card.is_some());
            assert_eq!(cards.hidden_cards.len(), 7);
            dealt.extend(cards.hidden_cards.iter().cloned());
            dealt.extend(cards.current_card);
        }
        assert_eq!(dealt.len(), 24);
        let distinct: HashSet<Item> = dealt.iter().cloned().collect();
        assert_eq!(distinct.len(), 24);
    }
}

#[test]
fn a_lone_player_gets_all_cards() {
    let mut rng = StdRng::seed_from_u64(4);
    let model = Model::new(&mut rng, &set(&[Player::Player3]), Player::Player3).unwrap();
    let cards = model.current_player_cards();
    assert_eq!(cards.hidden_cards.len(), 23);
    assert!(cards.current_card.is_some());
}

#[test]
fn the_deck_is_shuffled() {
    let mut hands = HashSet::new();
    for seed in 0..8 {
        let mut rng = StdRng::seed_from_u64(seed);
        let model = Model::new(&mut rng, &set(&[Player::Player1]), Player::Player1).unwrap();
        let cards = model.current_player_cards();
        let mut hand = cards.hidden_cards.clone();
        hand.extend(cards.current_card);
        hands.insert(hand);
    }
    assert!(hands.len() > 1);
}

#[test]
fn the_cards_of_the_current_player() {
    let mut rng = StdRng::seed_from_u64(6);
    let players = set(&[Player::Player2, Player::Player3]);
    let mut model = Model::new(&mut rng, &players, Player::Player3).unwrap();
    let expected = model.players[2].clone().unwrap();
    assert_eq!(*model.current_player_cards(), expected);
    model.current_player_cards_mut().draw_next();
    let after = model.players[2].clone().unwrap();
    assert_eq!(after.found_cards, vec![expected.current_card.unwrap()]);
    assert_eq!(after.hidden_cards.len(), expected.hidden_cards.len() - 1);
    assert_eq!(model.players[1].as_ref().unwrap().found_cards, Vec::<Item>::new());
}

#[test]
fn the_turn_goes_to_the_next_player_who_takes_part() {
    let mut rng = StdRng::seed_from_u64(6);
    let players = set(&[Player::Player1, Player::Player2, Player::Player4]);
    let mut model = Model::new(&mut rng, &players, Player::Player1).unwrap();
    model.end_turn();
    assert_eq!(model.current_player, Player::Player2);
    model.end_turn();
    assert_eq!(model.current_player, Player::Player4);
    model.end_turn();
    assert_eq!(model.current_player, Player::Player1);
    assert_eq!(model.turn_phase, TurnPhase::InsertTile);
}

#[test]
fn the_deck_is_dealt_card_by_card_in_the_order_of_the_turns() {
    let players = set(&[Player::Player1, Player::Player2, Player::Player4]);
    let deck = vec![Item::Chest, Item::Gnome, Item::Dragon, Item::Unicorn, Item::Phantom];
    let dealt = deal(&players, Player::Player2, &deck);
    assert_eq!(
        dealt,
        vec![
            Some(Cards { current_card: Some(Item::Dragon), hidden_cards: vec![], found_cards: vec![] }),
            Some(Cards { current_card: Some(Item::Unicorn), hidden_cards: vec![Item::Chest], found_cards: vec![] }),
            None,
            Some(Cards { current_card: Some(Item::Phantom), hidden_cards: vec![Item::Gnome], found_cards: vec![] }),
        ]
    );
}

#[test]
fn a_deal_of_few_cards_leaves_some_players_without() {
    let players = set(&[Player::Player1, Player::Player3, Player::Player4]);
    let dealt = deal(&players, Player::Player3, &vec![Item::Owl]);
    assert_eq!(
        dealt,
        vec![
            Some(Cards { current_card: None, hidden_cards: vec![], found_cards: vec![] }),
            None,
            Some(Cards { current_card: Some(Item::Owl), hidden_cards: vec![], found_cards: vec![] }),
            Some(Cards { current_card: None, hidden_cards: vec![], found_cards: vec![] }),
        ]
    );
    let dealt = deal(&players, Player::Player3, &vec![]);
    assert!(dealt.iter().flatten().all(|cards| cards.current_card.is_none()));
}

#[test]
fn a_game_that_is_put_together_is_checked() {
    let mut rng = StdRng::seed_from_u64(8);
    let players = set(&[Player::Player1, Player::Player2]);
    let mut model = Model::new(&mut rng, &players, Player::Player1).unwrap();
    assert!(model.check());
    model.current_player = Player::Player3;
    assert!(!model.check());
    model.current_player = Player::Player2;
    assert!(model.check());
    model.players[1].as_mut().unwrap().found_cards = vec![Item::Owl, Item::Cat, Item::Owl];
    assert!(!model.check());
    model.players[1].as_mut().unwrap().found_cards = vec![Item::Owl, Item::Cat];
    assert!(model.check());
    model.players.pop();
    assert!(!model.check());
}
