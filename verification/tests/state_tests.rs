use blackjack::game::card::{Card, Deck, Rank, Suit};
use blackjack::game::state::{GameState, TurnTransitionError};

fn c(rank: Rank) -> Card {
    Card { suit: Suit::Clubs, rank }
}

/// A deck whose cards are drawn in the order given.
fn deck_drawing(ranks: &[Rank]) -> Deck {
    Deck::from_cards(ranks.iter().rev().map(|r| c(*r)).collect())
}

fn deal(ranks: &[Rank]) -> GameState {
    GameState::start_with_deck(&mut deck_drawing(ranks)).unwrap()
}

fn count_cards(state: &GameState) -> usize {
    let deck = match state {
        GameState::PlayerTurn { deck, .. }
        | GameState::DealerTurn { deck, .. }
        | GameState::PlayerWin { deck, .. }
        | GameState::DealerWin { deck, .. }
        | GameState::Draw { deck, .. } => deck,
    };
    deck.get_cards().len() + state.get_player_cards().len() + state.get_dealer_cards().len()
}

#[test]
fn deal_gives_two_cards_to_player_and_one_to_dealer() {
    let mut deck = deck_drawing(&[Rank::Two, Rank::Three, Rank::Four, Rank::Five]);
    let state = GameState::start_with_deck(&mut deck).unwrap();
    assert!(matches!(state, GameState::PlayerTurn { .. }));
    assert_eq!(state.get_player_cards(), vec![c(Rank::Two), c(Rank::Three)]);
    assert_eq!(state.get_dealer_cards(), vec![c(Rank::Four)]);
    assert_eq!(state.get_player_value(), 5);
    assert_eq!(state.get_dealer_value(), 4);
    assert_eq!(deck.get_cards(), &[c(Rank::Five)]);
}

#[test]
fn dealt_blackjack_wins_at_once() {
    let state = deal(&[Rank::Ace, Rank::King, Rank::Nine]);
    assert!(matches!(state, GameState::PlayerWin { .. }));
    assert_eq!(state.get_player_value(), 21);
    assert_eq!(state.get_dealer_value(), 9);
}

#[test]
fn deal_from_short_deck_fails() {
    let mut deck = deck_drawing(&[Rank::Two, Rank::Three]);
    let r = GameState::start_with_deck(&mut deck);
    assert_eq!(r.unwrap_err(), TurnTransitionError::DeckExhausted);
    assert_eq!(deck.get_cards().len(), 0);
    let mut empty = Deck::from_cards(vec![]);
    assert_eq!(
        GameState::start_with_deck(&mut empty).unwrap_err(),
        TurnTransitionError::DeckExhausted
    );
}

#[test]
fn start_deals_from_a_full_deck() {
    let state = GameState::start();
    assert_eq!(count_cards(&state), 52);
    assert_eq!(state.get_player_cards().len(), 2);
    assert_eq!(state.get_dealer_cards().len(), 1);
}

#[test]
fn restart_deals_from_the_remaining_deck() {
    let state = deal(&[Rank::Two, Rank::Three, Rank::Four, Rank::Five, Rank::Six, Rank::Seven]);
    let next = state.restart().unwrap();
    assert_eq!(next.get_player_cards(), vec![c(Rank::Five), c(Rank::Six)]);
    assert_eq!(next.get_dealer_cards(), vec![c(Rank::Seven)]);
    let short = deal(&[Rank::Two, Rank::Three, Rank::Four, Rank::Five]);
    assert_eq!(short.restart().unwrap_err(), TurnTransitionError::DeckExhausted);
}

#[test]
fn hit_under_21_keeps_the_turn() {
    let mut state = deal(&[Rank::Two, Rank::Three, Rank::Four, Rank::Five]);
    let next = state.player_hit().unwrap();
    assert!(matches!(next, GameState::PlayerTurn { .. }));
    assert_eq!(next.get_player_value(), 10);
    // The card drawn stays with the state that was hit too.
    assert_eq!(state.get_player_cards().len(), 3);
    assert_eq!(count_cards(&next), 4);
}

#[test]
fn hit_over_21_loses() {
    let mut state = deal(&[Rank::King, Rank::Six, Rank::Four, Rank::Queen]);
    let next = state.player_hit().unwrap();
    assert!(matches!(next, GameState::DealerWin { .. }));
    assert_eq!(next.get_player_value(), 26);
}

#[test]
fn hit_to_21_wins() {
    let mut state = deal(&[Rank::King, Rank::Six, Rank::Four, Rank::Five]);
    let next = state.player_hit().unwrap();
    assert!(matches!(next, GameState::PlayerWin { .. }));
    assert_eq!(next.get_player_value(), 21);
}

#[test]
fn hit_on_empty_deck_is_refused() {
    let mut state = deal(&[Rank::King, Rank::Six, Rank::Four]);
    assert_eq!(state.player_hit().unwrap_err(), TurnTransitionError::DeckExhausted);
    assert_eq!(state.get_player_cards().len(), 2);
}

#[test]
fn stand_hands_over_to_dealer() {
    let mut state = deal(&[Rank::King, Rank::Nine, Rank::Four, Rank::Five]);
    let next = state.player_stand().unwrap();
    assert!(matches!(next, GameState::DealerTurn { .. }));
    assert_eq!(next.get_player_value(), 19);
    assert!(next.get_player_bust_odds().is_none());
}

#[test]
fn dealer_draws_under_17_and_plays_on() {
    let mut state = deal(&[Rank::King, Rank::Nine, Rank::Four, Rank::Five, Rank::Nine])
        .player_stand()
        .unwrap();
    let next = state.execute_dealer_turn().unwrap();
    assert!(matches!(next, GameState::DealerTurn { .. }));
    assert_eq!(next.get_dealer_value(), 9);
    assert_eq!(state.get_dealer_cards().len(), 2);
}

#[test]
fn dealer_over_21_loses() {
    let mut state = deal(&[Rank::King, Rank::Nine, Rank::King, Rank::Six, Rank::Queen])
        .player_stand()
        .unwrap();
    let next = state.execute_dealer_turn().unwrap();
    assert!(matches!(next, GameState::DealerTurn { .. }));
    let mut state = next;
    let next = state.execute_dealer_turn().unwrap();
    assert!(matches!(next, GameState::PlayerWin { .. }));
    assert_eq!(next.get_dealer_value(), 26);
}

#[test]
fn dealer_below_player_loses() {
    let mut state = deal(&[Rank::King, Rank::Nine, Rank::King, Rank::Seven])
        .player_stand()
        .unwrap();
    let next = state.execute_dealer_turn().unwrap();
    assert!(matches!(next, GameState::PlayerWin { .. }));
    assert_eq!(next.get_dealer_value(), 17);
}

#[test]
fn dealer_level_with_player_draws() {
    let mut state = deal(&[Rank::King, Rank::Eight, Rank::King, Rank::Eight])
        .player_stand()
        .unwrap();
    let next = state.execute_dealer_turn().unwrap();
    assert!(matches!(next, GameState::Draw { .. }));
}

#[test]
fn dealer_above_player_wins() {
    let mut state = deal(&[Rank::King, Rank::Seven, Rank::King, Rank::Nine])
        .player_stand()
        .unwrap();
    let next = state.execute_dealer_turn().unwrap();
    assert!(matches!(next, GameState::DealerWin { .. }));
}

#[test]
fn dealer_on_empty_deck_is_refused() {
    let mut state = deal(&[Rank::King, Rank::Seven, Rank::Two]).player_stand().unwrap();
    assert_eq!(
        state.execute_dealer_turn().unwrap_err(),
        TurnTransitionError::DeckExhausted
    );
}

#[test]
fn actions_out_of_turn_are_refused() {
    let mut player_turn = deal(&[Rank::Two, Rank::Three, Rank::Four, Rank::Five]);
    assert_eq!(
        player_turn.execute_dealer_turn().unwrap_err(),
        TurnTransitionError::InvalidGameStateForAction
    );
    let mut dealer_turn = player_turn.player_stand().unwrap();
    assert_eq!(
        dealer_turn.player_hit().unwrap_err(),
        TurnTransitionError::InvalidGameStateForAction
    );
    assert_eq!(
        dealer_turn.player_stand().unwrap_err(),
        TurnTransitionError::InvalidGameStateForAction
    );
}

#[test]
fn finished_game_refuses_every_action() {
    let mut won = deal(&[Rank::Ace, Rank::King, Rank::Nine, Rank::Two]);
    assert_eq!(won.player_hit().unwrap_err(), TurnTransitionError::InvalidGameStateForAction);
    assert_eq!(won.player_stand().unwrap_err(), TurnTransitionError::InvalidGameStateForAction);
    assert_eq!(
        won.execute_dealer_turn().unwrap_err(),
        TurnTransitionError::InvalidGameStateForAction
    );
    assert_eq!(won.get_player_cards().len(), 2);
}

#[test]
fn cards_are_conserved_through_a_game() {
    let mut state = deal(&[
        Rank::Two, Rank::Three, Rank::Four, Rank::Five, Rank::Six, Rank::Seven, Rank::Eight,
    ]);
    assert_eq!(count_cards(&state), 7);
    state = state.player_hit().unwrap();
    assert_eq!(count_cards(&state), 7);
    state = state.player_stand().unwrap();
    assert_eq!(count_cards(&state), 7);
    while let GameState::DealerTurn { .. } = state {
        state = state.execute_dealer_turn().unwrap();
        assert_eq!(count_cards(&state), 7);
    }
}

#[test]
fn bust_odds_on_players_turn() {
    let state = deal(&[Rank::King, Rank::Six, Rank::Two, Rank::Five, Rank::Six, Rank::King]);
    assert_eq!(state.get_player_bust_odds(), Some((2, 3)));
}

#[test]
fn dealer_turn_ends_within_17_moves() {
    // A long run of twos: the dealer draws from 2 up to 18.
    let mut ranks = vec![Rank::King, Rank::Nine, Rank::Two];
    ranks.extend(std::iter::repeat(Rank::Two).take(20));
    let mut state = deal(&ranks).player_stand().unwrap();
    let mut moves = 0;
    loop {
        moves += 1;
        match state.execute_dealer_turn() {
            Ok(next @ GameState::DealerTurn { .. }) => state = next,
            Ok(_) | Err(_) => break,
        }
        assert!(moves < 17);
    }
    assert!(moves <= 17);
    assert_eq!(moves, 8);
}

#[test]
fn clone_keeps_the_cards() {
    let state = deal(&[Rank::Ace, Rank::King, Rank::Nine, Rank::Two]);
    let copy = state.clone();
    assert!(matches!(copy, GameState::PlayerWin { .. }));
    assert_eq!(copy.get_player_cards(), state.get_player_cards());
    assert_eq!(copy.get_dealer_cards(), state.get_dealer_cards());
    assert_eq!(copy.get_player_value(), 21);
}

#[test]
fn getters_match_a_hand_of_the_same_cards() {
    let state = deal(&[Rank::King, Rank::Nine, Rank::King, Rank::Seven]).player_stand().unwrap();
    let mut player = blackjack::game::card::Hand::default();
    for card in state.get_player_cards() {
        player.add_card(card);
    }
    assert_eq!(state.get_player_value(), player.get_hand_value());
}
