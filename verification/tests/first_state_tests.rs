use blackjack::game::card::{Card, Deck, Hand, Rank, Suit};
use blackjack::game::{GameState, TurnTransitionError};

fn c(rank: Rank) -> Card {
    Card { suit: Suit::Spades, rank }
}

fn playing(player: &[Rank], dealer: &[Rank], deck_drawing: &[Rank]) -> GameState {
    let mut player_hand = Hand::default();
    for r in player {
        player_hand.add_card(c(*r));
    }
    let mut dealer_hand = Hand::default();
    for r in dealer {
        dealer_hand.add_card(c(*r));
    }
    GameState::PlayerTurn {
        deck: Deck::from_cards(deck_drawing.iter().rev().map(|r| c(*r)).collect()),
        player_hand,
        dealer_hand,
    }
}

#[test]
fn first_form_start_lets_player_play() {
    let state = GameState::start();
    match state {
        GameState::PlayerTurn { deck, player_hand, dealer_hand } => {
            assert_eq!(deck.get_cards().len(), 49);
            assert_eq!(player_hand.get_cards().len(), 2);
            assert_eq!(dealer_hand.get_cards().len(), 1);
        }
        _ => panic!("the player plays first"),
    }
}

#[test]
fn first_form_hit_outcomes() {
    let mut state = playing(&[Rank::King, Rank::Six], &[Rank::Four], &[Rank::Queen]);
    assert!(matches!(state.player_hit().unwrap(), GameState::DealerWin { .. }));
    let mut state = playing(&[Rank::King, Rank::Six], &[Rank::Four], &[Rank::Five]);
    match state.player_hit().unwrap() {
        GameState::PlayerWin { player_hand, dealer_hand, .. } => {
            assert_eq!(player_hand, vec![c(Rank::King), c(Rank::Six), c(Rank::Five)]);
            assert_eq!(dealer_hand, vec![c(Rank::Four)]);
        }
        _ => panic!("21 wins"),
    }
    let mut state = playing(&[Rank::King, Rank::Two], &[Rank::Four], &[Rank::Five]);
    assert!(matches!(state.player_hit().unwrap(), GameState::PlayerTurn { .. }));
    let mut state = playing(&[Rank::King, Rank::Two], &[Rank::Four], &[]);
    assert_eq!(state.player_hit().unwrap_err(), TurnTransitionError::DeckExhausted);
}

#[test]
fn first_form_stand() {
    let mut state = playing(&[Rank::King, Rank::Two], &[Rank::Four], &[Rank::Five]);
    let mut next = state.player_stand().unwrap();
    match &next {
        GameState::DealerTurn { player_hand, .. } => {
            assert_eq!(player_hand, &vec![c(Rank::King), c(Rank::Two)]);
        }
        _ => panic!("the dealer plays next"),
    }
    assert_eq!(next.player_stand().unwrap_err(), TurnTransitionError::InvalidGameStateForAction);
    assert_eq!(next.player_hit().unwrap_err(), TurnTransitionError::InvalidGameStateForAction);
}
