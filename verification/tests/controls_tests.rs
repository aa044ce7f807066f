use blackjack::game::card::{Card, Deck, Rank, Suit};
use blackjack::game::state::GameState;
use blackjack::tui::entrypoint::{
    advance, get_applicable_messages, handle_key, message_for_key, KeyInput, Message,
};

fn deal(ranks: &[Rank]) -> GameState {
    let cards: Vec<Card> = ranks.iter().rev().map(|r| Card { suit: Suit::Diamonds, rank: *r }).collect();
    GameState::start_with_deck(&mut Deck::from_cards(cards)).unwrap()
}

#[test]
fn keys_and_names() {
    assert_eq!(Message::NewGame.get_key(), "n");
    assert_eq!(Message::Hit.get_key(), "<space>");
    assert_eq!(Message::Stand.get_key(), "s");
    assert_eq!(Message::Quit.get_key(), "q");
    assert_eq!(Message::NewGame.get_display_text(), "New game");
    assert_eq!(Message::Hit.get_display_text(), "Hit");
    assert_eq!(Message::Stand.get_display_text(), "Stand");
    assert_eq!(Message::Quit.get_display_text(), "Quit");
}

#[test]
fn key_bindings() {
    assert_eq!(handle_key(KeyInput::Char(' ')), Some(Message::Hit));
    assert_eq!(handle_key(KeyInput::Char('s')), Some(Message::Stand));
    assert_eq!(handle_key(KeyInput::Char('n')), Some(Message::NewGame));
    assert_eq!(handle_key(KeyInput::Char('q')), Some(Message::Quit));
    assert_eq!(handle_key(KeyInput::Esc), Some(Message::Quit));
    assert_eq!(handle_key(KeyInput::Char('x')), None);
    assert_eq!(handle_key(KeyInput::Other), None);
}

#[test]
fn applicable_messages_by_stage() {
    let state = deal(&[Rank::Two, Rank::Three, Rank::Four, Rank::Five]);
    assert_eq!(
        get_applicable_messages(&state),
        vec![Message::NewGame, Message::Stand, Message::Hit, Message::Quit]
    );
    let won = deal(&[Rank::Ace, Rank::King, Rank::Four]);
    assert_eq!(get_applicable_messages(&won), vec![Message::NewGame, Message::Quit]);
}

#[test]
fn keys_filtered_by_stage() {
    let won = deal(&[Rank::Ace, Rank::King, Rank::Four]);
    assert_eq!(message_for_key(&won, KeyInput::Char(' ')), None);
    assert_eq!(message_for_key(&won, KeyInput::Char('n')), Some(Message::NewGame));
    let playing = deal(&[Rank::Two, Rank::Three, Rank::Four]);
    assert_eq!(message_for_key(&playing, KeyInput::Char(' ')), Some(Message::Hit));
    assert_eq!(message_for_key(&playing, KeyInput::Char('z')), None);
}

#[test]
fn advance_quits_on_quit() {
    let state = deal(&[Rank::Two, Rank::Three, Rank::Four]);
    assert!(advance(state, Some(Message::Quit)).is_none());
}

#[test]
fn advance_stand_lets_dealer_move() {
    let state = deal(&[Rank::King, Rank::Nine, Rank::King, Rank::Seven]);
    let next = advance(state, Some(Message::Stand)).unwrap();
    assert!(matches!(next, GameState::PlayerWin { .. }));
}

#[test]
fn advance_without_message_keeps_players_turn() {
    let state = deal(&[Rank::Two, Rank::Three, Rank::Four, Rank::Five]);
    let next = advance(state, None).unwrap();
    assert!(matches!(next, GameState::PlayerTurn { .. }));
    assert_eq!(next.get_player_cards().len(), 2);
}

#[test]
fn advance_refused_hit_keeps_state() {
    let state = deal(&[Rank::Two, Rank::Three, Rank::Four]);
    let next = advance(state, Some(Message::Hit)).unwrap();
    assert!(matches!(next, GameState::PlayerTurn { .. }));
    assert_eq!(next.get_player_cards().len(), 2);
}

#[test]
fn advance_new_game_deals_afresh() {
    let state = deal(&[Rank::Ace, Rank::King, Rank::Four]);
    let next = advance(state, Some(Message::NewGame)).unwrap();
    assert_eq!(next.get_player_cards().len(), 2);
    assert_eq!(next.get_dealer_cards().len(), 1);
}

#[test]
fn offered_messages_match_accepted_actions() {
    let mut playing = deal(&[Rank::Two, Rank::Three, Rank::Four, Rank::Five]);
    let offered = get_applicable_messages(&playing);
    assert!(offered.contains(&Message::Hit) && offered.contains(&Message::Stand));
    assert!(playing.clone().player_stand().is_ok());
    assert!(playing.player_hit().is_ok());
    let mut won = deal(&[Rank::Ace, Rank::King, Rank::Four]);
    let offered = get_applicable_messages(&won);
    assert!(!offered.contains(&Message::Hit) && !offered.contains(&Message::Stand));
    assert!(offered.contains(&Message::NewGame) && offered.contains(&Message::Quit));
    assert!(won.clone().player_stand().is_err());
    assert!(won.player_hit().is_err());
}
