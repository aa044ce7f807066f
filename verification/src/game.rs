//! The game of blackjack. `card` holds the cards, decks and hands, `state` the table's state
//! machine. This module keeps the first form of that state machine, in which the hands that
//! are done with are plain lists of cards and a dealt blackjack is not settled at once.

pub mod card;
pub mod state;

use crate::game::card::{copy_cards, full_deck, high_total, Card, Deck, Hand};
use crate::game::state::{deal, hit_result, stand_result, Stage, Table};
use vstd::prelude::*;

verus! {

broadcast use vstd::seq_lib::group_to_multiset_ensures;

#[derive(Debug)]
#[allow(inconsistent_fields)]
pub enum GameState {
    PlayerTurn { deck: Deck, player_hand: Hand, dealer_hand: Hand },
    DealerTurn { deck: Deck, player_hand: Vec<Card>, dealer_hand: Hand },
    PlayerWin { deck: Deck, player_hand: Vec<Card>, dealer_hand: Vec<Card> },
    DealerWin { deck: Deck, player_hand: Vec<Card>, dealer_hand: Vec<Card> },
}

#[derive(Debug, Clone, Copy, PartialEq, Eq, Structural)]
pub enum TurnTransitionError {
    InvalidGameStateForAction,
    DeckExhausted,
}

impl View for GameState {
    type V = Table;

    open spec fn view(&self) -> Table {
        match self {
            GameState::PlayerTurn { deck, player_hand, dealer_hand } => Table {
                stage: Stage::PlayerTurn,
                deck: deck@,
                player: player_hand@,
                dealer: dealer_hand@,
            },
            GameState::DealerTurn { deck, player_hand, dealer_hand } => Table {
                stage: Stage::DealerTurn,
                deck: deck@,
                player: player_hand@,
                dealer: dealer_hand@,
            },
            GameState::PlayerWin { deck, player_hand, dealer_hand } => Table {
                stage: Stage::PlayerWin,
                deck: deck@,
                player: player_hand@,
                dealer: dealer_hand@,
            },
            GameState::DealerWin { deck, player_hand, dealer_hand } => Table {
                stage: Stage::DealerWin,
                deck: deck@,
                player: player_hand@,
                dealer: dealer_hand@,
            },
        }
    }
}

impl Clone for GameState {
    fn clone(&self) -> (r: Self)
        ensures
            r@ == self@,
    {
        match self {
            GameState::PlayerTurn { deck, player_hand, dealer_hand } => GameState::PlayerTurn {
                deck: deck.clone(),
                player_hand: player_hand.clone(),
                dealer_hand: dealer_hand.clone(),
            },
            GameState::DealerTurn { deck, player_hand, dealer_hand } => GameState::DealerTurn {
                deck: deck.clone(),
                player_hand: copy_cards(player_hand.as_slice()),
                dealer_hand: dealer_hand.clone(),
            },
            GameState::PlayerWin { deck, player_hand, dealer_hand } => GameState::PlayerWin {
                deck: deck.clone(),
                player_hand: copy_cards(player_hand.as_slice()),
                dealer_hand: copy_cards(dealer_hand.as_slice()),
            },
            GameState::DealerWin { deck, player_hand, dealer_hand } => GameState::DealerWin {
                deck: deck.clone(),
                player_hand: copy_cards(player_hand.as_slice()),
                dealer_hand: copy_cards(dealer_hand.as_slice()),
            },
        }
    }
}

/// The outcome of an action, with a resulting state taken by its view and the error by its
/// counterpart in `state`.
pub open spec fn outcome_view(r: Result<GameState, TurnTransitionError>) -> Result<
    Table,
    crate::game::state::TurnTransitionError,
> {
    match r {
        Ok(s) => Ok(s@),
        Err(TurnTransitionError::InvalidGameStateForAction) => Err(
            crate::game::state::TurnTransitionError::InvalidGameStateForAction,
        ),
        Err(TurnTransitionError::DeckExhausted) => Err(
            crate::game::state::TurnTransitionError::DeckExhausted,
        ),
    }
}

/// The opening deal from `deck`, after which the player plays whatever they were dealt.
pub open spec fn opening_deal(deck: Seq<Card>) -> Table {
    Table { stage: Stage::PlayerTurn, ..deal(deck) }
}

impl GameState {
    /// A new game from a freshly shuffled deck: two cards to the player, one to the dealer,
    /// and the player plays first, whatever the player was dealt.
    pub fn start() -> (r: Self)
        ensures
            exists|d: Seq<Card>|
                d.to_multiset() == full_deck().to_multiset() && d.len() == 52 && r@
                    == opening_deal(d),
    {
        let mut deck = Deck::default();
        deck.shuffle();
        assert(full_deck().len() == 52);
        let ghost d = deck@;
        let mut player_hand = Hand::default();
        player_hand.add_card(deck.draw_card().unwrap());
        player_hand.add_card(deck.draw_card().unwrap());
        let mut dealer_hand = Hand::default();
        dealer_hand.add_card(deck.draw_card().unwrap());
        assert(deck@ =~= d.take(d.len() - 3));
        assert(player_hand@ =~= seq![d[d.len() - 1], d[d.len() - 2]]);
        assert(dealer_hand@ =~= seq![d[d.len() - 3]]);
        GameState::PlayerTurn { deck, player_hand, dealer_hand }
    }

    /// The player takes the top card of the deck, which this state keeps; the state returned
    /// tells whether the player went over 21, reached 21, or may go on.
    pub fn player_hit(&mut self) -> (r: Result<Self, TurnTransitionError>)
        requires
            old(self)@.stage == Stage::PlayerTurn && old(self)@.deck.len() > 0 ==> high_total(
                old(self)@.player.push(old(self)@.deck.last()),
            ) <= 255,
        ensures
            outcome_view(r) == hit_result(old(self)@),
            final(self)@ == crate::game::state::after_hit(old(self)@),
    {
        match self {
            GameState::PlayerTurn { deck, player_hand, dealer_hand } => {
                let card = match deck.draw_card() {
                    Some(card) => card,
                    None => {
                        return Err(TurnTransitionError::DeckExhausted);
                    },
                };
                player_hand.add_card(card);
                if player_hand.is_bust() {
                    Ok(
                        GameState::DealerWin {
                            deck: deck.clone(),
                            player_hand: copy_cards(player_hand.get_cards()),
                            dealer_hand: copy_cards(dealer_hand.get_cards()),
                        },
                    )
                } else if player_hand.is_blackjack() {
                    Ok(
                        GameState::PlayerWin {
                            deck: deck.clone(),
                            player_hand: copy_cards(player_hand.get_cards()),
                            dealer_hand: copy_cards(dealer_hand.get_cards()),
                        },
                    )
                } else {
                    Ok(
                        GameState::PlayerTurn {
                            deck: deck.clone(),
                            player_hand: player_hand.clone(),
                            dealer_hand: dealer_hand.clone(),
                        },
                    )
                }
            },
            _ => Err(TurnTransitionError::InvalidGameStateForAction),
        }
    }

    /// The player ends their turn; the dealer plays next.
    pub fn player_stand(&mut self) -> (r: Result<Self, TurnTransitionError>)
        ensures
            outcome_view(r) == stand_result(old(self)@),
            final(self)@ == old(self)@,
    {
        match self {
            GameState::PlayerTurn { deck, player_hand, dealer_hand } => Ok(
                GameState::DealerTurn {
                    deck: deck.clone(),
                    player_hand: copy_cards(player_hand.get_cards()),
                    dealer_hand: dealer_hand.clone(),
                },
            ),
            _ => Err(TurnTransitionError::InvalidGameStateForAction),
        }
    }
}

} // verus!
