use crate::game::card::{
    ace_count, bust_count, copy_cards, full_deck, hand_value, high_total, is_ace,
    lemma_aces_within_low_total, low_total, Card, Deck, FinalisedHand, Hand,
};
use vstd::prelude::*;

verus! {

broadcast use {
    vstd::seq_lib::group_to_multiset_ensures,
    vstd::seq_lib::lemma_multiset_commutative,
    vstd::multiset::group_multiset_axioms,
};

/// Where a game stands. The hands of the player and the dealer are open while they may still
/// take cards, and finalised once their turn is over.
#[derive(Debug)]
#[allow(inconsistent_fields)]
pub enum GameState {
    PlayerTurn { deck: Deck, player_hand: Hand, dealer_hand: Hand },
    DealerTurn { deck: Deck, player_hand: FinalisedHand, dealer_hand: Hand },
    PlayerWin { deck: Deck, player_hand: FinalisedHand, dealer_hand: FinalisedHand },
    DealerWin { deck: Deck, player_hand: FinalisedHand, dealer_hand: FinalisedHand },
    Draw { deck: Deck, player_hand: FinalisedHand, dealer_hand: FinalisedHand },
}

#[derive(Debug, Clone, Copy, PartialEq, Eq, Structural)]
pub enum TurnTransitionError {
    /// The action does not apply to the stage the game is in.
    InvalidGameStateForAction,
    /// A card was to be drawn from an empty deck.
    DeckExhausted,
}

/// The stage of a game, without its cards.
#[derive(Debug, Clone, Copy, PartialEq, Eq, Structural)]
pub enum Stage {
    PlayerTurn,
    DealerTurn,
    PlayerWin,
    DealerWin,
    Draw,
}

/// What a game state holds: its stage, the cards left in the deck (the last is drawn next),
/// and the cards of the player and of the dealer in the order they were dealt.
pub struct Table {
    pub stage: Stage,
    pub deck: Seq<Card>,
    pub player: Seq<Card>,
    pub dealer: Seq<Card>,
}

impl View for GameState {
    type V = Table;

    open spec fn view(&self) -> Table {
        match self {
            GameState::PlayerTurn { deck, player_hand, dealer_hand } => Table {
                stage: Stage::PlayerTurn,
                deck: deck@,
                player: player_hand@,
                dealer: dealer_hand@,
            },
            GameState::DealerTurn { deck, player_hand, dealer_hand } => Table {
                stage: Stage::DealerTurn,
                deck: deck@,
                player: player_hand@,
                dealer: dealer_hand@,
            },
            GameState::PlayerWin { deck, player_hand, dealer_hand } => Table {
                stage: Stage::PlayerWin,
                deck: deck@,
                player: player_hand@,
                dealer: dealer_hand@,
            },
            GameState::DealerWin { deck, player_hand, dealer_hand } => Table {
                stage: Stage::DealerWin,
                deck: deck@,
                player: player_hand@,
                dealer: dealer_hand@,
            },
            GameState::Draw { deck, player_hand, dealer_hand } => Table {
                stage: Stage::Draw,
                deck: deck@,
                player: player_hand@,
                dealer: dealer_hand@,
            },
        }
    }
}

impl Clone for GameState {
    fn clone(&self) -> (r: Self)
        ensures
            r@ == self@,
    {
        match self {
            GameState::PlayerTurn { deck, player_hand, dealer_hand } => GameState::PlayerTurn {
                deck: deck.clone(),
                player_hand: player_hand.clone(),
                dealer_hand: dealer_hand.clone(),
            },
            GameState::DealerTurn { deck, player_hand, dealer_hand } => GameState::DealerTurn {
                deck: deck.clone(),
                player_hand: player_hand.clone(),
                dealer_hand: dealer_hand.clone(),
            },
            GameState::PlayerWin { deck, player_hand, dealer_hand } => GameState::PlayerWin {
                deck: deck.clone(),
                player_hand: player_hand.clone(),
                dealer_hand: dealer_hand.clone(),
            },
            GameState::DealerWin { deck, player_hand, dealer_hand } => GameState::DealerWin {
                deck: deck.clone(),
                player_hand: player_hand.clone(),
                dealer_hand: dealer_hand.clone(),
            },
            GameState::Draw { deck, player_hand, dealer_hand } => GameState::Draw {
                deck: deck.clone(),
                player_hand: player_hand.clone(),
                dealer_hand: dealer_hand.clone(),
            },
        }
    }
}

/// The outcome of an action, with a resulting state taken by its view.
pub open spec fn outcome_view(r: Result<GameState, TurnTransitionError>) -> Result<
    Table,
    TurnTransitionError,
> {
    match r {
        Ok(s) => Ok(s@),
        Err(e) => Err(e),
    }
}

/// The opening deal from `deck`: two cards to the player, then one to the dealer, each from
/// the top of the deck. A player dealt 21 has won at once.
pub open spec fn deal(deck: Seq<Card>) -> Table
    recommends
        deck.len() >= 3,
{
    let n = deck.len() as int;
    let player = seq![deck[n - 1], deck[n - 2]];
    Table {
        stage: if hand_value(player) == 21 {
            Stage::PlayerWin
        } else {
            Stage::PlayerTurn
        },
        deck: deck.take(n - 3),
        player,
        dealer: seq![deck[n - 3]],
    }
}

/// The outcome of dealing from `deck`.
pub open spec fn deal_result(deck: Seq<Card>) -> Result<Table, TurnTransitionError> {
    if deck.len() < 3 {
        Err(TurnTransitionError::DeckExhausted)
    } else {
        Ok(deal(deck))
    }
}

/// The table after the top card of the deck went to the player.
pub open spec fn player_draws(t: Table) -> Table {
    Table { deck: t.deck.drop_last(), player: t.player.push(t.deck.last()), ..t }
}

/// Why the player may not take a card, if they may not.
pub open spec fn hit_error(t: Table) -> Option<TurnTransitionError> {
    if t.stage != Stage::PlayerTurn {
        Some(TurnTransitionError::InvalidGameStateForAction)
    } else if t.deck.len() == 0 {
        Some(TurnTransitionError::DeckExhausted)
    } else {
        None
    }
}

/// The outcome of the player taking a card: over 21 the dealer wins, at 21 the player wins,
/// otherwise it is still the player's turn.
pub open spec fn hit_result(t: Table) -> Result<Table, TurnTransitionError> {
    match hit_error(t) {
        Some(e) => Err(e),
        None => {
            let next = player_draws(t);
            let value = hand_value(next.player);
            Ok(
                Table {
                    stage: if value > 21 {
                        Stage::DealerWin
                    } else if value == 21 {
                        Stage::PlayerWin
                    } else {
                        Stage::PlayerTurn
                    },
                    ..next
                },
            )
        },
    }
}

/// The state the player's hit leaves behind in place: the card drawn, still the player's turn.
pub open spec fn after_hit(t: Table) -> Table {
    if hit_error(t) is None {
        player_draws(t)
    } else {
        t
    }
}

/// The outcome of the player standing: the dealer plays next.
pub open spec fn stand_result(t: Table) -> Result<Table, TurnTransitionError> {
    if t.stage != Stage::PlayerTurn {
        Err(TurnTransitionError::InvalidGameStateForAction)
    } else {
        Ok(Table { stage: Stage::DealerTurn, ..t })
    }
}

/// The table after the dealer's move: under 17 the dealer takes the top card of the deck.
pub open spec fn dealer_draws(t: Table) -> Table {
    if hand_value(t.dealer) < 17 {
        Table { deck: t.deck.drop_last(), dealer: t.dealer.push(t.deck.last()), ..t }
    } else {
        t
    }
}

/// Why the dealer may not move, if they may not.
pub open spec fn dealer_error(t: Table) -> Option<TurnTransitionError> {
    if t.stage != Stage::DealerTurn {
        Some(TurnTransitionError::InvalidGameStateForAction)
    } else if hand_value(t.dealer) < 17 && t.deck.len() == 0 {
        Some(TurnTransitionError::DeckExhausted)
    } else {
        None
    }
}

/// The outcome of one move of the dealer. Under 17 the dealer keeps playing; otherwise the
/// player wins when the dealer is over 21 or below the player, the game is drawn when both are
/// level, and the dealer wins when above the player.
pub open spec fn dealer_result(t: Table) -> Result<Table, TurnTransitionError> {
    match dealer_error(t) {
        Some(e) => Err(e),
        None => {
            let next = dealer_draws(t);
            let dealer_value = hand_value(next.dealer);
            let player_value = hand_value(next.player);
            Ok(
                Table {
                    stage: if dealer_value < 17 {
                        Stage::DealerTurn
                    } else if dealer_value > 21 || dealer_value < player_value {
                        Stage::PlayerWin
                    } else if dealer_value == player_value {
                        Stage::Draw
                    } else {
                        Stage::DealerWin
                    },
                    ..next
                },
            )
        },
    }
}

/// The state the dealer's move leaves behind in place: the card drawn, if any.
pub open spec fn after_dealer(t: Table) -> Table {
    if dealer_error(t) is None {
        dealer_draws(t)
    } else {
        t
    }
}

/// The hand totals that taking a card computes stay within a byte.
pub open spec fn hit_fits(t: Table) -> bool {
    hit_error(t) is None ==> {
        let player = t.player.push(t.deck.last());
        &&& high_total(player) <= 255
        &&& hand_value(player) >= 21 ==> high_total(t.dealer) <= 255
    }
}

/// The hand totals that the dealer's move computes stay within a byte.
pub open spec fn dealer_fits(t: Table) -> bool {
    t.stage == Stage::DealerTurn ==> {
        &&& high_total(t.dealer) <= 255
        &&& dealer_error(t) is None ==> high_total(dealer_draws(t).dealer) <= 255
    }
}

impl GameState {
    /// Deals a new game from `deck`, which keeps the cards that were not dealt.
    pub fn start_with_deck(deck: &mut Deck) -> (r: Result<Self, TurnTransitionError>)
        ensures
            outcome_view(r) == deal_result(old(deck)@),
            final(deck)@ == old(deck)@.take(
                if old(deck)@.len() >= 3 {
                    old(deck)@.len() - 3
                } else {
                    0
                },
            ),
    {
        let ghost d = deck@;
        let mut player_hand = Hand::default();
        let first = match deck.draw_card() {
            Some(card) => card,
            None => {
                assert(d.take(0) =~= d);
                return Err(TurnTransitionError::DeckExhausted);
            },
        };
        player_hand.add_card(first);
        let second = match deck.draw_card() {
            Some(card) => card,
            None => {
                assert(d.take(0) =~= deck@);
                return Err(TurnTransitionError::DeckExhausted);
            },
        };
        player_hand.add_card(second);
        let mut dealer_hand = Hand::default();
        let third = match deck.draw_card() {
            Some(card) => card,
            None => {
                assert(d.take(0) =~= deck@);
                return Err(TurnTransitionError::DeckExhausted);
            },
        };
        dealer_hand.add_card(third);
        assert(deck@ =~= d.take(d.len() - 3));
        assert(player_hand@ =~= seq![d[d.len() - 1], d[d.len() - 2]]);
        assert(dealer_hand@ =~= seq![d[d.len() - 3]]);
        proof {
            lemma_two_cards_fit(player_hand@);
            lemma_two_cards_fit(dealer_hand@);
        }
        if player_hand.is_blackjack() {
            return Ok(
                GameState::PlayerWin {
                    deck: deck.clone(),
                    player_hand: player_hand.finalise(),
                    dealer_hand: dealer_hand.finalise(),
                },
            );
        }
        Ok(GameState::PlayerTurn { deck: deck.clone(), player_hand, dealer_hand })
    }

    /// A new game from a freshly shuffled deck.
    pub fn start() -> (r: Self)
        ensures
            exists|d: Seq<Card>|
                d.to_multiset() == full_deck().to_multiset() && d.len() == 52 && r@ == deal(d),
            all_cards(r@).to_multiset() == full_deck().to_multiset(),
            playable(r@),
    {
        let mut deck = Deck::default();
        deck.shuffle();
        assert(full_deck().len() == 52);
        let ghost d = deck@;
        let state = Self::start_with_deck(&mut deck).unwrap();
        proof {
            lemma_cards_conserved(state@, d);
            lemma_playable_preserved(state@, d);
        }
        state
    }

    /// A new game dealt from the cards left in this game's deck.
    pub fn restart(&self) -> (r: Result<Self, TurnTransitionError>)
        ensures
            outcome_view(r) == deal_result(self@.deck),
    {
        let mut deck = match self {
            GameState::PlayerTurn { deck, .. }
            | GameState::DealerTurn { deck, .. }
            | GameState::PlayerWin { deck, .. }
            | GameState::DealerWin { deck, .. }
            | GameState::Draw { deck, .. } => deck,
        }.clone();
        Self::start_with_deck(&mut deck)
    }

    /// The player takes the top card of the deck. This state keeps the card drawn; the state
    /// returned tells whether the player went over 21, reached 21, or may go on.
    pub fn player_hit(&mut self) -> (r: Result<Self, TurnTransitionError>)
        requires
            hit_fits(old(self)@),
        ensures
            outcome_view(r) == hit_result(old(self)@),
            final(self)@ == after_hit(old(self)@),
    {
        match self {
            GameState::PlayerTurn { deck, player_hand, dealer_hand } => {
                let card = match deck.draw_card() {
                    Some(card) => card,
                    None => {
                        return Err(TurnTransitionError::DeckExhausted);
                    },
                };
                player_hand.add_card(card);
                if player_hand.is_bust() {
                    Ok(
                        GameState::DealerWin {
                            deck: deck.clone(),
                            player_hand: player_hand.finalise(),
                            dealer_hand: dealer_hand.finalise(),
                        },
                    )
                } else if player_hand.is_blackjack() {
                    Ok(
                        GameState::PlayerWin {
                            deck: deck.clone(),
                            player_hand: player_hand.finalise(),
                            dealer_hand: dealer_hand.finalise(),
                        },
                    )
                } else {
                    Ok(
                        GameState::PlayerTurn {
                            deck: deck.clone(),
                            player_hand: player_hand.clone(),
                            dealer_hand: dealer_hand.clone(),
                        },
                    )
                }
            },
            _ => Err(TurnTransitionError::InvalidGameStateForAction),
        }
    }

    /// The player ends their turn; the dealer plays next.
    pub fn player_stand(&mut self) -> (r: Result<Self, TurnTransitionError>)
        requires
            old(self)@.stage == Stage::PlayerTurn ==> high_total(old(self)@.player) <= 255,
        ensures
            outcome_view(r) == stand_result(old(self)@),
            final(self)@ == old(self)@,
    {
        match self {
            GameState::PlayerTurn { deck, player_hand, dealer_hand } => Ok(
                GameState::DealerTurn {
                    deck: deck.clone(),
                    player_hand: player_hand.finalise(),
                    dealer_hand: dealer_hand.clone(),
                },
            ),
            _ => Err(TurnTransitionError::InvalidGameStateForAction),
        }
    }

    /// One move of the dealer: under 17 the dealer takes the top card of the deck, which this
    /// state keeps; the state returned tells whether the dealer plays on or who has won.
    pub fn execute_dealer_turn(&mut self) -> (r: Result<Self, TurnTransitionError>)
        requires
            dealer_fits(old(self)@),
        ensures
            outcome_view(r) == dealer_result(old(self)@),
            final(self)@ == after_dealer(old(self)@),
    {
        match self {
            GameState::DealerTurn { deck, player_hand, dealer_hand } => {
                if dealer_hand.get_hand_value() < 17 {
                    let card = match deck.draw_card() {
                        Some(card) => card,
                        None => {
                            return Err(TurnTransitionError::DeckExhausted);
                        },
                    };
                    dealer_hand.add_card(card);
                }
                if dealer_hand.get_hand_value() < 17 {
                    Ok(
                        GameState::DealerTurn {
                            deck: deck.clone(),
                            player_hand: player_hand.clone(),
                            dealer_hand: dealer_hand.clone(),
                        },
                    )
                } else if dealer_hand.is_bust() || dealer_hand.get_hand_value()
                    < player_hand.get_value() {
                    Ok(
                        GameState::PlayerWin {
                            deck: deck.clone(),
                            player_hand: player_hand.clone(),
                            dealer_hand: dealer_hand.finalise(),
                        },
                    )
                } else if dealer_hand.get_hand_value() == player_hand.get_value() {
                    Ok(
                        GameState::Draw {
                            deck: deck.clone(),
                            player_hand: player_hand.clone(),
                            dealer_hand: dealer_hand.finalise(),
                        },
                    )
                } else {
                    Ok(
                        GameState::DealerWin {
                            deck: deck.clone(),
                            player_hand: player_hand.clone(),
                            dealer_hand: dealer_hand.finalise(),
                        },
                    )
                }
            },
            _ => Err(TurnTransitionError::InvalidGameStateForAction),
        }
    }

    /// The value of the player's hand.
    pub fn get_player_value(&self) -> (r: u8)
        requires
            self@.stage == Stage::PlayerTurn ==> high_total(self@.player) <= 255,
        ensures
            r == hand_value(self@.player),
    {
        match self {
            GameState::PlayerTurn { player_hand, .. } => player_hand.get_hand_value(),
            GameState::DealerTurn { player_hand, .. }
            | GameState::PlayerWin { player_hand, .. }
            | GameState::DealerWin { player_hand, .. }
            | GameState::Draw { player_hand, .. } => player_hand.get_value(),
        }
    }

    /// The player's cards in the order they were dealt. Once the player's turn is over, they
    /// are those of a finalised hand, whose totals stay within a byte.
    pub fn get_player_cards(&self) -> (r: Vec<Card>)
        ensures
            r@ == self@.player,
            self@.stage != Stage::PlayerTurn ==> high_total(r@) <= 255,
    {
        match self {
            GameState::PlayerTurn { player_hand, .. } => copy_cards(player_hand.get_cards()),
            GameState::DealerTurn { player_hand, .. }
            | GameState::PlayerWin { player_hand, .. }
            | GameState::DealerWin { player_hand, .. }
            | GameState::Draw { player_hand, .. } => copy_cards(player_hand.get_cards().as_slice()),
        }
    }

    /// The value of the dealer's hand.
    pub fn get_dealer_value(&self) -> (r: u8)
        requires
            self@.stage == Stage::PlayerTurn || self@.stage == Stage::DealerTurn ==> high_total(
                self@.dealer,
            ) <= 255,
        ensures
            r == hand_value(self@.dealer),
    {
        match self {
            GameState::PlayerTurn { dealer_hand, .. }
            | GameState::DealerTurn { dealer_hand, .. } => dealer_hand.get_hand_value(),
            GameState::Draw { dealer_hand, .. }
            | GameState::DealerWin { dealer_hand, .. }
            | GameState::PlayerWin { dealer_hand, .. } => dealer_hand.get_value(),
        }
    }

    /// The dealer's cards in the order they were dealt. Once the game is over, they are those
    /// of a finalised hand, whose totals stay within a byte.
    pub fn get_dealer_cards(&self) -> (r: Vec<Card>)
        ensures
            r@ == self@.dealer,
            self@.stage != Stage::PlayerTurn && self@.stage != Stage::DealerTurn ==> high_total(r@)
                <= 255,
    {
        match self {
            GameState::PlayerTurn { dealer_hand, .. }
            | GameState::DealerTurn { dealer_hand, .. } => copy_cards(dealer_hand.get_cards()),
            GameState::PlayerWin { dealer_hand, .. }
            | GameState::DealerWin { dealer_hand, .. }
            | GameState::Draw { dealer_hand, .. } => copy_cards(dealer_hand.get_cards().as_slice()),
        }
    }

    /// On the player's turn, how many cards of the deck would take the player over 21 if
    /// drawn next, and how many cards the deck holds: the chance of going bust on a hit is the
    /// first divided by the second. On any other turn, nothing.
    pub fn get_player_bust_odds(&self) -> (r: Option<(usize, usize)>)
        requires
            self@.stage == Stage::PlayerTurn ==> forall|i: int|
                0 <= i < self@.deck.len() ==> high_total(#[trigger] self@.player.push(self@.deck[i]))
                    <= 255,
        ensures
            self@.stage == Stage::PlayerTurn ==> r == Some(
                (bust_count(self@.player, self@.deck) as usize, self@.deck.len() as usize),
            ),
            self@.stage != Stage::PlayerTurn ==> r is None,
    {
        match self {
            GameState::PlayerTurn { deck, player_hand, .. } => Some(
                (player_hand.count_bust_cards(deck), deck.get_cards().len()),
            ),
            _ => None,
        }
    }
}

/// A hand of at most two cards totals at most 22 with every ace high.
proof fn lemma_two_cards_fit(cards: Seq<Card>)
    requires
        cards.len() <= 2,
    ensures
        high_total(cards) <= 22,
        low_total(cards) <= 10 * cards.len(),
        cards.len() == 1 ==> hand_value(cards) <= 11,
{
    reveal_with_fuel(low_total, 3);
    reveal_with_fuel(ace_count, 3);
    if cards.len() > 0 {
        let rest = cards.drop_last();
        if rest.len() > 0 {
            assert(rest.drop_last().len() == 0);
        }
    }
}

/// Every card on the table: the deck's, then the player's, then the dealer's.
pub open spec fn all_cards(t: Table) -> Seq<Card> {
    t.deck + t.player + t.dealer
}

/// A table that a game reaches in play: on the player's turn the player is under 21 and the
/// dealer under 17; on the dealer's turn the dealer is under 17.
pub open spec fn playable(t: Table) -> bool {
    match t.stage {
        Stage::PlayerTurn => hand_value(t.player) <= 20 && hand_value(t.dealer) <= 16,
        Stage::DealerTurn => hand_value(t.dealer) <= 16,
        _ => true,
    }
}

/// The high total of a hand grows by the points of the card added, and ten more for an ace.
pub proof fn lemma_high_total_push(cards: Seq<Card>, card: Card)
    ensures
        low_total(cards.push(card)) == low_total(cards) + card.rank.points(),
        high_total(cards.push(card)) == high_total(cards) + card.rank.points() + (if is_ace(card) {
            10int
        } else {
            0int
        }),
{
    assert(cards.push(card).drop_last() =~= cards);
}

/// A hand worth `bound` or less stays within a byte with every ace high, also with one card more.
proof fn lemma_small_hand_fits(cards: Seq<Card>, bound: int)
    requires
        hand_value(cards) <= bound,
        bound <= 20,
    ensures
        high_total(cards) <= 11 * bound,
        forall|card: Card| #[trigger] high_total(cards.push(card)) <= 11 * bound + 11,
{
    lemma_aces_within_low_total(cards);
    assert forall|card: Card| #[trigger] high_total(cards.push(card)) <= 11 * bound + 11 by {
        lemma_high_total_push(cards, card);
    }
}

/// Law: on a table reached in play, every action of the game, and every read of a hand's value
/// or of the chance of going bust, keeps its totals within a byte.
pub proof fn lemma_playable_table_fits(t: Table)
    requires
        playable(t),
    ensures
        hit_fits(t),
        t.stage == Stage::PlayerTurn ==> high_total(t.player) <= 255,
        dealer_fits(t),
        t.stage == Stage::PlayerTurn || t.stage == Stage::DealerTurn ==> high_total(t.dealer) <= 255,
        t.stage == Stage::PlayerTurn ==> forall|i: int|
            0 <= i < t.deck.len() ==> high_total(#[trigger] t.player.push(t.deck[i])) <= 255,
{
    if t.stage == Stage::PlayerTurn {
        lemma_small_hand_fits(t.player, 20);
        lemma_small_hand_fits(t.dealer, 16);
    } else if t.stage == Stage::DealerTurn {
        lemma_small_hand_fits(t.dealer, 16);
    }
}

/// Law: the opening deal and every action that succeeds lead from a table reached in play to
/// another one.
pub proof fn lemma_playable_preserved(t: Table, deck: Seq<Card>)
    ensures
        deck.len() >= 3 ==> playable(deal(deck)),
        playable(t) ==> (hit_result(t) matches Ok(n) ==> playable(n)),
        playable(t) ==> (stand_result(t) matches Ok(n) ==> playable(n)),
        playable(t) ==> (dealer_result(t) matches Ok(n) ==> playable(n)),
{
    if deck.len() >= 3 {
        let n = deck.len() as int;
        lemma_two_cards_fit(seq![deck[n - 1], deck[n - 2]]);
        lemma_two_cards_fit(seq![deck[n - 3]]);
        lemma_aces_within_low_total(seq![deck[n - 1], deck[n - 2]]);
    }
}

/// Law: no card enters or leaves the table. The opening deal lays out exactly the cards of
/// the deck, and each action, whether it succeeds or not, only moves cards from the deck to a
/// hand; so do the states the actions leave behind in place.
pub proof fn lemma_cards_conserved(t: Table, deck: Seq<Card>)
    ensures
        deck.len() >= 3 ==> all_cards(deal(deck)).to_multiset() == deck.to_multiset(),
        hit_result(t) matches Ok(n) ==> all_cards(n).to_multiset() == all_cards(t).to_multiset(),
        all_cards(after_hit(t)).to_multiset() == all_cards(t).to_multiset(),
        stand_result(t) matches Ok(n) ==> all_cards(n).to_multiset() == all_cards(t).to_multiset(),
        dealer_result(t) matches Ok(n) ==> all_cards(n).to_multiset() == all_cards(t).to_multiset(),
        all_cards(after_dealer(t)).to_multiset() == all_cards(t).to_multiset(),
{
    if deck.len() >= 3 {
        let n = deck.len() as int;
        let dealt = deal(deck);
        assert(all_cards(dealt) =~= deck.take(n - 3) + seq![deck[n - 1], deck[n - 2]] + seq![
            deck[n - 3],
        ]);
        assert(deck =~= deck.take(n - 3).push(deck[n - 3]).push(deck[n - 2]).push(deck[n - 1]));
        assert(deck.take(n - 3) + seq![deck[n - 1], deck[n - 2]] + seq![deck[n - 3]]
            =~= deck.take(n - 3).push(deck[n - 1]).push(deck[n - 2]).push(deck[n - 3]));
        assert(all_cards(dealt).to_multiset() =~= deck.to_multiset());
    }
    if hit_error(t) is None {
        let d = t.deck.drop_last();
        let c = t.deck.last();
        assert(t.deck =~= d.push(c));
        assert(all_cards(player_draws(t)) =~= d + t.player.push(c) + t.dealer);
        assert(all_cards(t) =~= d.push(c) + t.player + t.dealer);
        assert(d + t.player.push(c) =~= (d + t.player).push(c));
        assert(d.push(c) + t.player =~= (d + seq![c]) + t.player);
        assert((d + seq![c]) + t.player =~= d + (seq![c] + t.player));
        assert(t.player.push(c) =~= t.player + seq![c]);
        assert(all_cards(player_draws(t)).to_multiset() =~= all_cards(t).to_multiset());
    }
    if dealer_error(t) is None && hand_value(t.dealer) < 17 {
        let d = t.deck.drop_last();
        let c = t.deck.last();
        assert(t.deck =~= d.push(c));
        assert(all_cards(dealer_draws(t)) =~= d + t.player + t.dealer.push(c));
        assert(all_cards(t) =~= d.push(c) + t.player + t.dealer);
        assert(d.push(c) =~= d + seq![c]);
        assert(t.dealer.push(c) =~= t.dealer + seq![c]);
        assert(all_cards(dealer_draws(t)).to_multiset() =~= all_cards(t).to_multiset());
    }
}

/// Law: a game that is over refuses every action.
pub proof fn lemma_finished_game_refuses_moves(t: Table)
    requires
        t.stage == Stage::PlayerWin || t.stage == Stage::DealerWin || t.stage == Stage::Draw,
    ensures
        hit_result(t) == Err::<Table, _>(TurnTransitionError::InvalidGameStateForAction),
        stand_result(t) == Err::<Table, _>(TurnTransitionError::InvalidGameStateForAction),
        dealer_result(t) == Err::<Table, _>(TurnTransitionError::InvalidGameStateForAction),
        after_hit(t) == t,
        after_dealer(t) == t,
{
}

/// Law: a successful hit takes a card from the deck, and a successful move of the dealer
/// either takes one or ends the dealer's turn, so neither turn outlasts the deck. The dealer's
/// turn ends exactly when the dealer reaches 17.
pub proof fn lemma_turns_progress(t: Table)
    ensures
        hit_result(t) matches Ok(n) ==> n.deck.len() == t.deck.len() - 1,
        dealer_result(t) matches Ok(n) ==> (n.stage == Stage::DealerTurn ==> n.deck.len()
            == t.deck.len() - 1),
        dealer_result(t) matches Ok(n) ==> (n.stage != Stage::DealerTurn <==> hand_value(n.dealer)
            >= 17),
{
}

/// The outcome of up to `k` moves of the dealer made one after another: each move is made only
/// while the moves before it succeeded and left it the dealer's turn.
pub open spec fn dealer_moves(t: Table, k: nat) -> Result<Table, TurnTransitionError>
    decreases k,
{
    if k == 0 {
        Ok(t)
    } else {
        match dealer_moves(t, (k - 1) as nat) {
            Ok(n) => if n.stage == Stage::DealerTurn {
                dealer_result(n)
            } else {
                Ok(n)
            },
            Err(e) => Err(e),
        }
    }
}

/// While the dealer's turn goes on, each move has drawn a card, raising the dealer's low total
/// by a point at least, and left the dealer under 17.
proof fn lemma_dealer_moves_draw(t: Table, k: nat)
    requires
        k >= 1,
    ensures
        dealer_moves(t, k) matches Ok(n) ==> (n.stage == Stage::DealerTurn ==> low_total(n.dealer)
            >= low_total(t.dealer) + k && hand_value(n.dealer) < 17),
    decreases k,
{
    if let Ok(m) = dealer_moves(t, (k - 1) as nat) {
        if m.stage == Stage::DealerTurn {
            if k > 1 {
                lemma_dealer_moves_draw(t, (k - 1) as nat);
            }
            if hand_value(m.dealer) < 17 && m.deck.len() > 0 {
                lemma_high_total_push(m.dealer, m.deck.last());
            }
        }
    }
}

/// Law: the dealer's turn ends within 17 moves: after at most 17 moves made one after another,
/// a move has been refused or the game is over.
pub proof fn lemma_dealer_turn_ends(t: Table)
    ensures
        dealer_moves(t, 17) matches Ok(n) ==> n.stage != Stage::DealerTurn,
{
    lemma_dealer_moves_draw(t, 17);
    lemma_aces_within_low_total(t.dealer);
}

/// Law: dealing needs three cards. The player gets the top two cards of the deck and the dealer
/// the next one; the player has won at once exactly when the two cards are worth 21, and
/// otherwise plays on.
pub proof fn lemma_deal_outcome(deck: Seq<Card>)
    ensures
        deal_result(deck) is Ok <==> deck.len() >= 3,
        deal_result(deck) matches Ok(n) ==> (n.player == seq![deck.last(), deck[deck.len() - 2]]
            && n.dealer == seq![deck[deck.len() - 3]] && n.deck == deck.take(deck.len() - 3) && (
        n.stage == Stage::PlayerWin <==> hand_value(n.player) == 21) && (n.stage
            == Stage::PlayerTurn <==> hand_value(n.player) != 21)),
{
}

/// Law: the player may hit on their turn while the deck has a card. A hit moves the top card of
/// the deck to the player's hand and leaves the dealer's hand alone; the player then has lost
/// when the hand is worth more than 21, has won when it is worth exactly 21, and plays on when
/// it is worth less.
pub proof fn lemma_hit_outcome(t: Table)
    ensures
        hit_result(t) is Ok <==> (t.stage == Stage::PlayerTurn && t.deck.len() > 0),
        hit_result(t) matches Ok(n) ==> (n.player == t.player.push(t.deck.last()) && n.deck
            == t.deck.drop_last() && n.dealer == t.dealer && (n.stage == Stage::DealerWin
            <==> hand_value(n.player) > 21) && (n.stage == Stage::PlayerWin <==> hand_value(
            n.player,
        ) == 21) && (n.stage == Stage::PlayerTurn <==> hand_value(n.player) < 21)),
{
}

/// Law: on the dealer's turn the dealer moves unless it must draw from an empty deck. Under 17
/// the dealer takes the top card of the deck, at 17 or more none; the player's hand is left
/// alone. The dealer's turn goes on while the dealer is under 17. Then the player has won when
/// the dealer is over 21 or below the player, the game is drawn when the dealer, at 21 or under,
/// is level with the player, and the dealer has won when, at 21 or under, it is above the player.
pub proof fn lemma_dealer_outcome(t: Table)
    ensures
        dealer_result(t) is Ok <==> (t.stage == Stage::DealerTurn && (hand_value(t.dealer) >= 17
            || t.deck.len() > 0)),
        dealer_result(t) matches Ok(n) ==> (n.player == t.player && n.dealer == (if hand_value(
            t.dealer,
        ) < 17 {
            t.dealer.push(t.deck.last())
        } else {
            t.dealer
        })),
        dealer_result(t) matches Ok(n) ==> (n.stage == Stage::DealerTurn <==> hand_value(n.dealer)
            < 17),
        dealer_result(t) matches Ok(n) ==> (n.stage == Stage::PlayerWin <==> (hand_value(n.dealer)
            >= 17 && (hand_value(n.dealer) > 21 || hand_value(n.dealer) < hand_value(n.player)))),
        dealer_result(t) matches Ok(n) ==> (n.stage == Stage::Draw <==> (17 <= hand_value(n.dealer)
            <= 21 && hand_value(n.dealer) == hand_value(n.player))),
        dealer_result(t) matches Ok(n) ==> (n.stage == Stage::DealerWin <==> (17 <= hand_value(
            n.dealer,
        ) <= 21 && hand_value(n.dealer) > hand_value(n.player))),
{
}

} // verus!
