use crate::game::card::{full_deck, Card};
use crate::game::state::{
    after_dealer, deal, dealer_result, hit_result, lemma_playable_preserved,
    lemma_playable_table_fits, playable, stand_result, GameState, Stage, Table,
    TurnTransitionError,
};
use vstd::prelude::*;

verus! {

/// What the player asks for.
#[derive(Debug, Copy, Clone, PartialEq, Eq, PartialOrd, Ord, Structural)]
pub enum Message {
    NewGame,
    Hit,
    Stand,
    Quit,
}

/// The key that sends the message, as shown on screen.
pub open spec fn key_text(m: Message) -> Seq<char> {
    match m {
        Message::NewGame => "n"@,
        Message::Hit => "<space>"@,
        Message::Stand => "s"@,
        Message::Quit => "q"@,
    }
}

impl Message {
    /// The key that sends the message.
    pub fn get_key(&self) -> (s: &'static str)
        ensures
            s@ == key_text(*self),
    {
        match self {
            Message::NewGame => "n",
            Message::Hit => "<space>",
            Message::Stand => "s",
            Message::Quit => "q",
        }
    }

    /// The name the message goes by on screen.
    pub fn get_display_text(&self) -> (s: &'static str)
        ensures
            s@ == match *self {
                Message::NewGame => "New game"@,
                Message::Hit => "Hit"@,
                Message::Stand => "Stand"@,
                Message::Quit => "Quit"@,
            },
    {
        match self {
            Message::NewGame => "New game",
            Message::Hit => "Hit",
            Message::Stand => "Stand",
            Message::Quit => "Quit",
        }
    }
}

/// A key the player pressed.
#[derive(Debug, Copy, Clone, PartialEq, Eq, Structural)]
pub enum KeyInput {
    Char(char),
    Esc,
    Other,
}

/// The message a key sends, if any.
pub open spec fn key_message(key: KeyInput) -> Option<Message> {
    match key {
        KeyInput::Char(' ') => Some(Message::Hit),
        KeyInput::Char('s') => Some(Message::Stand),
        KeyInput::Char('n') => Some(Message::NewGame),
        KeyInput::Char('q') | KeyInput::Esc => Some(Message::Quit),
        _ => None,
    }
}

/// The messages the player may send at each stage of the game, in the order they are offered.
pub open spec fn applicable_messages(stage: Stage) -> Seq<Message> {
    if stage == Stage::PlayerTurn {
        seq![Message::NewGame, Message::Stand, Message::Hit, Message::Quit]
    } else {
        seq![Message::NewGame, Message::Quit]
    }
}

pub fn handle_key(key: KeyInput) -> (r: Option<Message>)
    ensures
        r == key_message(key),
{
    match key {
        KeyInput::Char(' ') => Some(Message::Hit),
        KeyInput::Char('s') => Some(Message::Stand),
        KeyInput::Char('n') => Some(Message::NewGame),
        KeyInput::Esc | KeyInput::Char('q') => Some(Message::Quit),
        _ => None,
    }
}

pub fn get_applicable_messages(state: &GameState) -> (r: Vec<Message>)
    ensures
        r@ == applicable_messages(state@.stage),
{
    match state {
        GameState::PlayerTurn { .. } => vec![
            Message::NewGame,
            Message::Stand,
            Message::Hit,
            Message::Quit,
        ],
        GameState::DealerTurn { .. }
        | GameState::PlayerWin { .. }
        | GameState::DealerWin { .. }
        | GameState::Draw { .. } => vec![Message::NewGame, Message::Quit],
    }
}

/// The message a key press sends in the given state: the key's message when the state allows
/// it, nothing otherwise.
pub fn message_for_key(state: &GameState, key: KeyInput) -> (r: Option<Message>)
    ensures
        r == (match key_message(key) {
            Some(m) => if applicable_messages(state@.stage).contains(m) {
                Some(m)
            } else {
                None
            },
            None => None,
        }),
{
    match handle_key(key) {
        Some(m) => {
            let applicable = get_applicable_messages(state);
            let mut i: usize = 0;
            while i < applicable.len()
                invariant
                    i <= applicable@.len(),
                    applicable@ == applicable_messages(state@.stage),
                    key_message(key) == Some(m),
                    forall|j: int| 0 <= j < i ==> applicable@[j] != m,
                decreases applicable@.len() - i,
            {
                if applicable[i] == m {
                    assert(applicable@[i as int] == m);
                    return Some(m);
                }
                i = i + 1;
            }
            None
        },
        None => None,
    }
}

/// The table once a message from the player was handled: the new state when the action
/// succeeds, the old one otherwise.
pub open spec fn respond(t: Table, message: Option<Message>) -> Table {
    match message {
        Some(Message::Hit) => match hit_result(t) {
            Ok(n) => n,
            Err(_) => t,
        },
        Some(Message::Stand) => match stand_result(t) {
            Ok(n) => n,
            Err(_) => t,
        },
        _ => t,
    }
}

/// The table once the dealer has made a move, if it is the dealer's turn.
pub open spec fn settle(t: Table) -> Table {
    if t.stage == Stage::DealerTurn {
        match dealer_result(t) {
            Ok(n) => n,
            Err(_) => after_dealer(t),
        }
    } else {
        t
    }
}

/// One round of play: handles the player's message, if any, then lets the dealer make a move
/// when it is the dealer's turn. Returns nothing when the player quits.
pub fn advance(state: GameState, message: Option<Message>) -> (r: Option<GameState>)
    requires
        playable(state@),
    ensures
        r is None <==> message == Some(Message::Quit),
        r matches Some(s) ==> playable(s@),
        message != Some(Message::NewGame) && message != Some(Message::Quit) ==> (r matches Some(s)
            && s@ == settle(respond(state@, message))),
        message == Some(Message::NewGame) ==> (r matches Some(s) && exists|d: Seq<Card>|
            d.to_multiset() == full_deck().to_multiset() && d.len() == 52 && s@ == deal(d)),
{
    let mut state = state;
    proof {
        lemma_playable_table_fits(state@);
        lemma_playable_preserved(state@, Seq::empty());
    }
    if let Some(message) = message {
        let maybe_new_state = match message {
            Message::Quit => {
                return None;
            },
            Message::NewGame => Ok(GameState::start()),
            Message::Hit => state.player_hit(),
            Message::Stand => state.player_stand(),
        };
        if let Ok(new_state) = maybe_new_state {
            state = new_state;
        }
    }
    proof {
        lemma_playable_table_fits(state@);
        lemma_playable_preserved(state@, Seq::empty());
    }
    if let GameState::DealerTurn { .. } = state {
        if let Ok(new_state) = state.execute_dealer_turn() {
            state = new_state;
        }
    }
    Some(state)
}

/// Law: the player is offered a new game and quitting at every stage, and offered to hit and
/// to stand together, exactly when the game accepts those actions.
pub proof fn lemma_offered_messages_match_actions(t: Table)
    ensures
        applicable_messages(t.stage).contains(Message::NewGame),
        applicable_messages(t.stage).contains(Message::Quit),
        applicable_messages(t.stage).contains(Message::Hit) <==> applicable_messages(
            t.stage,
        ).contains(Message::Stand),
        applicable_messages(t.stage).contains(Message::Stand) <==> stand_result(t) is Ok,
        applicable_messages(t.stage).contains(Message::Hit) <==> hit_result(t) != Err::<Table, _>(
            TurnTransitionError::InvalidGameStateForAction,
        ),
{
    let offered = applicable_messages(t.stage);
    assert(offered[0] == Message::NewGame);
    if t.stage == Stage::PlayerTurn {
        assert(offered[1] == Message::Stand);
        assert(offered[2] == Message::Hit);
        assert(offered[3] == Message::Quit);
    } else {
        assert(offered[1] == Message::Quit);
        assert(!offered.contains(Message::Hit)) by {
            if offered.contains(Message::Hit) {
                let i = choose|i: int| 0 <= i < offered.len() && offered[i] == Message::Hit;
                assert(i == 0 || i == 1);
            }
        }
        assert(!offered.contains(Message::Stand)) by {
            if offered.contains(Message::Stand) {
                let i = choose|i: int| 0 <= i < offered.len() && offered[i] == Message::Stand;
                assert(i == 0 || i == 1);
            }
        }
    }
}

/// The table after one move of the dealer, or as it was when the move is refused.
pub open spec fn dealer_moved(t: Table) -> Table {
    match dealer_result(t) {
        Ok(n) => n,
        Err(_) => t,
    }
}

/// Law: a round lets the dealer move whenever it is the dealer's turn, whether or not the
/// player sent a message. On the dealer's turn a round without a message is exactly one move of
/// the dealer; on any other turn it changes nothing; a stand on the player's turn is followed in
/// the same round by the dealer's first move.
pub proof fn lemma_round_moves_dealer(t: Table)
    ensures
        t.stage == Stage::DealerTurn ==> settle(respond(t, None)) == dealer_moved(t),
        t.stage != Stage::DealerTurn ==> settle(respond(t, None)) == t,
        t.stage == Stage::PlayerTurn ==> settle(respond(t, Some(Message::Stand))) == dealer_moved(
            (Table { stage: Stage::DealerTurn, ..t }),
        ),
        forall|m: Option<Message>|
            respond(t, m).stage == Stage::DealerTurn ==> #[trigger] settle(respond(t, m))
                == dealer_moved(respond(t, m)),
{
    assert forall|m: Option<Message>|
        respond(t, m).stage == Stage::DealerTurn implies #[trigger] settle(respond(t, m))
        == dealer_moved(respond(t, m)) by {
        let x = respond(t, m);
        if dealer_result(x) is Err {
            assert(after_dealer(x) == x);
        }
    }
    if t.stage == Stage::DealerTurn && dealer_result(t) is Err {
        assert(after_dealer(t) == t);
    }
    let stood = Table { stage: Stage::DealerTurn, ..t };
    if t.stage == Stage::PlayerTurn && dealer_result(stood) is Err {
        assert(after_dealer(stood) == stood);
    }
}

/// Law: each message is sent by the key shown for it: a one-letter key by that letter, the
/// space bar for the key shown as `<space>`; Escape quits too, and no two messages share a key.
pub proof fn lemma_shown_keys_send_their_messages(m: Message, c: char)
    ensures
        key_text(m) == seq![c] ==> key_message(KeyInput::Char(c)) == Some(m),
        key_text(m) == "<space>"@ ==> key_message(KeyInput::Char(' ')) == Some(m),
        key_message(KeyInput::Esc) == Some(Message::Quit),
        key_message(KeyInput::Char(c)) == Some(m) ==> (key_text(m) == seq![c] || (c == ' '
            && key_text(m) == "<space>"@)),
{
    reveal_strlit("n");
    reveal_strlit("s");
    reveal_strlit("q");
    reveal_strlit("<space>");
    if key_text(m) == seq![c] {
        assert(key_text(m)[0] == c);
    }
    if key_text(m) == "<space>"@ {
        assert(key_text(m).len() == 7);
    }
}

} // verus!
