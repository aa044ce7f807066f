use rand::rngs::ThreadRng;
use rand::seq::SliceRandom;
use vstd::prelude::*;

verus! {

#[derive(Debug, Clone, Copy, PartialEq, Eq, Structural)]
pub enum Suit {
    Hearts,
    Diamonds,
    Clubs,
    Spades,
}

/// The symbol that shows the suit on screen.
pub open spec fn suit_text(suit: Suit) -> Seq<char> {
    match suit {
        Suit::Hearts => "♥️"@,
        Suit::Diamonds => "♦️"@,
        Suit::Clubs => "♣️"@,
        Suit::Spades => "♠️"@,
    }
}

impl Suit {
    /// The symbol that shows the suit on screen.
    pub fn to_string(&self) -> (s: String)
        ensures
            s@ == suit_text(*self),
    {
        let symbol = match self {
            Suit::Hearts => "♥️",
            Suit::Diamonds => "♦️",
            Suit::Clubs => "♣️",
            Suit::Spades => "♠️",
        };
        symbol.to_owned()
    }
}

#[derive(Debug, Clone, Copy, PartialEq, Eq, Structural)]
pub enum Rank {
    Ace,
    Two,
    Three,
    Four,
    Five,
    Six,
    Seven,
    Eight,
    Nine,
    Ten,
    Jack,
    Queen,
    King,
}

impl Rank {
    /// Points the rank is worth when an ace counts as one.
    pub open spec fn points(self) -> int {
        match self {
            Rank::Ace => 1,
            Rank::Two => 2,
            Rank::Three => 3,
            Rank::Four => 4,
            Rank::Five => 5,
            Rank::Six => 6,
            Rank::Seven => 7,
            Rank::Eight => 8,
            Rank::Nine => 9,
            _ => 10,
        }
    }

    /// The rank's value, and the alternative value an ace may take instead.
    pub fn get_value(self) -> (r: (u8, Option<u8>))
        ensures
            r.0 == self.points(),
            r.1 == (if self == Rank::Ace { Some(11u8) } else { None::<u8> }),
    {
        match self {
            Rank::Ace => (1, Some(11)),
            Rank::Two => (2, None),
            Rank::Three => (3, None),
            Rank::Four => (4, None),
            Rank::Five => (5, None),
            Rank::Six => (6, None),
            Rank::Seven => (7, None),
            Rank::Eight => (8, None),
            Rank::Nine => (9, None),
            Rank::Ten => (10, None),
            Rank::Jack => (10, None),
            Rank::Queen => (10, None),
            Rank::King => (10, None),
        }
    }

    /// The symbol that shows the rank on screen.
    pub fn to_string(&self) -> (s: String)
        ensures
            s@ == rank_text(*self),
    {
        let symbol = match self {
            Rank::Ace => "A",
            Rank::Two => "2",
            Rank::Three => "3",
            Rank::Four => "4",
            Rank::Five => "5",
            Rank::Six => "6",
            Rank::Seven => "7",
            Rank::Eight => "8",
            Rank::Nine => "9",
            Rank::Ten => "10",
            Rank::Jack => "J",
            Rank::Queen => "Q",
            Rank::King => "K",
        };
        symbol.to_owned()
    }
}

/// The symbol that shows the rank on screen.
pub open spec fn rank_text(rank: Rank) -> Seq<char> {
    match rank {
        Rank::Ace => "A"@,
        Rank::Two => "2"@,
        Rank::Three => "3"@,
        Rank::Four => "4"@,
        Rank::Five => "5"@,
        Rank::Six => "6"@,
        Rank::Seven => "7"@,
        Rank::Eight => "8"@,
        Rank::Nine => "9"@,
        Rank::Ten => "10"@,
        Rank::Jack => "J"@,
        Rank::Queen => "Q"@,
        Rank::King => "K"@,
    }
}

#[derive(Debug, Clone, Copy, PartialEq, Eq, Structural)]
pub struct Card {
    pub suit: Suit,
    pub rank: Rank,
}

impl Card {
    pub fn get_value(&self) -> (r: (u8, Option<u8>))
        ensures
            r.0 == self.rank.points(),
            r.1 == (if self.rank == Rank::Ace { Some(11u8) } else { None::<u8> }),
    {
        self.rank.get_value()
    }

    /// The card as shown on screen: its suit's symbol, then its rank's.
    pub fn to_string(&self) -> (s: String)
        ensures
            s@ == suit_text(self.suit) + rank_text(self.rank),
    {
        let mut text = self.suit.to_string();
        text.append(self.rank.to_string().as_str());
        text
    }
}


/// Whether the card is an ace, which may count as one or as eleven.
pub open spec fn is_ace(c: Card) -> bool {
    c.rank == Rank::Ace
}

/// The total of the cards when every ace counts as one.
pub open spec fn low_total(cards: Seq<Card>) -> int
    decreases cards.len(),
{
    if cards.len() == 0 {
        0
    } else {
        low_total(cards.drop_last()) + cards.last().rank.points()
    }
}

/// How many aces the cards hold.
pub open spec fn ace_count(cards: Seq<Card>) -> int
    decreases cards.len(),
{
    if cards.len() == 0 {
        0
    } else {
        ace_count(cards.drop_last()) + (if is_ace(cards.last()) { 1int } else { 0int })
    }
}

/// The total of the cards when every ace counts as eleven: the largest total they can make.
pub open spec fn high_total(cards: Seq<Card>) -> int {
    low_total(cards) + 10 * ace_count(cards)
}

/// A total that the cards make when some of their aces count as eleven and the others as
/// one: each ace counted as eleven adds ten to the low total.
pub open spec fn is_achievable_total(cards: Seq<Card>, total: int) -> bool {
    &&& low_total(cards) <= total <= high_total(cards)
    &&& (total - low_total(cards)) % 10 == 0
}

/// The value of a hand: one ace counts as eleven when that keeps the total at 21 or under,
/// every other ace counts as one.
pub open spec fn hand_value(cards: Seq<Card>) -> int {
    if ace_count(cards) > 0 && low_total(cards) + 10 <= 21 {
        low_total(cards) + 10
    } else {
        low_total(cards)
    }
}

/// The 52 cards of a fresh deck, suit by suit (hearts, diamonds, clubs, spades),
/// each suit from the ace to the king.
pub open spec fn full_deck() -> Seq<Card> {
    Seq::new(52, |i: int| Card { suit: suit_at(i / 13), rank: rank_at(i % 13) })
}

pub open spec fn suit_at(i: int) -> Suit {
    if i == 0 {
        Suit::Hearts
    } else if i == 1 {
        Suit::Diamonds
    } else if i == 2 {
        Suit::Clubs
    } else {
        Suit::Spades
    }
}

pub open spec fn rank_at(i: int) -> Rank {
    if i == 0 {
        Rank::Ace
    } else if i == 1 {
        Rank::Two
    } else if i == 2 {
        Rank::Three
    } else if i == 3 {
        Rank::Four
    } else if i == 4 {
        Rank::Five
    } else if i == 5 {
        Rank::Six
    } else if i == 6 {
        Rank::Seven
    } else if i == 7 {
        Rank::Eight
    } else if i == 8 {
        Rank::Nine
    } else if i == 9 {
        Rank::Ten
    } else if i == 10 {
        Rank::Jack
    } else if i == 11 {
        Rank::Queen
    } else {
        Rank::King
    }
}

/// Law: a fresh deck holds 52 cards, no two of them alike.
pub proof fn lemma_full_deck_distinct()
    ensures
        full_deck().len() == 52,
        full_deck().no_duplicates(),
{
    assert forall|i: int, j: int| 0 <= i < 52 && 0 <= j < 52 && i != j implies full_deck()[i]
        != full_deck()[j] by {
        if full_deck()[i] == full_deck()[j] {
            assert(0 <= i / 13 < 4 && 0 <= j / 13 < 4);
            assert(i / 13 == j / 13);
            assert(i % 13 == j % 13);
            assert(i == 13 * (i / 13) + i % 13);
            assert(j == 13 * (j / 13) + j % 13);
        }
    }
}

/// Rearranges `cards` with `rand`'s `SliceRandom::shuffle`, driven by the thread-local
/// generator `ThreadRng`. The crate's source shows a Fisher-Yates pass that only swaps
/// elements, so the result holds the same cards as before, each as often. Which
/// arrangement comes out depends on the generator and is left unsaid.
#[verifier::external_body]
fn shuffle_cards(cards: &mut Vec<Card>)
    ensures
        final(cards)@.len() == old(cards)@.len(),
        final(cards)@.to_multiset() == old(cards)@.to_multiset(),
{
    cards.shuffle(&mut ThreadRng::default());
}

/// Copies a sequence of cards into a new vector.
pub(crate) fn copy_cards(cards: &[Card]) -> (r: Vec<Card>)
    ensures
        r@ == cards@,
{
    let mut r: Vec<Card> = Vec::new();
    let mut i: usize = 0;
    while i < cards.len()
        invariant
            i <= cards@.len(),
            r@ == cards@.take(i as int),
        decreases cards@.len() - i,
    {
        r.push(cards[i]);
        i = i + 1;
        assert(r@ =~= cards@.take(i as int));
    }
    assert(r@ =~= cards@);
    r
}

#[derive(Debug)]
pub struct Deck {
    cards: Vec<Card>,
}

impl View for Deck {
    type V = Seq<Card>;

    /// The cards of the deck, bottom first: the last one is drawn next.
    closed spec fn view(&self) -> Seq<Card> {
        self.cards@
    }
}

impl Clone for Deck {
    fn clone(&self) -> (r: Self)
        ensures
            r@ == self@,
    {
        Deck { cards: copy_cards(self.cards.as_slice()) }
    }
}

impl Default for Deck {
    /// A fresh deck of 52 cards in order.
    fn default() -> (d: Self)
        ensures
            d@ == full_deck(),
    {
        let suits = [Suit::Hearts, Suit::Diamonds, Suit::Clubs, Suit::Spades];
        let ranks = [
            Rank::Ace,
            Rank::Two,
            Rank::Three,
            Rank::Four,
            Rank::Five,
            Rank::Six,
            Rank::Seven,
            Rank::Eight,
            Rank::Nine,
            Rank::Ten,
            Rank::Jack,
            Rank::Queen,
            Rank::King,
        ];
        let mut cards: Vec<Card> = Vec::new();
        let mut s: usize = 0;
        while s < 4
            invariant
                s <= 4,
                suits@ == seq![Suit::Hearts, Suit::Diamonds, Suit::Clubs, Suit::Spades],
                forall|k: int| 0 <= k < 13 ==> #[trigger] ranks@[k] == rank_at(k),
                ranks@.len() == 13,
                cards@ =~= full_deck().take(13 * s),
            decreases 4 - s,
        {
            let mut r: usize = 0;
            while r < 13
                invariant
                    s < 4,
                    r <= 13,
                    suits@ == seq![Suit::Hearts, Suit::Diamonds, Suit::Clubs, Suit::Spades],
                    forall|k: int| 0 <= k < 13 ==> #[trigger] ranks@[k] == rank_at(k),
                    ranks@.len() == 13,
                    cards@ =~= full_deck().take(13 * s + r),
                decreases 13 - r,
            {
                let card = Card { suit: suits[s], rank: ranks[r] };
                let ghost k: int = 13 * s + r;
                assert(k / 13 == s && k % 13 == r);
                assert(card == full_deck()[k]);
                cards.push(card);
                r = r + 1;
                assert(cards@ =~= full_deck().take(13 * s + r));
            }
            s = s + 1;
        }
        assert(cards@ =~= full_deck());
        Deck { cards }
    }
}

impl Deck {
    /// A deck holding the given cards; the last one is drawn first.
    pub fn from_cards(cards: Vec<Card>) -> (d: Deck)
        ensures
            d@ == cards@,
    {
        Deck { cards }
    }

    /// The cards left in the deck; the last one is drawn next.
    pub fn get_cards(&self) -> (r: &[Card])
        ensures
            r@ == self@,
    {
        self.cards.as_slice()
    }

    /// Puts the deck in a random order, keeping the same cards.
    pub fn shuffle(&mut self)
        ensures
            final(self)@.len() == old(self)@.len(),
            final(self)@.to_multiset() == old(self)@.to_multiset(),
    {
        shuffle_cards(&mut self.cards);
    }

    /// Takes the top card off the deck, if there is one.
    pub fn draw_card(&mut self) -> (r: Option<Card>)
        ensures
            old(self)@.len() == 0 ==> r.is_none() && final(self)@ == old(self)@,
            old(self)@.len() > 0 ==> r == Some(old(self)@.last()) && final(self)@
                == old(self)@.drop_last(),
    {
        self.cards.pop()
    }
}

/// Every total the cards make, one for each way of counting each ace as one or as eleven,
/// in the order in which the choices are enumerated card by card: the choices that count
/// the newest ace as one come before those that count it as eleven.
pub open spec fn all_totals(cards: Seq<Card>) -> Seq<int>
    decreases cards.len(),
{
    if cards.len() == 0 {
        seq![0int]
    } else {
        let before = all_totals(cards.drop_last());
        let c = cards.last();
        if is_ace(c) {
            before.map_values(|t: int| t + 1) + before.map_values(|t: int| t + 11)
        } else {
            before.map_values(|t: int| t + c.rank.points())
        }
    }
}

pub open spec fn as_ints(s: Seq<u8>) -> Seq<int> {
    s.map_values(|t: u8| t as int)
}

/// An ace counts one point at least, so no hand holds more aces than points.
pub proof fn lemma_aces_within_low_total(cards: Seq<Card>)
    ensures
        0 <= ace_count(cards) <= low_total(cards),
        cards.len() <= low_total(cards),
    decreases cards.len(),
{
    if cards.len() > 0 {
        lemma_aces_within_low_total(cards.drop_last());
    }
}

/// The high total of the first cards of a hand is no more than that of the whole hand.
pub proof fn lemma_high_total_prefix(cards: Seq<Card>, i: int)
    requires
        0 <= i <= cards.len(),
    ensures
        high_total(cards.take(i)) <= high_total(cards),
        low_total(cards.take(i)) <= low_total(cards),
    decreases cards.len(),
{
    if i == cards.len() {
        assert(cards.take(i) =~= cards);
    } else {
        lemma_high_total_prefix(cards.drop_last(), i);
        assert(cards.drop_last().take(i) =~= cards.take(i));
    }
}

/// Law: the value of a hand is a total that its aces allow. When some allowed total is 21 or
/// under, the value is the largest such total; otherwise it is the smallest allowed total.
pub proof fn lemma_hand_value_is_best_total(cards: Seq<Card>)
    ensures
        is_achievable_total(cards, hand_value(cards)),
        forall|t: int|
            is_achievable_total(cards, t) && t <= 21 ==> hand_value(cards) <= 21 && t <= hand_value(
                cards,
            ),
        forall|t: int| is_achievable_total(cards, t) && hand_value(cards) > 21 ==> hand_value(cards) <= t,
{
    lemma_aces_within_low_total(cards);
    let low = low_total(cards);
    assert forall|t: int| is_achievable_total(cards, t) && t <= 21 implies hand_value(cards) <= 21
        && t <= hand_value(cards) by {
        if t != low && t != low + 10 {
            assert(t >= low + 20);
            assert(ace_count(cards) >= 2);
        }
    }
}

/// Taking one card out of a hand lowers its low total by that card's points and its count
/// of aces by one if the card is an ace.
pub proof fn lemma_totals_without(cards: Seq<Card>, i: int)
    requires
        0 <= i < cards.len(),
    ensures
        low_total(cards) == low_total(cards.remove(i)) + cards[i].rank.points(),
        ace_count(cards) == ace_count(cards.remove(i)) + (if is_ace(cards[i]) {
            1int
        } else {
            0int
        }),
    decreases cards.len(),
{
    if i == cards.len() - 1 {
        assert(cards.remove(i) =~= cards.drop_last());
    } else {
        let rest = cards.remove(i);
        assert(rest.drop_last() =~= cards.drop_last().remove(i));
        assert(rest.last() == cards.last());
        lemma_totals_without(cards.drop_last(), i);
    }
}

/// Law: the value of a hand does not depend on the order in which its cards were dealt:
/// hands holding the same cards, each as often, have the same totals and the same value.
pub proof fn lemma_hand_value_order_free(a: Seq<Card>, b: Seq<Card>)
    requires
        a.to_multiset() == b.to_multiset(),
    ensures
        low_total(a) == low_total(b),
        ace_count(a) == ace_count(b),
        high_total(a) == high_total(b),
        hand_value(a) == hand_value(b),
    decreases a.len(),
{
    broadcast use vstd::seq_lib::group_to_multiset_ensures;

    assert(a.to_multiset().len() == a.len() && b.to_multiset().len() == b.len());
    if a.len() == 0 {
        assert(b.len() == 0);
        assert(a =~= b);
    } else {
        let x = a.last();
        let n = a.len() - 1;
        assert(a.to_multiset().count(x) > 0) by {
            assert(a.contains(a[n]));
        }
        assert(b.contains(x));
        let i = choose|i: int| 0 <= i < b.len() && b[i] == x;
        assert(a.remove(n) =~= a.drop_last());
        assert(a.drop_last().to_multiset() =~= a.to_multiset().remove(x));
        assert(b.remove(i).to_multiset() =~= b.to_multiset().remove(x));
        lemma_hand_value_order_free(a.drop_last(), b.remove(i));
        lemma_totals_without(a, n);
        lemma_totals_without(b, i);
    }
}

/// How many of the deck's cards would take the hand over 21 if dealt to it next.
pub open spec fn bust_count(hand: Seq<Card>, deck: Seq<Card>) -> nat
    decreases deck.len(),
{
    if deck.len() == 0 {
        0
    } else {
        bust_count(hand, deck.drop_last()) + (if hand_value(hand.push(deck.last())) > 21 {
            1nat
        } else {
            0nat
        })
    }
}

/// The cards of the deck that would take the hand over 21 if dealt to it next.
pub open spec fn busting_cards(hand: Seq<Card>, deck: Seq<Card>) -> Seq<Card> {
    deck.filter(|c: Card| hand_value(hand.push(c)) > 21)
}

/// Law: the bust count counts exactly the cards of the deck that, added to the hand, make a
/// hand worth more than 21; every other card, however many points it adds to the hand's
/// present value, is not counted.
pub proof fn lemma_bust_count_counts_busting_cards(hand: Seq<Card>, deck: Seq<Card>)
    ensures
        bust_count(hand, deck) == busting_cards(hand, deck).len(),
        forall|c: Card| busting_cards(hand, deck).contains(c) ==> hand_value(hand.push(c)) > 21,
        forall|c: Card|
            deck.contains(c) && hand_value(hand.push(c)) > 21 ==> busting_cards(hand, deck).contains(c),
    decreases deck.len(),
{
    reveal(Seq::filter);
    let pred = |c: Card| hand_value(hand.push(c)) > 21;
    if deck.len() > 0 {
        lemma_bust_count_counts_busting_cards(hand, deck.drop_last());
    }
    assert forall|c: Card| busting_cards(hand, deck).contains(c) implies hand_value(hand.push(c))
        > 21 by {
        let i = choose|i: int|
            0 <= i < busting_cards(hand, deck).len() && busting_cards(hand, deck)[i] == c;
        deck.lemma_filter_pred(pred, i);
    }
    assert forall|c: Card| deck.contains(c) && hand_value(hand.push(c)) > 21 implies busting_cards(
        hand,
        deck,
    ).contains(c) by {
        let i = choose|i: int| 0 <= i < deck.len() && deck[i] == c;
        deck.lemma_filter_contains(pred, i);
    }
}

/// Each enumerated total is achievable, the first is the low total, and where there is an
/// ace the low total plus ten is among them.
proof fn lemma_all_totals(cards: Seq<Card>)
    ensures
        all_totals(cards).len() >= 1,
        all_totals(cards)[0] == low_total(cards),
        forall|k: int|
            0 <= k < all_totals(cards).len() ==> is_achievable_total(cards, #[trigger] all_totals(cards)[k]),
        ace_count(cards) > 0 ==> all_totals(cards).contains(low_total(cards) + 10),
    decreases cards.len(),
{
    if cards.len() > 0 {
        let rest = cards.drop_last();
        lemma_all_totals(rest);
        lemma_aces_within_low_total(rest);
        let before = all_totals(rest);
        let c = cards.last();
        if is_ace(c) {
            let lows = before.map_values(|t: int| t + 1);
            let highs = before.map_values(|t: int| t + 11);
            assert(all_totals(cards) == lows + highs);
            assert forall|k: int| 0 <= k < all_totals(cards).len() implies is_achievable_total(
                cards,
                #[trigger] all_totals(cards)[k],
            ) by {
                if k < lows.len() {
                    assert(is_achievable_total(rest, before[k]));
                } else {
                    assert(is_achievable_total(rest, before[k - lows.len()]));
                }
            }
            assert(all_totals(cards)[lows.len() as int] == low_total(cards) + 10);
        } else {
            let v = c.rank.points();
            assert forall|k: int| 0 <= k < all_totals(cards).len() implies is_achievable_total(
                cards,
                #[trigger] all_totals(cards)[k],
            ) by {
                assert(is_achievable_total(rest, before[k]));
            }
            if ace_count(cards) > 0 {
                let k = choose|k: int| 0 <= k < before.len() && before[k] == low_total(rest) + 10;
                assert(all_totals(cards)[k] == low_total(cards) + 10);
            }
        }
    }
}

/// Appends to `out` each of `totals` raised by `add`.
fn append_raised(totals: &Vec<u8>, add: u8, out: &mut Vec<u8>)
    requires
        forall|k: int| 0 <= k < totals@.len() ==> totals@[k] + add <= 255,
    ensures
        as_ints(final(out)@) == as_ints(old(out)@) + as_ints(totals@).map_values(|t: int| t + add),
{
    let ghost start = out@;
    let mut k: usize = 0;
    while k < totals.len()
        invariant
            k <= totals@.len(),
            forall|j: int| 0 <= j < totals@.len() ==> totals@[j] + add <= 255,
            as_ints(out@) =~= as_ints(start) + as_ints(totals@.take(k as int)).map_values(
                |t: int| t + add,
            ),
        decreases totals@.len() - k,
    {
        let ghost prev = out@;
        let raised = totals[k] + add;
        out.push(raised);
        assert(as_ints(out@) =~= as_ints(prev).push(raised as int));
        assert(totals@.take(k + 1) =~= totals@.take(k as int).push(totals@[k as int]));
        assert(as_ints(totals@.take(k + 1)).map_values(|t: int| t + add) =~= as_ints(
            totals@.take(k as int),
        ).map_values(|t: int| t + add).push(raised as int));
        k = k + 1;
        assert(as_ints(out@) =~= as_ints(start) + as_ints(totals@.take(k as int)).map_values(
            |t: int| t + add,
        ));
    }
    assert(totals@.take(k as int) =~= totals@);
}

#[derive(Debug)]
pub struct Hand {
    cards: Vec<Card>,
}

impl View for Hand {
    type V = Seq<Card>;

    /// The cards of the hand in the order they were dealt.
    closed spec fn view(&self) -> Seq<Card> {
        self.cards@
    }
}

impl Clone for Hand {
    fn clone(&self) -> (r: Self)
        ensures
            r@ == self@,
    {
        Hand { cards: copy_cards(self.cards.as_slice()) }
    }
}

impl Default for Hand {
    /// An empty hand.
    fn default() -> (h: Self)
        ensures
            h@ == Seq::<Card>::empty(),
    {
        Hand { cards: Vec::new() }
    }
}

impl Hand {
    pub fn add_card(&mut self, card: Card)
        ensures
            final(self)@ == old(self)@.push(card),
    {
        self.cards.push(card);
    }

    pub fn get_cards(&self) -> (r: &[Card])
        ensures
            r@ == self@,
    {
        self.cards.as_slice()
    }

    /// The total of every way of counting the aces, as `all_totals` enumerates them.
    fn get_all_possible_hand_values(&self) -> (r: Vec<u8>)
        requires
            high_total(self@) <= 255,
        ensures
            as_ints(r@) == all_totals(self@),
    {
        let mut totals: Vec<u8> = vec![0u8];
        assert(as_ints(totals@) =~= all_totals(self@.take(0)));
        let mut i: usize = 0;
        while i < self.cards.len()
            invariant
                i <= self@.len(),
                self@ == self.cards@,
                high_total(self@) <= 255,
                as_ints(totals@) == all_totals(self@.take(i as int)),
            decreases self@.len() - i,
        {
            let ghost prefix = self@.take(i as int);
            let ghost next = self@.take(i + 1);
            proof {
                assert(next.drop_last() =~= prefix);
                lemma_all_totals(prefix);
                lemma_high_total_prefix(self@, i + 1);
                lemma_aces_within_low_total(prefix);
            }
            let card = self.cards[i];
            let (value, alt_value) = card.get_value();
            let mut raised: Vec<u8> = Vec::new();
            assert forall|k: int| 0 <= k < totals@.len() implies totals@[k] + value <= 255 by {
                assert(as_ints(totals@)[k] == totals@[k] as int);
                assert(is_achievable_total(prefix, all_totals(prefix)[k]));
            }
            append_raised(&totals, value, &mut raised);
            if let Some(alt) = alt_value {
                assert forall|k: int| 0 <= k < totals@.len() implies totals@[k] + alt <= 255 by {
                    assert(as_ints(totals@)[k] == totals@[k] as int);
                    assert(is_achievable_total(prefix, all_totals(prefix)[k]));
                }
                append_raised(&totals, alt, &mut raised);
                assert(as_ints(Seq::<u8>::empty()) =~= Seq::<int>::empty());
            } else {
                assert(as_ints(Seq::<u8>::empty()) =~= Seq::<int>::empty());
            }
            totals = raised;
            i = i + 1;
            assert(as_ints(totals@) =~= all_totals(next));
        }
        assert(self@.take(i as int) =~= self@);
        totals
    }

    /// The value of the hand: the largest total not over 21 that the aces allow, or, when
    /// every total is over 21, the smallest.
    pub fn get_hand_value(&self) -> (r: u8)
        requires
            high_total(self@) <= 255,
        ensures
            r == hand_value(self@),
    {
        let all_possible_hand_values = self.get_all_possible_hand_values();
        let ghost v = all_totals(self@);
        proof {
            lemma_all_totals(self@);
            lemma_aces_within_low_total(self@);
        }
        let mut found = false;
        let mut best: u8 = 0;
        let mut lowest: u8 = all_possible_hand_values[0];
        assert(v[0] == all_possible_hand_values@[0]);
        let mut k: usize = 0;
        while k < all_possible_hand_values.len()
            invariant
                k <= v.len(),
                as_ints(all_possible_hand_values@) == v,
                v.len() == all_possible_hand_values@.len(),
                found ==> best <= 21 && v.contains(best as int),
                forall|j: int| 0 <= j < k && v[j] <= 21 ==> found && v[j] <= best,
                v.contains(lowest as int),
                forall|j: int| 0 <= j < k ==> lowest <= v[j],
            decreases v.len() - k,
        {
            let t = all_possible_hand_values[k];
            assert(v[k as int] == t);
            if t <= 21 && (!found || t > best) {
                found = true;
                best = t;
            }
            if t < lowest {
                lowest = t;
            }
            k = k + 1;
        }
        proof {
            let low = low_total(self@);
            if found {
                let jb = choose|j: int| 0 <= j < v.len() && v[j] == best as int;
                assert(is_achievable_total(self@, v[jb]));
                if ace_count(self@) > 0 && low + 10 <= 21 {
                    let j10 = choose|j: int| 0 <= j < v.len() && v[j] == low + 10;
                    assert(v[j10] <= best);
                }
            } else {
                let jl = choose|j: int| 0 <= j < v.len() && v[j] == lowest as int;
                assert(is_achievable_total(self@, v[jl]));
                assert(lowest <= v[0]);
                if ace_count(self@) > 0 && low + 10 <= 21 {
                    let j10 = choose|j: int| 0 <= j < v.len() && v[j] == low + 10;
                    assert(v[j10] <= 21);
                }
            }
        }
        if found {
            best
        } else {
            lowest
        }
    }

    pub fn is_bust(&self) -> (r: bool)
        requires
            high_total(self@) <= 255,
        ensures
            r == (hand_value(self@) > 21),
    {
        self.get_hand_value() > 21
    }

    pub fn is_blackjack(&self) -> (r: bool)
        requires
            high_total(self@) <= 255,
        ensures
            r == (hand_value(self@) == 21),
    {
        self.get_hand_value() == 21
    }

    /// How many of the deck's cards would bust this hand if it were dealt next; divided by
    /// the size of the deck, the chance of going bust on the next card.
    pub fn count_bust_cards(&self, deck: &Deck) -> (r: usize)
        requires
            forall|i: int| 0 <= i < deck@.len() ==> high_total(#[trigger] self@.push(deck@[i])) <= 255,
        ensures
            r == bust_count(self@, deck@),
    {
        let cards = deck.get_cards();
        let mut count: usize = 0;
        let mut i: usize = 0;
        while i < cards.len()
            invariant
                i <= cards@.len(),
                cards@ == deck@,
                forall|j: int| 0 <= j < deck@.len() ==> high_total(#[trigger] self@.push(deck@[j])) <= 255,
                count == bust_count(self@, deck@.take(i as int)),
                count <= i,
            decreases cards@.len() - i,
        {
            let mut hand_clone = self.clone();
            hand_clone.add_card(cards[i]);
            assert(deck@.take(i + 1).drop_last() =~= deck@.take(i as int));
            assert(high_total(self@.push(deck@[i as int])) <= 255);
            if hand_clone.is_bust() {
                count = count + 1;
            }
            i = i + 1;
        }
        assert(deck@.take(i as int) =~= deck@);
        count
    }

    pub fn finalise(&self) -> (r: FinalisedHand)
        requires
            high_total(self@) <= 255,
        ensures
            r@ == self@,
    {
        let value = self.get_hand_value();
        FinalisedHand { cards: copy_cards(self.cards.as_slice()), value }
    }
}

/// A hand that takes no more cards, with its value fixed.
#[derive(Debug, PartialEq, Eq)]
pub struct FinalisedHand {
    cards: Vec<Card>,
    value: u8,
}

impl View for FinalisedHand {
    type V = Seq<Card>;

    closed spec fn view(&self) -> Seq<Card> {
        self.cards@
    }
}

impl Clone for FinalisedHand {
    fn clone(&self) -> (r: Self)
        ensures
            r@ == self@,
    {
        proof {
            use_type_invariant(self);
        }
        FinalisedHand { cards: copy_cards(self.cards.as_slice()), value: self.value }
    }
}

impl FinalisedHand {
    /// The value is that of the cards, which were finalised with their totals within a byte.
    #[verifier::type_invariant]
    closed spec fn value_matches_cards(self) -> bool {
        &&& self.value as int == hand_value(self.cards@)
        &&& high_total(self.cards@) <= 255
    }

    /// The cards of the hand; their totals stay within a byte, as they did when it was finalised.
    pub fn get_cards(&self) -> (r: &Vec<Card>)
        ensures
            r@ == self@,
            high_total(self@) <= 255,
    {
        proof {
            use_type_invariant(self);
        }
        &self.cards
    }

    /// The value fixed when the hand was finalised: that of its cards.
    pub fn get_value(&self) -> (r: u8)
        ensures
            r == hand_value(self@),
            high_total(self@) <= 255,
    {
        proof {
            use_type_invariant(self);
        }
        self.value
    }
}

} // verus!
