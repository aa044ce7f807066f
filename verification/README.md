# blackjack

A terminal game of blackjack against a dealer.

- `src/` is the verified library: cards, decks and hands with their values
  (`game::card`), the table's state machine (`game::state`, and its first form in
  `game`), and the player's controls together with one round of play
  (`tui::entrypoint`). Its contracts speak of views: a deck or a hand is a sequence of
  cards, a game state is a `Table` of stage, deck and hands.
- `app/` is the program around it: logging, the terminal loop and the widgets, and
  the chance of going bust as a fraction.
- `tests/` runs the library on concrete games.
