# pake

The rules of a single-player poker program, as a library whose behaviour is
stated in contracts and proved with Verus.

## Layout

- `src/cards.rs`: cards, ranks, suits, decks and sets of cards.
- `src/money.rs`: money that moves between players and pots without being
  copied, and splitting a pot among several players.
- `src/holdem.rs`, `src/pot.rs`: hold'em hands, actions and the betting pot:
  how a round stands, side pots, and awarding the pot.
- `src/probability.rs`, `src/look_up.rs`: win probabilities in 256ths and the
  table of sorted two-card hands.
- `src/evaluate.rs`, `src/holdem_gen.rs`: evaluating hands with the `poker`
  crate, and counting how often each hand wins over all flops.
- `src/game.rs`: game modes, the choice of games, and the state of the menus.
- `src/acey_deucey.rs`, `src/five_card_draw.rs`, `src/dealers_choice.rs`: the
  turns, bets and menus of each game.
- `src/gfx.rs`: the characters and colours of cards, and the cells of framed
  boxes.
- `app/`: the program that computes the win probability tables and writes
  them to disk, and the places where chance enters the games.

Everything under `src/` is verified; `tests/` runs the library on examples.
