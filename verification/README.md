# syndote

Syndote is a Monopoly-like game whose players are strategy programs. This
crate holds its rules, proved with Verus:

- `src/types.rs`: accounts, players, cells and the game state.
- `src/board.rs`: the board and how it is laid out.
- `src/utils.rs`: the settlement of debts and penalty points at the start of
  each round, sales of cells to the bank, the checks on the moves of a
  strategy program, and the dice.
- `src/game.rs`: registration, the opening of a round, the move of a player
  and the answer to its turn, with the invariant that every operation keeps.
- `src/messages.rs`: the turn message handed to a strategy program.
- `src/strategy.rs`: the choices of the two strategy programs.
- `src/laws.rs`: properties of the rules that span several operations.

`app/` holds the programs that run on the network: they read and send the
messages, keep the game in storage, draw the dice, reserve gas and wait for
the players; the rules of the game and the decision at the top of each round
(play, pass to a reservation, or ask for gas) come from the library. The
moves that a strategy program asks of the game during its turn (throwing
from jail, gears, upgrades, buying, rent, mystery, teleport) are answered as
refused: their rules are not part of this crate, so none of them changes the
game.
