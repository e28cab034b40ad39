# russet

A terminal game of Set, with its rules, its board and its drawing engine verified with
Verus.

## Layout

- `src/` — the library, every function with a contract that Verus proves:
  - `deck`, `layout`, `game`: cards, the board of 3 × 6 slots, and the game state. A
    choice of a card selects it, deselects it, or completes a triple; a triple that is a
    set leaves the board, the extra section moves into the gaps and the deck refills the
    rest. Proved: a choice keeps the state's invariant and loses no card; in every game
    reached from a new one the board, the deck and the found sets hold each card once,
    so the last found set lies off the board and out of the deck; a change set names
    each change once; whether three cards form a set does not depend on their order;
    two cards are completed by exactly one third card.
  - `pos`, `bounds`, `util`, `config`: screen positions, rectangles, the terminal size,
    colors and sizes.
  - `sprites`: pictures (`img`, `grid`), sprites, trees of sprites with inherited
    anchors, orders, visibility and clickability (`sprite_tree`), the cells to redraw
    (`dirt`), and the printing of dirty lines in runs of equally colored cells
    (`sprite_manager`, `termable`).
  - `id`: identifiers, and a one-to-one pairing of keys with identifiers kept in a
    `bimap`.
  - `animation`, `input`: the decisions of the drawing loop and of the game loop, from
    a message or an input event to what to do, and the check that a dealt card can be
    placed; `animation::card_repo` paints card faces and outlines and builds a card's
    sprite tree.
  - `framebuf`, `sprite`: runs of dirty cells per line, and a grid addressed by screen
    positions.
- `tests/` — tests of the library on concrete values.
- `app/` — the program: terminal input and output with crossterm, logging, and the two
  threads that run the game loop and the drawing loop.
