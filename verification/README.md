# gift

Building blocks of the GIFT-128 block cipher in the fixsliced representation,
written in Verus with their behaviour stated as contracts and proved.

- `src/primitives.rs`: word and lane rotations, SWAPMOVE, the bitsliced S-box
  and its inverse (specified column by column against GIFT's 4-bit S-box), the
  classical key-state update, and five rounds of the fixsliced linear layer.
- `src/key_schedule.rs`: the rearrangements of round-key words into the
  fixsliced layouts, their inverses, and the key-state updates done directly
  in those layouts.
- `src/gift128.rs`: loading a 16-byte block into the four-word bitsliced
  state and back (proved inverse to each other), and the key schedule, proved
  to give the classical GIFT-128 round keys in the layout of each round.

Public lemmas state the laws: the rotations, SWAPMOVE steps and S-box undo
each other; SWAPMOVE, the rearrangements, packing and unpacking only move
bits (they distribute over exclusive or and keep the number of set bits).

The tests under `tests/` run the verified functions on concrete values.
