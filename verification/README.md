# collatz_app

A viewer for Collatz trajectories drawn as rows of bits.

- `src/` is the verified library:
  - `collatz`: the Collatz step and the shortened step (odd part of the next
    value), the fills that record a trajectory up to its first `1`, a bounded
    check of a trajectory, and the proof that the plain trajectory reaches `1`
    exactly when the shortened one does, the shortened one then being the odd
    values of the plain one, in order.
  - `base2`: the "base-2 steps" that rewrite the list in groups of four.
  - `widgets`: what each cell of a mask row shows and what a click on it
    flips, for the eight integer widths, signed and unsigned.
  - `state`: the application state, the user actions as events, and the
    function that handles them.
- `app/` is the egui/eframe front end: drawing, input, persistence with serde.
- `tests/` runs the library on concrete values.
