# iboardbot

A server for the IBoardBot drawing board, with its core verified by Verus.

- `src/` is the verified library: the byte protocol of the board
  (`protocol`), the splitting of drawings into numbered blocks
  (`software_board`), the reading of G-code (`gcode`), the quad tree that
  gives each drawing of a group a region of its own (`qtree`), the job
  queue of the boards as a state machine (`boards`), what a polling board
  is answered (`action`), the answers of the HTTP interface (`response`),
  the choice of a font file (`fonts`) and the session store (`sessions`).
  Laws that span several calls are public proof functions whose names
  begin with `law_`.
- `app/` is the program around it: the HTTP routes, the task that runs the
  job queue and performs its answers, the conversion of SVG and text into
  G-code with external tools, and the floating-point scaling of drawings.
- `tests/` runs the library on concrete values.
