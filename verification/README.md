# keygen

Searches for comfortable keyboard layouts by simulated annealing, scoring each
layout by the discomfort of typing a corpus on it: a base cost per key, and
penalties for awkward sequences of up to four keystrokes (the same finger twice,
jumps between the top and bottom rows, twists, roll reversals, long runs on one
hand or strict alternation, and rolls outwards; rolls inwards earn a little).

- `src/` is the library, verified with Verus:
  - `layout.rs`: keys, layers and layouts; the geometry of the keyboard; swapping,
    shuffling and enumerating rearrangements of the movable keys; the map from
    characters to key presses; the text form of a layout.
  - `gram.rs`: runs of up to four ASCII characters packed into one integer.
  - `penalty.rs`: the kinds of penalty, the quartads of a corpus and their
    counts, and the penalty of a layout, counted exactly in eighths of a point.
  - `references.rs`: the reference layouts (QWERTY, Dvorak, Colemak, ...).
  - `simulator.rs`: the best layouts met during a search, kept in order, and the
    accept step of an annealing run and the stop-or-continue step of refining.
- `app/` is the command line: it reads the corpus, runs the annealing schedule
  (which draws random floating-point numbers) and prints the results.
- `tests/` exercises the library on concrete layouts and corpora.

Usage: `keygen run corpus.txt [-t TOP] [-s SWAPS] [-d]`, `keygen run-ref corpus.txt`,
or `keygen refine corpus.txt`.
