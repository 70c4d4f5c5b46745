# herdr-palette

A fuzzy command palette for Herdr, the terminal workspace manager, written in
Rust and verified with Verus. The palette fuses keybindings, plugin actions,
custom commands, workspaces, tabs and agents into one list, filters it by a
query, shows it as a list or a tree, and says what to run for the row that was
picked.

## Layout

- `src/` is the verified library.
  - `items`, `bindings`, `source`: the rows, and how they are collected.
  - `dispatch`: what performs a row, and cycling to a neighbour.
  - `matching`, `tree`: matching and ranking rows, and the tree over them.
  - `palette`, `input`, `laws`: the palette's state, what keys do to it, and what
    holds of it whatever keys are pressed.
  - `shell`: the shell panel.
  - `layout`, `render`, `screen`: what is drawn, and where.
  - `report`: which chords are taken, and how many rows of each kind there are.
  - `json`, `paths`, `text`, `keyset`: what the others are built on.
- `app/` is the program around it: arguments, the terminal, processes, the
  config and the environment.
- `tests/` runs the library with the outside crates that it calls.

## What is stated

Each type of the library has a view, and each function's contract says what it
returns, or how it changes its state, in terms of views. Facts that span
functions are proof functions whose names start with `law_`: that ranking is a
stable sort, that a tree lists each group once and hides nothing while its groups
are open, that no key leaves the palette with a selection out of range, that
moving there and back changes nothing, and so on.

What is believed without proof is marked `external_body`, `assume_specification`
or `external_type_specification`, and its comment names the outside function and
says what is claimed of it.
