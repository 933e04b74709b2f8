# hew

A review-first terminal patch viewer, with its logic verified by Verus.

`hew` reads a unified diff, shows it in an interactive interface with threaded comments, and
prints on exit the action log that turns the comments it was given into the reviewed ones.

- `src/` is the library. Everything in it is verified against its contracts:
  - `diff`: the model of a diff, its generation from two texts, and the parsing of patches;
  - `comments`: threads and comments, and the action log with the laws that make it worth
    having (it replays to the reviewed state, and no shorter log does);
  - `ui`: rows, highlighting, theme, file tree, and the application: what every key, click and
    paste makes of the state, and what a frame looks like;
  - `vcs`, `session`, `loader`, `cli`: the decisions around git, running sessions and input.
- `app/` is the program around it: terminal, files, git and sockets.
- `tests/` runs the library on examples.

What the library takes from outside crates stands behind functions marked
`#[verifier::external_body]`; the comment above each says what is claimed of the crate.
