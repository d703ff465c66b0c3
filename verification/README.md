# git_tui

The logic of a terminal git client, verified with Verus: the state of the app
and its keys, the project tabs, the file tree, the diff rows and their cursor,
Markdown and syntax highlighting, the configuration and session files, and what
each panel of the screen shows.

- `src/` is the library. Every type has a view, every function a contract over
  those views; the modules named `*_laws` and the functions named `law_*` state
  what holds of several functions together. The screen is a list of panels, each
  a rectangle with its styled lines.
- `app/` is the program around it: it reads keys, files and repositories, runs
  the jobs that the library asks for, and paints the panels.
- `tests/` runs the library.

What is trusted is marked `external_body` or `assume_specification`: calls into
`syntect`, `pulldown-cmark`, `similar`, `toml` (with `serde`), `unicode-width` and
a few functions of std. Each says above it what is claimed of the call.
