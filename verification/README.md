# standup

A digest of what the agents of a session actually did: every workspace over a time
window, with its commits, its change volume, its branch, and whether the work landed.

The library under `src/` is written in Verus. Every function states what it returns,
and the promises that span functions are proved beside the functions they speak of,
as proof functions whose names begin with `law_`.

## Layout

- `src/model.rs`: the data of a digest.
- `src/config.rs`, `src/window.rs`, `src/clock.rs`: what was asked for, and the
  instants it means.
- `src/herdr.rs`: what the session says, reduced to workspaces and directories.
- `src/git/`: the questions put to git and what the answers mean. The library decides
  what to ask next from what it has heard; whoever drives it runs the commands.
- `src/standup.rs`, `src/placing.rs`, `src/rollup.rs`, `src/by_agent.rs`: putting a
  digest together.
- `src/cache.rs`, `src/state_file.rs`: what is remembered between runs.
- `src/compare.rs`: what moved between two saved digests.
- `src/render/`: the terminal report, Markdown, Slack and HTML. `render/shown.rs`,
  `render/sorted.rs` and `render/withheld.rs` hold what is proved of all of them,
  `render/entities.rs` what is proved of a whole Slack message.
- `src/tui/`: the digest pane, as a state machine and a layout.
- `src/strings.rs`, `src/paths.rs`, `src/order.rs`: text, paths and sorting.
- `app/`: the program around the library. It reads the environment, the clock and the
  disk, runs git, talks to the session and draws the pane.

Nothing here writes to a repository that is reported on: the commands a report may ask
for are known, and each of them only reads.
