# jj-gh

A command-line tool that creates, edits and restacks GitHub pull requests
from a [jj](https://github.com/jj-vcs/jj) repository.

## Layout

- `src/` is the library, verified with Verus: every decision the tool makes
  (which base a PR gets, what an edit changes, how the restack plan is built,
  which stack writes `pr stack` and `pr create` send and in what order,
  how `jj` and GitHub output is read, how frontmatter documents are split and
  rendered, how completion scripts are assembled) with its contract, plus
  the laws that relate the functions (round trips, idempotence, how search
  batches cover every branch, the order in which `pr create` checks, pushes
  and opens).
- `tests/` runs the library on concrete values.
- `app/` is the binary: argument parsing, configuration files, the `jj`,
  editor and token-helper processes, the GitHub API and the terminal UI. It
  hands plain values to the library and carries out the plans it gets back.

Calls into other crates that the library makes (URL parsing, shell word
splitting, TOML rendering, lowercasing, lossy UTF-8 decoding) go through small
wrappers whose contracts name their results; everything around them is
proved.
