# ohmyzsh-gui

The core of a desktop manager for Oh My Zsh: it reads `~/.zshrc`, previews
every change as a diff, and rewrites only the recognized `ZSH_THEME` value and
`plugins=(...)` words. Plugins and themes are installed from GitHub at a fixed
commit, and every applied change is journaled so that it can be undone.

## Layout

- `src/` — the library, verified with Verus.
  - `config.rs` — the `.zshrc` model: the assignment grammar, `Document::parse`,
    `Document::edit`, the diff, and the laws that an unchanged edit gives the
    file back and that an edit touches only the recognized values.
  - `engine.rs` — previews held until applied or cancelled, the journal and
    undo, the decisions of install/update/remove, the snapshot pieces, and the
    answers to requests.
  - `github.rs` — repository names and the meaning of GitHub API answers.
  - `system.rs` — the Oh My Zsh layout, path expansion, WSL paths, Git and
    zsh command lines, and the checks around a configuration write.
  - `readme.rs` — the one-line catalog summary of a plugin README.
  - `text.rs` — character-level helpers.
- `app/` — the program: file, process, credential-store and network work, the
  JSON shapes of requests and answers, and a loop that answers one JSON request
  per input line.
- `tests/` — tests of the library.
