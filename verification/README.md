# jetctx

A shared prompt and tmux context renderer: a zsh prompt with the working
directory, git branch and dirty state and the last command's duration, and a
tmux right-side status with battery, memory and time. One config file, one
theme and shared cache files under `~/.cache/jetctx/`.

The library under `src/` is verified with Verus. Functions that compute state
exactly what they return. Functions that ask the filesystem, the clock or the
environment cannot know its answers in advance: their contracts say which
path each question was about (`exists_answer`, `is_dir_answer`,
`is_file_answer` tie every answer to the path that was asked) and hand the
answers to a verified function that decides (`pick_repo_root`, `detect_from`,
`markers_for`, `start_dir_for`, `pick_theme_path`, `Config::source_from`, the
`*_at` freshness choices). So detection finds the nearest root *according to
the answers the filesystem gave* about `<dir>/.git` and `<dir>/<marker>`.
The laws of the library (freshness of cache entries, theme and config
precedence, escaping for `prompt_subst`, omission of empty segments, one
cache file per canonical project root, ...) are proof functions next to the
code they speak of, or clauses of the functions' own contracts.

Layout:

- `src/text.rs`: character-level text helpers (trimming, parsing numbers,
  splitting, joining, string order) with their specifications.
- `src/paths.rs`: paths as strings; the few `std::path` queries.
- `src/config.rs`, `src/theme.rs`: configuration and themes, their defaults,
  precedence rules and the theme field report (the theme text is parsed with
  `toml` there).
- `src/cache.rs`: cache locations, freshness, building entries, reading the
  output of the host probes.
- `src/detect/`: project and git detection. The upward walks ask the
  filesystem which markers exist; reading the gitfile and `HEAD` and running
  git are left to the caller, which the detection tells what to read next.
- `src/render/`: the prompt and tmux renderers.
- `app/`: the `jetctx` command: argument parsing, file and process I/O, JSON
  output.
- `tests/`: tests of the library.
