# Rewind

Time-travel debugging for a local Git repository: snapshots of the working tree,
a history of commands and test runs, a search for the likely causes of a failed
test, and safe restores.

The project has two parts.

- `src/` is the library. It holds the rules and algorithms. Its functions are
  verified with Verus against contracts over mathematical models, all but the
  few that only call another crate or the standard library, whose contracts are
  taken on trust:
  texts are sequences of characters, manifests are maps, plans are sequences of
  operations.
- `app/` is the program around it: the command line, files, processes, the
  database, the terminal. It asks the library what to do, does it, and hands
  back what came of it. Paths are `/`-separated texts in the library, and the
  program turns them into those of the system.

| Module        | What it is about                                                  |
|---------------|-------------------------------------------------------------------|
| `text`        | texts: searching, trimming, splitting, numbers                     |
| `text_map`    | maps with texts as keys, in order                                  |
| `paths`       | paths, their components, and the storage layout                    |
| `objects`     | the content-addressed store                                        |
| `write_job`   | atomic writes, step by step                                        |
| `tracking`    | which files are tracked, and the scan of a tree                    |
| `snapshot`    | manifests and how a snapshot is taken                              |
| `diff`        | changes between manifests, and between texts                       |
| `investigate` | the ranking of likely causes                                       |
| `restore`     | plans of restores and how they are carried out                     |
| `exec`        | runs of commands                                                   |
| `session`     | recorded runs, checkpoints, restores with a safety snapshot, undo  |
| `repo`        | what Git tells of a repository                                     |
| `config`      | the configuration                                                  |
| `ci`          | reports of test runs                                               |
| `cli`         | what the subcommands decide and print                              |
| `search`      | searching the timeline                                             |
| `migrations`  | bringing the database up to date                                   |
| `tui`         | the interactive interface: state, keys, panels                     |

What crosses the border to other crates (hashing, line diffs, ignore patterns,
time, panel layout) stands in small functions whose contracts are not proved: they
say what is relied on. The laws that relate several functions, such as that replaying a diff gives
the new manifest or that undoing a restore brings the tree back, are public proof
functions beside the definitions they speak of.
