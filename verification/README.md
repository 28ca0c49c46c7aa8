# syncor

Keeps directories in sync across machines. A directory is linked to a git repository; its files
travel as content-addressed, compressed packs with a catalog of snapshots.

The library in `src/` takes the decisions, and every one of them is verified with Verus:

- `sync`: what has to be saved, the three-point comparison of a pull, the steps of a push, a pull
  and a restore, and what a directory holds in the end (`sync::mirror`).
- `transport`: which git commands a push, a pull and a look for changes run, what their answers
  mean, and what git's progress output says.
- `config`, `link`: where things are kept, settings, and the registry of links.
- `daemon`, `watch`: the daemon's connections, debouncing, polling.
- `display`, `progress`, `cli`: what the user sees.
- `text`, `text_map`, `path`, `sort`, `unicode`, `digest`, `clock`: what the rest stands on.

The program in `app/` does what the library decides: it runs git, reads and writes files, keeps the
state in SQLite, draws progress bars and serves the daemon's socket.

Each module of the library ends with its laws: proof functions that say what holds of several of
its functions together.
