# differ

A diff viewer with persistent annotations, in the terminal. It works like
`git diff`, shows the changes of a repository file by file, and lets comments and
tasks be attached to their lines.

The library under `src/` holds what the viewer decides and computes: which files,
hunks and lines are shown, where the cursor goes, what a key does, how lines are
paired, highlighted, wrapped and drawn, what is stored, and what is exported. It
is written in Verus: every function states in its contract what it does, over
mathematical models of the data, and the contracts are proved.

The program under `app/` is ordinary Rust around the library. It reads files and
the git repository, runs statements on the database and programs in the
background, and draws with ratatui. The library never does any of this itself:
its functions take what was read, and give back an `Action` to perform.

## Layout

| Modules | What they hold |
| --- | --- |
| `text`, `number`, `names`, `paths` | texts as sequences of characters, numbers in decimal, sets and maps of names, file names |
| `outside` | what the library calls of other crates, with the contracts that are taken on trust |
| `diff`, `intraline`, `syntax` | files, hunks and patches; changed characters of paired lines; syntax highlighting |
| `config`, `args`, `storage`, `tables`, `export`, `watch` | settings, command line, statements of the annotation store and what they do to its tables, export, changes of files |
| `display`, `expand`, `compose`, `schedule`, `visible` | the lines of the display, how they are built and highlighted, and what can be relied on to be in it |
| `screen`, `navigate` | the cursor, scrolling and everything that moves them |
| `state`, `steps`, `views`, `search`, `commands`, `annotate`, `list`, `stage`, `ai`, `stream`, `help`, `input`, `keys`, `action`, `reading` | the application: its state, what each event does to it, and what it asks for |
| `style`, `palette`, `spans`, `render`, `beside`, `panes` | what is drawn |

Functions named `law_...` state what holds of several functions together: that a
stored annotation reads back, that expanding a file and going back changes
nothing, that the cursor stays in view, that building the lines of one file anew
is the same as building all.

## Usage

```bash
differ diff                    # unstaged changes
differ diff --staged           # staged changes
differ diff HEAD               # working tree against HEAD
differ diff main..feature      # between branches
differ diff -- src/            # filter by path

differ add -f src/main.rs -l 42 "needs refactoring"
differ list
differ export -f json
differ clear
```

Press `?` in the viewer for its keys. The configuration file is
`~/.config/differ/config.toml`.
