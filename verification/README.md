# taco

The verified core of a terminal text editor in the manner of Emacs. `src/` is a
library in Verus: it holds the editor's whole state and every rule by which keys,
mouse events, process output and programs change it. `app/` is the program around
it: the terminal, the file system, child processes and the Scheme interpreter.

## Layout

| Where | What |
|---|---|
| `buffer`, `rope`, `undo`, `lines`, `bytes` | text, positions, and the undo log |
| `window`, `layout`, `columns`, `render`, `faces` | windows, viewports, and what is drawn |
| `keys`, `input`, `keymap`, `dispatch`, `keyloop`, `ready` | chords, keymaps, and the key state machine |
| `commands/`, `native`, `killring`, `rect`, `mouse`, `search`, `regexes` | the commands |
| `minibuffer`, `buffers`, `editor` | prompts, the buffer list, and the editor itself |
| `dired/`, `paths`, `calendar`, `archive`, `order` | directory listings and file operations |
| `process`, `stream` | child processes and their output |
| `script/`, `value`, `treesit` | what programs and grammars see of the editor |

## How it is stated

Each type has a model, its view: a buffer is a sequence of chars with its marks
and its log, the editor is a record of buffers, windows and modes. A command
states that the editor's model after it is a spec function of the model before
it, and that the model stays well formed.

Work that only the outside world can do is handed out as a value: a command
returns `PostAction::Outside(task)`, `app/` performs the task, and hands the
outcome to a function of the library, which says what the editor does with it.

Proof functions whose names begin with `law_` state what holds of several
functions together: that undo restores a text, that a yank gives back a kill,
that deleting a window undoes its split, that a formatted chord parses to itself.
