# bit-music, verified

`bit_music` is the library behind the bit-music players: the `.bm1`
composition format and its rules, the arrangement grid, and the logic of
the players (transport, settings, texts, help layout), written in Verus
with contracts that Verus proves.

Layout:

- `src/` — the library.
  - `note`, `number`, `text`: notes and their spellings, numbers and truth
    values written as text, trimming.
  - `model`, `validate`, `composition`, `messages`: the composition model,
    the format's rules (the first broken rule is the one reported), the
    sample defaults, and the messages of every error.
  - `project`: a composition with its sample paths resolved against the
    file's folder.
  - `timeline`: the grid of columns, each track looped over it, its steps
    and clips; `pitch`: semitone shifts from a sample's root note.
  - `playback`: the transport in frames (play, pause, stop, seek, loop,
    end of run) and the one-shot previews.
  - `config`: the player's settings checked against their schema, the
    window and divider state, the history of opened files.
  - `help`, `report`, `labels`, `i18n`, `grid`, `selection`, `palette`,
    `error_log`, `loading`: what the players show and decide.
- `tests/` — tests of the library.
- `app/` — the `bm` command-line program: argument handling, file and
  audio I/O, JSON, and the floating-point audio code (resampling,
  mixing), around the library.
