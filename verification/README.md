# gridterm

A grid of terminals in one window, with an assistant that can see and drive the
panes. The decisions of the program are a library whose functions carry
contracts that Verus proves; the program around it does the input and output.

## The library (`src/`)

- `ui`, `keys`, `grid`: the key bindings, the grid of panes, the mouse.
- `pty`, `color`, `scene`, `frames`: what a pane shows, as runs of equal color
  and boxes in cells; when a frame is drawn.
- `ai_ui`: the chat overlay with its input line and its log.
- `ai`: the conversation with the model (`client`), the loop that runs its
  tools until it needs none (`agent`), the tools themselves (`tools`, `shell`,
  `plan`), and the settings of the service (`config`).
- `browser`: the settings of coding agents, merged without loss, and the talk
  with the broker of the shared browser.
- `usage`: token counts by pane, read from what agents report.
- `crashlog`: the log, and the watch for freezes.
- `json`, `text`, `bytes`, `rounding`: what the others are made of. `json` and
  the beginning of `text` hold the few statements about `serde_json` and the
  standard library that are believed and not proved.

Public proof functions whose names begin with `law_` state what holds across
functions: that backspace takes back what was typed, that a call of the model
never closes a terminal unasked, that every tool call is answered in order, that
merging settings keeps what it does not own, and so on.

## The program (`app/`)

The window, the GPU, the pseudo-terminals, the threads, the network, and
everything in floating point: pixels and money. It hands plain values to the
library and does what comes back. Run under the name `gridterm-browser-shim`, it
is the bridge between an agent and the browser's broker. Agent
programs are found by the files that they keep in the user's directory, and are
given the browser from the start.

## Tests (`tests/`)

Run the library on concrete values, and hold its texts and numbers against the
standard library.
