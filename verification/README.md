# cce-cloud

A launcher for Wayland: it lists applications, executables, lines of input or a page of
controls described in JSON, and answers with what was chosen. A daemon shows the popups, one
at a time; a client asks it for one over a socket, and shows the popup itself where there is
no daemon.

- `src/` is the library: the rules of the launcher, with contracts that Verus proves.
  - `filter`, `fuzzel`: matching a query, the order of the matches, the searchable list.
  - `desktop`, `catalog`, `history`: desktop entries, what is listed, and the order in which
    applications appear after launches.
  - `keys`, `options`: chords and key symbols, the arguments of the program.
  - `stdin_state`, `launcher`: what comes in line by line, and what keys, presses and input do.
  - `protocol`, `session`, `report`: requests, answers and the report of a page, as JSON.
  - `daemon`: which client is served, answered and hung up on, and when.
  - `json_layout`, `json_events`, `json_paint`, `sizing`: pages of controls, and sizes.
  - `text`, `split`, `order`, `number`, `geometry`: what the others are made of.
- `tests/` runs the library on concrete values.
- `app/` is the program around it: windows, files, fonts, threads and sockets, on the toolkit
  `cce_ui`.

Lengths in the library are whole numbers of units, of which a logical pixel has 1024.
