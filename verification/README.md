# cineplanet_cli

Finds Cineplanet showtimes with good seats for a group, without checking each
venue by hand. The library under `src/` holds the logic, verified with Verus:

- `viewing`, `score`, `seats`, `order`: where a group can sit in a room, the
  exact (rational) viewing score of a block and the good viewing zone;
- `ranking`: which showtimes are shown and in what order;
- `recommendation`: the `recommend` request, its candidates and its JSON-ready
  response;
- `live`: the public web contract's records turned into the catalog and seat
  maps;
- `app`, `keys`, `display`: the interactive flow as a state machine, the key
  map and the texts of each screen;
- `listing`, `text`, `clock`, `domain`, `demo`, `settings`, `checkout`, `cli`:
  shared model and helpers.

`app/` is the program around it: argument parsing, HTTP, files, JSON and the
terminal interface.
