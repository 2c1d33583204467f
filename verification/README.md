# hanabi

A web server for the card game Hanabi whose rules are verified with Verus.

- `src/` is the verified library:
  - `deck.rs`: colors, values, cards and the deck (building, shuffling,
    drawing);
  - `game.rs`: the state of a game, its well-formedness, dealing, and the
    actions (discard, play, hint, swap) with their exact effect;
  - `view.rs`: what one player is shown of a game;
  - `laws.rs`: properties across actions, among them that no card is
    ever created or lost;
  - `server.rs`: the server's decisions: joining, looking up players by
    id, and the answer to each request;
  - `command.rs`: reading the commands players send over the websocket
    (`/join`, `/play`, `/discard`, `/swap`, `/hint`);
  - `http.rs`, `request.rs`: building HTTP responses, routing GET
    requests, and reading request lines and messages.
- `app/` is the program around it: the actix web server and websocket
  sessions, file access, and the JSON form of the messages.
- `tests/` runs the library on concrete games.
