# zappy

The rules of the Zappy game server, verified with Verus, and the program
that serves them over TCP.

- `src/config.rs`: the command line (`-p -x -y -n -c -f`) and its errors.
- `src/data/`: resources and their densities, positions, the toroidal map
  with its refill and depletion, players and their action queues, and the
  command parser.
- `src/action.rs`: queued commands and their durations.
- `src/game.rs` and `src/game/`: the game state, one tick of it (refill,
  hunger, actions), the player actions (look, take, set, broadcast, eject,
  fork), elevations, the graphical protocol and the client handshake.
- `src/server.rs`: what the network loop and the game say to each other.
- `src/text.rs`: decimal writing, number reading and splitting of text.
- `app/main.rs`: the program: argument handling, the listener and the poll
  loop.

Each operation states in its contract the state it leaves and the text it
answers; the laws of the game (what a refill brings, what a take or a drop
keeps, what an elevation consumes, how many tiles a look shows, what a
join costs a team) are proof functions beside the operations.
