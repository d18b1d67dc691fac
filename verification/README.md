# ball

A game for several players over the network: everybody steers a cursor that pulls a ball along by a
spring, and tries not to be hit by the balls of the others.

- `src/` is the library, verified with Verus: the rules of the game, the protocol between clients
  and the server, the screens, and what is decided about the graphics card.
- `app/` is the program around it: sockets, timers, the window, the graphics card, and all
  arithmetic on floating-point numbers.
- `tests/` runs the library on concrete values.

Real numbers are held by their bit patterns in the library. Where a rule needs a computed number,
the caller hands in the computation, and contracts say which numbers it is applied to.
