# stay

A tiny terminal session keeper, with its logic verified by Verus.

- `src/` is the library: session names and commands, the command line, the replay
  buffer and history file of a session, the session table and what each request
  does to it, what a client does in a session, the look back through its output
  with the wheel and the marking of text in it, and the text on the screen. The
  contracts say what each function returns or changes; the functions named
  `law_...` state what holds of several of them together.
- `app/` is the program around it: sockets, terminals, processes, files and JSON.
- `tests/` runs the library.

Taken on trust are the form in which chrono prints the local time, and what
`String::push` and `String::from_utf8` do. Of what nix answers about a process
nothing is assumed.
