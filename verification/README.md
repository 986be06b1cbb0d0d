# rust_chat

A chat server for five hundred participants with live voting, a terminal client
for it, and bots that put it under load.

`src/` is the library. It holds the state machines, the grammars and the
arithmetic, with contracts that Verus proves:

- `protocol`, `framing`: messages, and the lines that carry them;
- `server`, `client`, `room`, `vote`, `channel`, `ratelimit`, `metrics`: who is
  let in, what a message does, how the vote is counted and broadcast;
- `bot`: mixes of bots and how many of each there are, what each kind does, and
  how a run is judged and reported;
- `tui`: what the terminal client shows, and what typing does;
- `text`: characters and decimal numbers.

Properties of the whole, such as that the counters are always the votes of those
connected, are public proof functions whose names begin with `law_`.

`app/` is the program around the library: sockets, clock, terminal, JSON and
floating point. `tests/` runs the library on concrete values.

The library rests on a few contracts that are not proved: those of tokio's
broadcast channel (`channel`), of rand's generator (`bot::random`), and of three
functions of the standard library (`text`, `framing`).
