# futures_mio

A small futures/event-loop library whose decisions are proved with Verus.

- `src/poll.rs`: the outcome of one poll (`Ready`, `Error`, `NotReady`).
- `src/fold.rs`: the state machine of an asynchronous fold over a stream
  (`Fold`, `FoldState`, `FoldEvent`, `FoldNext`), with the laws that the fold
  hands each accumulator and item to the folding function in turn (with
  `NotReady` pauses anywhere), resolves
  to the last accumulator, resumes unchanged after `NotReady`, and is spent
  once it has resolved.
- `src/event_loop.rs`: the loop's token table (`Registry`): fresh tokens,
  parked waiters, and what a readiness event does, with the laws that tokens
  are distinct and never the channel token, a fresh token displaces nobody,
  and a parked waiter is woken exactly once.
- `src/readiness.rs`: registrations, loop messages, and what follows a
  non-blocking read, write or accept.
- `app/`: the mio-based loop and TCP sources, and the driver that polls a
  fold's stream and futures; they perform the system calls and follow the
  decisions of `src/`.
- `tests/`: concrete scenarios for each of the above.
