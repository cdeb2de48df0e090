# psyche

The cognitive model of an embodied system, and the decisions of the server that
gives it a face.

Sensations enter cognition; faculties notice things about them; wits understand
what was noticed; memory keeps what was understood and brings it back. Around
that model stand the parts that let it live: the sockets that take frames, fixes
and sound; the scheduler of a language model; the scene that is described to it;
the voice that answers and the mouth that speaks.

- `src/` holds the model and the decisions, each function with a contract that
  Verus proves. The `law_` proof functions state what holds across functions.
  What other crates and the standard library compute is called through small
  wrappers whose contracts are believed; each says of which function, and what.
- `tests/` runs the library on concrete values.
- `app/` is the ordinary Rust around it: HTTP and sockets, threads, processes,
  models, and what is computed in floating-point numbers, such as the summary of an
  image.

A moment is counted in nanoseconds, and a number that only travels through JSON, a
confidence among them, stays the text that it is there.
