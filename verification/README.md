# Heartbeat

Watches a set of registered apps, alerts when one of them goes down, and shows their status and
logs.

- `src/` is the library, verified with Verus: what a check makes of an answer, the history and the
  incidents in it, which changes alert whom and in which words, mass-outage detection, the
  schedule, the registry of apps, notices, sessions and roles, login throttling, the outbound
  policy, the configuration, and what each route answers.
- `app/` is the program around it: sockets, files, the clock, the templates.
- `tests/` runs the library on concrete values, with the outside crates linked.

Where the library calls an outside crate, the call stands in a small function whose contract is
taken on trust; its doc comment names the outside function and says what is claimed of it.
Everything else is proved.
