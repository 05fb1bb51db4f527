# moete

The logic of Moete, a Discord bot, as a library verified with Verus: what its
commands and listeners decide and what text they answer with, from plain
values to plain values.

- `src/` is the verified library, one module per area of the bot:
  `counter` (the word counter), `emote` (reading, cloning, removing and
  searching emotes), `markov` (whose messages are learnt and when a text is
  generated), `role` (colour roles and their clean-up), `shortcut` (server
  shortcuts and their listing), `utility` (links, Urban Dictionary pages,
  amounts in shorthand, server overviews, configuration), `music` (track
  progress), `status` (the rotating status), `handler` (argument errors),
  `text` (character-level helpers) and `outside` (the calls into std and
  outside crates that carry trusted contracts).
- Every public function states its result in `ensures` (where a random draw
  decides, what holds of every result); the properties that span functions
  are the public `law_*` proof functions.
- `tests/` runs the library on concrete values.
- `app/` is the program around the library: configuration from the
  environment, the clock, the host machine, JSON and floating-point work.
