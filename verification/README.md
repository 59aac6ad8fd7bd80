# envctl

A local-first manager for the secrets of developers. A registry holds projects, environments
and secrets; a secret has one value in each environment, encrypted under a master key, and is
assigned to projects. A program runs with the values of a project in an environment, and only
if none of them is missing. Every change is logged, so that devices can exchange their logs.

`src/` is the library, verified with Verus:

- `text`, `order`, `time`, `ids`, `json`, `envmap`: texts, sorting, times, identifiers, JSON
  objects and sorted variables.
- `crypto`, `keys`: encryption of values, and the search for the master key.
- `domain`, `registry`: records, coverage and resolution over any registry.
- `tables`, `store`, `requests`, `wellformed`, `snapshot`: the store, its requests, what they
  keep, and its rows as texts.
- `change`, `replay`: the log and its replay. Of two updates of a value the later one decides, in
  whichever order they arrive; so a store keeps when a value was last taken away.
- `model`, `laws`, `convergence`, `imports`, `draws`, `listing`: what holds of the store, its log
  and its lists.
- `sync`, `exchange`: device files and sealed bundles.
- `manifest`, `runner`, `commands`, `entity_commands`, `dotenv`: what the commands compute and
  print.
- `tui`: the terminal interface as a state, what keys do to it, and what it shows.

Requests that need random numbers or the time come in two forms: one takes them as an argument
and says exactly what it does; the other draws them and does the same.

`app/` is the program around the library: arguments, files, the database, processes and the
terminal. `tests/` runs the library.
