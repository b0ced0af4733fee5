# eva01

The decisions of a liquidator for marginfi, as a verified library.

- `src/` is the library. What it decides and computes is stated in contracts and proved by Verus.
  Calls into outside crates stand behind functions whose contracts are trusted; each of them names
  the outside function and what is claimed of it.
- `app/` carries out what the library asks for: files, processes, threads, and the services behind
  the traits in `app/services.rs`.
- `tests/` runs the library on concrete values, together with the outside crates.

Decisions that take several rounds are values with a pending request. A step takes in what came of
the request; the contract of the step says what the value becomes. The properties of the library as
a whole stand as `law_...` proof functions at the end of each module.
