# starlists

The logic of `stars`, a local-first command line for organising GitHub stars
into GitHub's official Star Lists, as a library verified with Verus.

- `src/` holds the verified library: the local store of lists, repositories,
  memberships and proposals (`db`), the proposal planner and its local
  application (`proposal`), the apply run as a state machine that names each
  GitHub mutation in turn (`apply`), reading GitHub's GraphQL replies
  (`github`), the commands that work on the store (`cmd`), configuration and
  token choice (`config`), slugs and plan ids (`ids`), and text output
  (`output`). `laws` proves properties that span several operations.
- `app/` is the `stars` program around it: argument parsing, the SQLite file,
  HTTP, the clock, and printing.
- `tests/` runs the library on concrete values.

Apply always sends a repository's full set of lists, deletes lists only after
every membership update, and refuses a plan that would leave more than 32
lists on GitHub; each of these is stated and proved in `src/`.
