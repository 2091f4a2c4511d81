# dockboard

The rules of a receiving-dock trailer board, verified with Verus.

- `src/` is the library: shift and operational-date rules, the board grouped
  by date, shift and dock, field permissions per role and the update queries
  built from them, late-trailer and part-outage alerts, directory and
  Microsoft sign-in decisions, week schedules and upload plans. Every public
  function states its result in `ensures`; the `lemma_*` proof functions
  state the laws that hold across calls.
- `tests/` runs the library on concrete values.
- `app/` is the server around it: routes, the graph database, mail, SMS,
  websockets and tokens. Verus does not read it.
