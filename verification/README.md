# snake

The Snake arcade game and its score server. The rules of the game and the
server's decisions on authentication, lockout, request budgets, rankings and
pages are proved correct by Verus; reading requests, files and the clock is
left to the program around them.

- `src/` is the verified library: the game rules (one tick of movement, speed,
  turning, keys, board cells, food placement), the leaderboard ranking, PIN
  authentication, sessions, the failed-attempt lockout and request budgets, cookies, client-address resolution behind a
  proxy, CORS and origin checks, page rendering helpers, browser storage and
  the Prometheus metrics text. Each public function states what it returns
  in its contract; the `law_*` proof functions state the properties that hold
  across calls.
- `tests/` runs the library on concrete values.
- `app/` is the server program around the library: settings from the
  environment, the HTTP routes and middleware, files on disk, and the
  browser-side edges (storage, randomness).
