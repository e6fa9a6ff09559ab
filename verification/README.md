# limitless

The logic of a multi-account launcher for the game İstanbul Kıyamet Vakti,
written in Verus and verified.

- `src/` is the library: machine-bound encryption of stored credentials
  (`crypto`), the account rows and the store's state (`db`), the launch
  preferences file (`prefs`), launcher command lines, process ids, stop
  and monitor decisions (`launch`), the web login page (`login`), the
  per-launch identity a client is given and the substitute hardware values
  it reports (`identity`), the login CAPTCHA decisions and the login
  thread's step function (`captcha`), cropping a BGRA snapshot and
  aligned byte-pattern search (`capture`), string extraction from binaries
  (`inspect`), and text helpers (`text`).
  `external` holds the calls into outside crates and into std, with the
  contracts that the proofs rely on.
- `app/` is the backend process around it: SQLite, process spawning and
  termination, HTTP, and the file system.  No request it makes carries
  account data.  The in-game module's Windows API hooks, script injection
  and synthetic input are not part of this repository; the decisions they
  act on are in `identity`, `captcha` and `capture`.
- `tests/` runs the library against concrete inputs.
