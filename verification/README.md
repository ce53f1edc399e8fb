# fastmc

A terminal manager for Minecraft servers: it adds servers, runs them in tmux
under a supervisor that restarts them after a crash (and gives up after three
crashes in ten minutes), backs them up, keeps their whitelist, and sends them
commands over RCON.

## Layout

- `src/` — the verified library (Verus). Each module states its behaviour in
  `requires`/`ensures` contracts over spec functions, and the laws that tie
  operations together are proof functions named `law_*`.
  - `text`: trimming, lines, words and numbers as `std` defines them.
  - `dir`: a server directory as the library sees it (`ServerDir`).
  - `paths`: where a server keeps its files.
  - `config`: the `fastmc/` metadata files, `.mcserver.conf`, the whitelist
    switch of `server.properties`.
  - `server`: server states, tmux sessions, the running process, start
    scripts, the server menu, RCON settings.
  - `supervisor`: the crash/restart state machine and its log lines.
  - `ram`, `monitor`: RAM settings, labels, and resource figures.
  - `network`, `rcon`, `download`: the port, RCON packets, download pages,
    replies of web services.
  - `whitelist`, `notes`, `backup`, `console`: the menus' file edits and
    input handling; restoring and scheduling backups.
  - `retention`: which old archives a backup removes (the newest
    `backup_keep`, 5 unless set, remain).
  - `external`: every call into code that is not verified, with the
    contract it is trusted to meet.
- `app/` — the program around it: terminal, files, processes, network, and
  the few computations on floating-point numbers.
- `tests/` — tests of the library, many of them against the `std` and
  outside-crate behaviour that the contracts describe.

The program also runs `fastmc supervisor <dir>` (the supervisor inside a
server's tmux session) and `fastmc backup <dir> <1-4>` (a scheduled backup).
