# openclaw_manager

The utilities of the OpenClaw manager, with their logic verified by Verus.

- `src/` — the verified library. Every function computes on plain values:
  - `text`: trimming, lines, joining, prefixes (models of `str` operations);
  - `order`: the order of strings and a verified descending sort;
  - `envfile`: reading, setting and removing `export KEY="VALUE"` lines, and
    loading every variable of the environment file; `env_laws` proves what
    these promise together (a value set is read back, other keys are kept,
    escaped values are safe for a shell);
  - `token`: gateway tokens from random bytes, and decoding the Windows
    random source;
  - `registry`: the npm registry and the shell preludes;
  - `command`: how a child process's outcome is reported;
  - `openclaw`: the programs, arguments and environments of child processes;
  - `paths`: the extended `PATH` and where `openclaw` may be installed;
  - `probe`: the search for `openclaw`, one question to the caller at a time;
  - `gateway_token`: the gateway token from the JSON configuration or the
    environment file.
- `app/` — the file system, environment and process plumbing around it.
- `tests/` — tests of the library.
