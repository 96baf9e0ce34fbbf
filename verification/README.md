# nodeget-agent

The logic of a monitoring agent, written and proved in Verus: its configuration, the URLs its
terminals connect to, and the terminal sessions it runs.

- `src/` is the verified library.
  - `text` holds white space, trimming, lines and decimals.
  - `config` holds the settings, their defaults and their validity; `auto_uuid` puts a UUID in the
    place of the `auto_gen` placeholder.
  - `socket_url` resolves the URL a terminal connects to.
  - `terminal_pool`, `pty_task`, `pty_session` and `relay` decide what a terminal does, step by
    step.
  - `args` and `error` hold the command line and the errors.
  - `outside` is what is taken from other crates, with the contracts that stand for it.
- `app/` does the input and output around it: files, sockets, pseudo terminals.
- `tests/` runs the library.
