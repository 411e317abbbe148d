# crosspaste-server

A central server for CrossPaste clients, with its logic verified by Verus. Clients pair with the
server, and what one of them copies goes on to all others. Devices without a public address hold a
tunnel open, through which requests reach them.

- `src/` is the verified library. It does no I/O: each function takes the time and what was received
  as arguments, and hands back what is to be sent, kept or shown.
  - The relay: `registry`, `tunnel`, `proxy`, `routes`, `auth`, `headers`, `protocol`, `error`, and
    `agent` for the device's end.
  - The hub: `hub`, `secure`, `paste`, `delivery`, `broadcast`, `database`.
  - What the server tells about itself: `sync_info`, `discovery`, `qr`, `config`.
  - Administration: `admin`, `totp`.
  - What these stand on: `table`, `text`, `bytes`, `pieces`, `sort`, `codec`, `clock`, `random`.
- `tests/` runs the library on given values.
- `app/` is the program: HTTP, WebSockets, SQLite, files, mDNS and the command line.

Where the library calls another crate, the call stands in a function of its own, whose comment says
what is taken for granted of it. Public proof functions named `law_...` state what holds across
several functions.
