# fuel_logger

Controller of small fuel stations on a Raspberry Pi: a Wiegand keypad/card
reader authorizes a user, START/STOP/PAUSE buttons drive the pump relay, a
TUF-2000 flow meter is read over RS485 (MODBUS ASCII), a camera snapshot is
taken when a session starts, and each session is logged to SQLite and shown
through a small HTTP API.

Layout:

- `src/` — the library, verified with Verus:
  - `modbus.rs`: MODBUS ASCII frames (LRC, building, parsing, register
    responses, reception decisions), with round-trip laws;
  - `wiegand.rs`: Wiegand bit accumulation and code completion;
  - `station.rs`: the station state machine (polling, keypad and card input,
    authorization, session lengths, log records) and its safety invariant;
  - `routes.rs`: HTTP Basic Auth decision, snapshot path checks, SQL text,
    user record updates;
  - `config.rs`, `models.rs`, `gpio.rs`, `tuf2000.rs`, `localtime.rs`,
    `text.rs`: configuration, data types and helpers.
- `app/` — the program around it: GPIO (rppal), serial port, database,
  web server, camera, and the loop that feeds the state machine.
- `tests/` — tests of the library on concrete values.
