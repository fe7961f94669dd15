# met_core

The core of the daemon that talks to the chip of an espresso machine over a
serial port, as a library whose behaviour is stated in contracts and proved by
Verus.

- `src/` is the library. `message` and the modules of the payloads (`shot`,
  `sensor`, `esp_info`, `button`, `notify`, `heater`, `log`) read and write the
  lines of the wire. `reader` is the read loop as a state machine, and
  `runtime` the daemon around it: both take what happened and return what is to
  be done. `emulator` plays recorded shots, which `fixture` reads, `transport`
  cuts lines out of bytes, `gpio` holds the reset sequence, `server` and
  `protocol` serve clients, and `config` reads settings and the console.
- Numbers are double-precision floats, held by the digits that they show
  (`decimal`, `pynum`) and computed with integers: `rounding` finds the nearest
  float, `shortest` its digits, `bignum` and `canonical` serve both, and
  `quotient` divides durations.
- Laws about several functions stand next to them as public proof functions,
  those of the read loop in `reader_laws`, those over everything that it was
  fed in `history`, those about writing and reading in `round_trip`.
- `app/` holds what touches the outside: sockets, the serial port, pins, files
  and the encoding of JSON frames.
- `tests/` runs the library on concrete values.
