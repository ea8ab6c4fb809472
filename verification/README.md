# stm32-4g-gps

Firmware of a GPS tracker on an STM32 microcontroller with a 4G modem, split in two:

- `src/` decides and computes. It touches no hardware, allocates nothing, and is verified with
  Verus.
- `app/` touches the hardware. It carries out what `src/` asks for, and reports what happened.

## The library

| module | what it holds |
|---|---|
| `text` | byte strings, and buffers that cut what does not fit |
| `clock` | deadlines in clock ticks |
| `rx`, `rx_laws` | reading the serial port register by register: drain, wait for a report, read up to a marker, read a line |
| `session`, `session_laws` | exchanges with the modem: scripts of commands, waits and reads |
| `gps` | the exchanges with the GPS receiver, status lines, the SIM card number |
| `system_info` | the exchange that collects the modem's state, decimal numbers |
| `power` | when the GPS receiver is on |
| `http` | the start-up messages, and the messages that post a report |
| `tracker`, `tracker_laws` | the whole tracker: what comes next, and the report |
| `led` | the sign of life |

The power saving has three phases. The GPS receiver first stays on and is polled in every cycle.
After three fixes in a row it is on for one cycle and off for the next two. After five polls in a
row without a fix it stays on again. `power` proves this for every history of polls.

## Trust

Two functions in `clock` call `embassy-time` and are taken at their word: that a millisecond is a
thousand ticks, and that adding a duration to an instant adds the ticks. The first holds because no
`tick-hz` feature of `embassy-time` is selected.

## Building

`Cargo.toml` selects the `arch-std` executor, with which the library and its tests are built, and
`app/` is type-checked, on a workstation. A build for the board is not set up here.
