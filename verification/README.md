# pulley_leds

The verified logic of a Wi-Fi LED controller. The controller fetches a WebAssembly component
over HTTP, keeps it in flash, and runs it; the component draws on a strip of WS2812 LEDs.

- `src/` is the library, verified with Verus. It decides; it performs no input or output.
- `app/` holds the programs around it: the firmware for the microcontroller, a guest, and the
  compiler that makes guests ready for the firmware.
- `tests/` runs the library on concrete values.

The library trusts a few calls without proof: UTF-8 checking and trimming of the standard
library (`src/text.rs`), tick counts of `embassy-time` (`src/delay.rs`), and the resource table
and the ahead-of-time compiler of `wasmtime` (`src/strip_table.rs`, `src/compiler.rs`). Each is
wrapped in one function, whose doc comment says what is claimed of it.
