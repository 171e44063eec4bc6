# led_screen_sync

Takes the screen's colors and syncs a strip of WS2812 LEDs (driven over a serial line) and a
monitor's backlight (driven over HID) with them. The screen is split into one vertical strip
per LED; a number of pixels is sampled in each strip, the samples that are not dark are
averaged, and the average is gamma-corrected to give the LED's color.

Layout:

- `src/` is the library, verified with Verus:
  - `get_color.rs`: colors, captured frames, the strip sampling and averaging;
  - `gamma.rs`: the gamma table and its order properties;
  - `serial.rs`: the LED strip packet and the choice of the serial port;
  - `monitor.rs`: the monitor's HID reports and their checksum;
  - `config.rs`: the configuration and its default.
- `app/` is the program: configuration file, screen capture, serial and HID I/O, threads.
- `tests/` exercises the library on concrete values.
