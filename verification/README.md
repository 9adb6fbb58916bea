# display_backends

Display backends for Linux workers that receive already-opened bus and GPIO
descriptors: SSD1306 over I2C, SH1106 over I2C or SPI, and ST7789 over SPI.

The library in `src/` is written in Verus and verified:

- `format`, `backend`: frame formats, their byte lengths, pixel reads
  (intensity and RGB565), and backend metadata including bus settings.
- `encode`: aspect-fitting, packed monochrome pixel writes, and conversion of
  producer frames (packed 1-bit, 8-bit intensity, RGB565) into each
  controller's native frame.
- `changes`, `converter`: the last frame known to be displayed, the next
  frame, and the smallest rectangle that a transfer has to rewrite.
- `commands`: controller initialisation sequences, addressing commands,
  data messages and GPIO line values.
- `indicator`, `schedule`, `engine`, `schedule_laws`, `engine_laws`: the
  activity-indicator scheduler, its transitions as spec functions, the
  engine that drives an application-supplied renderer, and properties proved
  about the transitions and about the levels the renderer is sent. The
  renderer trait's contract (a successful call displays exactly the level it
  was given) is an obligation on its implementations, which are not
  verified.

`app/` holds what is not verified: the bus and GPIO I/O of `Display`, the C
interface, the indicator thread with its channel, and the hardware demo.
`tests/` exercises the library.
