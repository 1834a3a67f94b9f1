# c6-lvgl

A reaction game for the Waveshare ESP32-C6 Touch LCD 1.47 board. The panel
shows colors: blue is to be answered with a swipe, every other color with a
touch. A right gesture earns points by how fast it comes, a wrong one costs
points, and the points are shown in huge digits.

- `src/` is the logic, verified with Verus: gesture recognition, scoring,
  colors, number formatting and the layout of text on the panel. Each function
  states in its contract what it computes; the functions named `law_...` are
  theorems about the library as a whole.
- `tests/` runs the library, with `embedded-graphics` and `embassy-time` linked.
- `app/` is the firmware around it: it sets up the board, polls the touch
  controller, reads the clock and draws on the panel.

What the library takes from other crates without proof stands behind a few
functions whose doc comments say what is trusted: how `embedded-graphics`
renders text, encodes colors and centers rectangles, how `embassy-time` measures
time, and how `core` decodes UTF-8.

## Log

The firmware logs a heartbeat every second and the touch coordinates over RTT,
along with the gestures and the points that come of them:

```
INFO  Hello world!
INFO  touch: (171, 204)
INFO  touch start: (171, 204)
INFO  touch: (172, 206)
INFO  touch detected: (171, 204), distance: 2
```

Touch rotation defaults to `Rotate0`; adjust it in `app/main.rs` for another
orientation.
