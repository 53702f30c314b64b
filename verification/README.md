# rift_wm (verified core)

The verified core of the rift tiling window manager for macOS.

- `src/common/util.rs`: splitting startup command lines into a program and
  its arguments (quotes, escapes), and reading on/off settings.
- `src/sys/geometry.rs`: rectangles in whole screen points.
- `src/actor/reactor/animation.rs`: the decisions of layout animation: how
  visible a window is on its screen, which windows animate, jump or move
  directly, how the requests of a step are batched per application, and
  when animated windows are resized.
- `app/`: the runtime around it: frame interpolation (floating point),
  dispatch of batches to application threads, layout passes over the
  window manager's state, spawning startup commands and the UI client, and
  signal and panic hooks.

`src/` is verified with Verus; `tests/` exercises it on concrete values.
