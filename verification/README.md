# rs_ffi_barrage

A danmaku (bullet comment) engine with verified logic: tracks with
congestion strategies, an object pool, a playback timeline (0.25x to 4x,
seek, pause), a filter (kinds, durations, keyword blacklist), an emoji
bitmap cache, a CPU RGBA renderer and the box blurs of the text effects.

- `src/` is the library, written in Verus; its functions carry contracts
  (those that only post to the send channel or read the wall clock state
  nothing of their outcome) and the `law_*` proof functions state the
  properties that hold across calls. Fractions (alpha, speed, positions,
  angles) are integers in thousandths. Tracks do not avoid collisions: the
  collision check is a placeholder that never reports one.
- `tests/` holds the tests of the library.
- `app/` is the C interface for Flutter (`rs_barrage_*`), file and network
  access (`image`, `ureq`, a process-wide download cache), JSON effect
  settings (`serde`) and the floating-point text effects.
