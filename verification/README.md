# Solar System Simulator

The decision core of an interactive simulator of the Earth-Moon system, verified
with Verus, and the simulator around it.

- `src/` is the library. It holds what the simulator decides: the calendar and
  the epochs, the steps of the trajectory searches, what the optimizers keep and
  show, trails and closest approaches, the camera, the keys, the panels, the menu
  of bodies and the recorder. Measured quantities are carried by their bits and
  only compared (`scalar.rs`); states of motion are type parameters.
- `tests/` runs the library on concrete values.
- `app/` is the simulator: ephemerides from ANISE, propagation with nyx-space,
  the scene with Bevy, the panels with egui, and animated GIFs with image. It does
  the floating point work and the input and output, and hands the library what
  there is to decide on.

Four functions of the library call outside crates, and their contracts are
trusted: `on_calendar`, `utc_nanos_of` and `show_utc` in `epoch.rs` (hifitime),
and `image_bytes` in `recording.rs` (image).

The simulator takes an epoch as its argument, `YYYY-MM-DD` or
`YYYY-MM-DDTHH:MM:SS`, and needs `pck08.pca` and `de440s.bsp` in
`data/01_planetary/`.
