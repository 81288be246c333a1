# rayworld

The rules of a top-down colony simulation on a 512 x 512 tile grid, written in Verus
with their contracts proved.

- `src/` is the verified library: the block word and its fields (`grid`), the
  wall-data layer and legacy thin walls with edge blocking (`walls`, `thin_walls`),
  roof heights (`roof`), the fluid obstacle field (`fluid`), sub-tile mining
  (`mining`), terrain words (`terrain`), shadowcasting fog of war (`fog`), colonist
  groups (`comms`), the wetland buffer (`wetland`), the sample base (`buildings`),
  the WGSL block constants (`wgsl`) and a few small tables and ids.
- `tests/` runs the library on concrete worlds.
- `app/` is ordinary Rust around it: world generation and other floating-point
  code, TOML registries, GPU layouts and a headless entry point.
