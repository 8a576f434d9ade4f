# quadboy

The game logic of a frontier-themed roguelike, written in Verus with its
behaviour stated in contracts and proved.

- `src/engine`: the game clock and its daylight spans, stable entity ids,
  frame-rate history, save paths, session states and exit handling.
- `src/rendering`: zone/world projection, text markup and word wrapping,
  render layers, glyph visibility, particle grids and the entity pool that
  draws them, the particle effects of conditions, animation frames and
  light-map helpers.
- `src/states`: the decisions and texts of the game screens (state
  transitions, explore, shoot, throw, inventory, container, attributes,
  overworld map, settings, pause, game over, menus).
- `tests/`: tests of the library on concrete values.
- `app/`: the program around the library: the macroquad window and main
  loop, the ECS world, menu keys and the status panel, file I/O, and the
  floating-point parts (daylight blending, animation curves, sub-tile
  positions).
