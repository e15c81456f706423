# splat_renderer

A viewer for Gaussian splat scenes, with a mock rendering backend.

- `src/` is the library, verified with Verus:
  - `input`: key bindings, which camera controls are held, and which
    translations and rotations a frame applies;
  - `renderer`: the mock backend's surface size and frame counter;
  - `grid`: the layout of the procedural splat grid.
- `app/` is the program: the winit event loop, logging, and the
  floating-point camera and splat geometry.
