# chariot_client

The game-logic core of the Chariot racing client, written in Verus.

`src/` is the verified library:

- `scenegraph`: sparse-set component storage (`VecStorage`), the scene tree
  (`World`, `Builder`) with its depth-first walks, and `SceneNode` links.
- `util`: the PCG32 random number generator.
- `resources`: resource handles, the framebuffer registry and RGB to RGBA
  widening.
- `renderer::render_job`: render graphs and their grouping into passes.
- `renderer::reflection`: how a shader's globals are bound (bind groups in
  group order) and what its vertex inputs are, from WGSL source.
- `renderer::wgsl`: naga's WGSL parse, read piece by piece into plain
  values.
- `menu_input`, `ui_state`: chair selection, HUD decisions and announcement
  texts.
- `session`: what each packet from the server changes in the client's state
  and which actions it asks for.
- `ui_region`: how a screen region reacts to the pointer entering, leaving,
  pressing and releasing.
- `audio`, `drawable`: handles and plain types used by the renderer and audio.

`app/` holds the floating-point parts (transforms, bounds, particles, float
random draws, pointer regions) on top of the library, using `glam`. It
runs the packet loop and maps window and gamepad input, carrying out the
library's decisions.
