# rts_engine

The verified core of a real-time strategy engine, written in Verus, with a
thin program around it.

- `src/` is the library. Its functions are verified against their
  contracts, except a few small trusted wrappers (marked
  `#[verifier::external_body]`) that call `rand`, `base_62`, the clock, a
  stable sort and `u64::hash`, whose contracts restate what those
  functions document. A function whose result rests on chance or the
  clock (`rand_id`, `time`) states only what holds whatever the outcome.
  It holds typed identifiers and their text form
  (`utils`), profiling maps over time spans (`frame`, `timespan`), unit part
  trees (`unit`), mouse drags (`input_state`), the client's menus (`menu`),
  shader hot reload (`shader_reload`), hit and reload rules (`combat`),
  the frame step's choice of frame and unit grid (`frame_server`), the
  height editor's pen (`heightmap_editor`),
  the manager's network decisions (`manager`, `net_server`, `net_client`),
  generated textures (`procedural_texels`), the terrain mesh
  (`heightmap`), the progressive refresh of the height texture
  (`heightmap_zones`) and the bytes of compiled shaders (`glsl_compiler`).
  Public `law_*` proof functions state properties that span several calls.
- `tests/` runs the library on concrete values.
- `app/` is ordinary Rust: the command line, the shader files, the
  floating-point terrain and texture generators, and a headless run of the
  manager's loop with its network threads.
