# renderer

A small Vulkan renderer whose decision-making core is written in Verus and
proved against its contracts.

- `src/` is the verified library:
  - `input/`: keyboard state with per-frame press and release edges, the
    older whole-table input state, and on/off buttons with the bindings that
    route keys and mouse movement to them;
  - `assets/`: load-batch bookkeeping, the asset look-up database (`name=uuid`
    lines), the table of loaded assets with their revisions and load
    signals, the storage's state machine (load requests, reads, revisions and
    garbage collection), and the names of asset files;
  - `futures.rs`: one-shot notifications between threads;
  - `render/`: the queue families chosen for the device, the swapchain
    configuration and the render-loop decisions around swapchain recreation;
  - `resources/mesh.rs`: the icosphere topology, refined by splitting every
    triangle into four;
  - `config.rs`, `mesh.rs`: the default configuration and index types.
- `tests/` exercises the library on concrete values.
- `app/` is the program around it: the window, the Vulkan device and
  swapchain, the event loop, which clears the window each frame, the camera,
  mouse handling and key-bound axes (floating point), reading the look-up
  file and finding asset files on disk. The deferred render path, materials,
  scenes and asset decoding are not part of this program: they need a shader
  compiler and an asset-format crate that it is built without.
