# soul_engine

Verified core of the S.O.U.L. cellular-automata workbench, written in Verus.

* `src/` — the library, verified by Verus (the only unproved parts are the
  few small wrappers around outside calls, whose contracts are trusted):
  cell states and grids (`cell`, `grid`), the world grid and its slice
  allocator (`worldgrid`), the layered and layer-0 GPU atlas allocators
  (`gpu_atlas`, `renderer_atlas`, sharing the guillotine split of `rect`),
  GPU slice bookkeeping and compute-pass planning (`gpu`, `pipelines`,
  `compute`), grid-to-texture upload (`upload`), and the camera / input /
  controller decisions (`camera`, `input`, `controller`, `origin`,
  `state`), and the automata command step (`commands`).
* `app/` — the Bevy host: components and resources with Bevy derives,
  plug-ins and systems that feed the library plain values and apply its
  results, the GPU compute node, and the floating-point camera math.
* `tests/` — executable tests of the library.
