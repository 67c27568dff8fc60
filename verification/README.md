# loomz

The logic of the Loomz game client and engine, written in Verus and proved
against its contracts.

- `src/` is the verified library: the save file format (`store`), the
  terrain grid (`terrain`), the world actors, animations and terrain chunks
  (`world`), the gui styles, builder, layout plan, interaction and batching
  (`gui_state`, `gui_builder`, `gui_layout`, `gui_batch`), gpu memory and
  staging bookkeeping (`memory`), descriptor pools and writes
  (`descriptors`), pipeline descriptions and the setup of the module
  pipelines (`pipelines`, `module_setup`), draw commands (`render`), the
  frame cycle (`frame`), device and swapchain selection (`setup`), png font
  textures (`texture`), id and name caches (`cache`) and the client states
  and menus (`client`).
- `tests/` runs the library on concrete values.
- `app/` holds what the library leaves out: files, window handles, the lock
  around shared descriptor writes, and the floating point geometry of the
  guis, actors, terrain views and debug grid.

`verus` checks `src/`; the laws of the library are its public `proof fn`s.
