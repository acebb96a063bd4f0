# dna-greendamn

A DLL for EM-Win64-Shipping.exe that finds the live player cameras among the
game's objects and has `DisableCameraDither` called on each of them.

- `src/` decides, and is verified with Verus. It asks for reads, for the time and
  for calls, and never touches the game.
  - `uncensor`: the ticks, which find the function and the cameras.
  - `worker`: waiting for the game, ticking and reporting.
  - `names`, `mem`, `cache`, `buf`: names of objects, answered reads, caches, log
    lines.
  - `model`: what one step of a tick does.
  - `laws`, `steps`, `runs`, `still`, `ticks`: what holds of the parts, of every
    step, of steps in a memory that changes, of a scan, and of whole ticks.
- `app/` is the DLL: it carries out what `src/` decides.
- `tests/` runs the library against a small game in memory.
