# unimem

Pinned memory that the CPU, the GPU and the neural engine of one machine share, and allocators
over it, verified with Verus.

- `src/` is the library. A block is a locked surface; a tape hands out its bytes one after the
  other; a grid hands out cells of one size; a layout is three tapes for an inference. What has
  to be asked of the system is decided by state machines, so that every path of it, the failing
  ones too, is covered by a proof. The other modules hold the logic of the probes that look at
  such memory.
- `app/` performs the requests: the surface, driver and hypervisor calls, the shared allocators,
  and the probes' output.
- `tests/` runs the library against surfaces that are held in ordinary memory.

What is trusted without proof stands in `src/queue.rs`: the contracts of the queue that keeps
the free cells of a grid. The records of `src/head.rs` are tied to the calls on the atomic by
the two short functions that make them, which have to be read: no contract speaks of the value
that an atomic holds.

Main properties:

- However the system answers, opening a block ends with the block or with the error that the
  answers call for, and leaves neither a lock nor a surface behind where it fails.
- Bytes taken from a tape never overlap between two clears. For threads that share a head this
  is proved of every order in which their looks and exchanges can reach it, from what an atomic
  is: a look sees where the head is, and an exchange moves it only from where it is.
- No two cells in use share a byte, in whichever order threads reach the queue of free cells,
  and free and lent cells make up the whole grid.
- Clearing after a token or a conversation never touches the weights.
