# vhost_user_blk

A vhost-user block device whose logic is verified with Verus.

- `src/` is the library. Every function in it is verified, except for a few small
  wrappers around outside functions: Verus does not read their bodies and believes
  their contracts. They stand in `memory`, `number` and `block`, marked
  `external_body`.
  - `queue`: virtqueues in guest physical memory; `queue_laws` states what holds
    across several calls.
  - `vring`: the rings of the device, from taking a request over carrying it out to
    returning it; `vring_laws` states what holds of the whole.
  - `block`: the vhost-user requests; `block_laws` states what they keep.
  - `backend`, `backend_raw`, `backend_raw_async`: what the device asks of a disk
    image, and the arithmetic of raw images.
  - `memory`: guest memory with a record of every access to it. The contracts of
    the other modules say which accesses are made, and in which order. What a load
    gives back is left open, since the driver shares the memory.
  - `number`: numbers in memory, in the byte order of the machine.
- `app/` opens files, maps memory, and connects the library to a vhost-user
  socket.
- `tests/` runs the library on real guest memory.
