# luminal_vgd

The control plane of a virtual display driver, written in Rust and verified with Verus.

A streaming host creates a monitor per client, keeps it alive with pings, changes which of
its modes are on offer, and takes frames out of a ring in shared memory. The driver has to
keep identities and connectors stable, survive lost GPUs, never take away the mode a
display is running, and never write a slot the host holds. The library decides all of that;
its contracts say what it decides, and Verus proves that the code does.

- `src/` is the library. Each type has a model made of sequences and maps (`*Model`), and
  each operation a contract over that model. What holds across operations stands as public
  proof functions named `law_*`.
- `tests/` run the library on concrete values.
- `app/` is ordinary Rust around it: threads, locks, shared sections, Direct3D, the C
  interface of the host. It asks the library what to do and does it. The modules that need
  Windows are compiled there only.

| Module | What it decides |
|---|---|
| `proto` | wire layouts, result codes, object names |
| `session`, `identity`, `permanent`, `persist` | who has which monitor, for how long, and what survives a restart |
| `modes`, `edid`, `luminance`, `adapter` | which modes and adapters are valid and how a monitor describes itself |
| `modepush` | when another mode list may be published, and what the display is running |
| `ring`, `tdr` | which frames are dropped, and when a transport has recovered |
| `dispatch` | what a control request is answered and what follows from it |
| `shell` | what each callback of the operating system changes and asks for |
| `host` | the host's C interface and a stress tool |
| `headers` | the preparation of C headers for a strict parser |
