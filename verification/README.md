# usb-gadget-supervisor

A small privileged process that shows USB devices implemented by unprivileged workers. It
configures the Linux gadget interfaces that need root, and leaves each device's own protocol to
its worker.

The decisions of the supervisor are a library that is verified with Verus. Reading and writing
files, sockets and devices is a thin program around it.

## Layout

- `src/` is the verified library.
  - `personality`, `native`, `conversation`, `discovery`: what a worker publishes, built from its
    platform's configuration calls or discovered from a firmware's own descriptors.
  - `usb_personality`, `microsoft`, `functionfs`, `gadget`: validation of a personality, its
    projection to FunctionFS blobs and ConfigFS attributes, and the inspection of those blobs.
  - `supervisor`, `serve`, `ep0`, `lifecycle`: the order in which a gadget is built, served,
    replaced and removed, the main loop, the control endpoint, and endpoint activations.
  - `protocol`, `handshake`: the records between the supervisor and its worker.
  - `profile`, `launch`, `gpio`, `cli`, `paths`: what a worker may be started with.
  - `persistence`: when a worker's state is written out.
  - `bytes`, `sets`, `text`, `format`: words, sets, texts and numbers.
  - `*_laws`: what holds across functions, such as that a projected personality passes inspection,
    that a gadget is attached only once its worker serves, and that a discovered personality holds
    the firmware's own bytes.
- `tests/` runs the library on concrete values.
- `app/` is the program: arguments, signals, processes, mounts, sockets, CBOR, TOML, threads and
  the C interface for workers.

## Profiles

`--profile NAME` reads `/opt/usb-gadget-supervisor/profiles/NAME.toml`; an absolute path selects
another file. `--check-profile` validates a profile without touching hardware.
