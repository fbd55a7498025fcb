# stross_kernel

The kernel of a node that shares screens, sound and files in a local network, written in Rust and
verified with Verus.

- `src/` is the kernel. Everything in it is verified: who may subscribe to what, how streams are
  named, granted, started and ended, how frames are put in order, how files are cut up and put
  together, what is announced about a node and how other nodes are found.
- `tests/` runs the kernel on concrete values.
- `app/` is the program around it: the network, the files, the HTTP and WebSocket services and the
  tasks. It performs what the kernel decides and tells it what happened.

Each type of the kernel has a mathematical model, which is its view; each function says over these
models what it returns and changes. The proof functions whose names begin with `law_` state what
holds of several functions together.

The parts of `src/`:

| module | what it is about |
| --- | --- |
| `kernel` | sessions, tokens, access codes, endpoints, shares, links, the relay of the node |
| `negotiator` | requests for access: trust, policy, grants, waiting for the user |
| `channel` | texts and files between two nodes |
| `pick` | reading frames in order: jitter buffers, pacing, strict order |
| `receiver`, `engine`, `endpoint_driver` | receiving, pushing, pushing for subscribers |
| `discovery` | announcing this node and finding others |
| `control` | controlling the node from the same machine |
| `table`, `order`, `text` | the collections, sorting and texts that the others use |
