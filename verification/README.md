# kernel_ipc

Message passing between processes of a small kernel, verified with Verus.

- `src/ringbuffer.rs`: a bounded FIFO ring of slots, viewed as a `Seq`.
- `src/endpoint.rs`: an endpoint, a named queue of byte messages with room for 16.
- `src/registry.rs`, `src/model.rs`: the abstract state (name registry, endpoint
  slots, stack of freed slots), its invariant, and the effect of each operation.
- `src/ipc.rs`: the executable state and the calls `init`, `register`, `lookup`,
  `send_msg`, `receive_msg`, `unregister`, each proved to act as the model says.
- `src/syscall.rs`: the system-call layer: decoding names, return codes.
- `src/laws.rs`: properties that span several calls (lookup after register,
  FIFO delivery, handle reuse, isolation of endpoints, ...).
- `app/`: the global state behind a `spin` lock, the entry points that read and
  write user memory through raw pointers, and the user-side calls.
