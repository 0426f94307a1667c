# wectr_sdk

The verified core of the wectr guest runtime.

- `src/inbox.rs`: per-channel FIFO inboxes of byte messages, their model and
  the FIFO and independence laws.
- `src/rt.rs`: the runtime state (tasks, spawned tasks, clock, inboxes) and the
  decisions of a tick, one round at a time: which tasks stay, when spawned
  tasks join, when the tick ends.
- `src/wait.rs`: timers against the runtime clock.
- `src/channel.rs`: channel traits, receivers, and the byte image of a message.
- `app/`: the guest glue: host imports, the global runtime, the futures tasks
  await, `#[repr(C)]` byte views, and the entry points.
