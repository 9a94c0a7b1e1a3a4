# os_core

The process, thread, signal and system-call logic of a small RISC-V teaching
kernel, as a library whose functions carry machine-checked contracts.

The kernel state is a `Kernel`: a process table indexed by pid, the pid
allocator, the ready queue and the running thread. Its well-formedness
(`Kernel::wf`) says that table slots and allocated pids agree, that parent and
child links agree, that exited processes have no children and no runnable
threads, and that the first process is alive. Every operation keeps it.

- `src/signal.rs`, `src/action.rs`: signal sets and per-signal actions.
- `src/id.rs`: the recycling id allocator used for pids and thread ids.
- `src/trap.rs`, `src/task.rs`: saved registers and threads.
- `src/process.rs`: the process control block, the builders of a new and of
  a forked process, and `exec` (including the layout of program arguments on
  the user stack).
- `src/kernel.rs`: the kernel state, scheduling of the running thread.
- `src/exit.rs`: thread and process exit, orphans passing to the first process.
- `src/signal_handling.rs`: delivery of pending signals.
- `src/syscall.rs`: `ProcessControlBlock::new` and `ProcessControlBlock::fork`,
  which create a process and register it in the table and the ready queue,
  and the system calls.
- `src/timer.rs`: the time register and the next timer deadline.
- `src/laws.rs`: properties that relate several operations.

Memory translation, the file system and the SBI calls are outside the
library: the system calls take what they read from user memory or files as
arguments and return what is to be written back.

`app/` holds the host-side pieces: a directory lister, the `bitflags` form of
the signal set, and the global kernel state with the exit path that powers
off when the first process exits.
