# oxbow

A capability microkernel with its runtime and C library, verified with Verus.

A process holds handles, and a handle names an object with the rights it may be used
with. Memory is paid for from budgets, endpoints carry messages that can pass handles on,
and a right that was given up never comes back.

## Layout

`src/` is the verified library. Each module states what its functions return and change
in `requires` and `ensures`; functions named `law_...` state what holds of several of them
together.

- `abi`, `bytes`: system call numbers, errors, message layout, byte order.
- `object`, `proc`, `thread`, `percpu`, `waitq`, `kernel`: objects, handle tables, the
  scheduler, and the state of the whole kernel.
- `turns`, `books`: that no thread is on two processors, and no page frame in two hands.
- `mm`: page frames, budgets, page tables, and the plan of the kernel's own mappings.
- `ipc`, `notif`, `irq`, `channel`, `pipe`, `pty`, `ring`, `shm`: communication.
- `elf`, `load`, `image`, `boot`: programs, and the start of the first ones.
- `usermem`, `syscall`: access to the memory of processes, and the system calls.
- `arch`, `fb`, `pci`, `rng`: what the drivers compute.
- `rt`: the runtime of programs: messages to the servers, the heap, names, sockets.
- `libc`: the C library on top of the runtime.

`tests/` runs the library on concrete values.

`app/` is the machine around it, and is not verified: the boot protocol, port input and
output, privileged registers, page tables in place, the trap and system call entries,
locks, and floating point. It asks the library what to do, does it, and hands back what
came of it.
