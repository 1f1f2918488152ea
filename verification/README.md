# proton

The verified core of the Proton micro-kernel, written in Verus.

`src/` holds the kernel's logic with its specifications and proofs:

- memory: addresses and pages (`address`, `page`), the buddy and bump
  frame allocators (`buddy`, `monotone`, `physical`), page flags and
  four-level page tables (`memory`, `page_table`);
- tasks: task ids and messages (`task`), kernel calls and IPC register
  conventions (`kernel_call`, `ipc`), the round-robin scheduler
  (`round_robin`, over crossbeam's `SegQueue`), per-process resource lists
  and the process manager's requests (`pm`), the process table
  (`process`), lazily computed values (`lazy`);
- devices: device registers with a log of the values written, and a
  device-wide log of the order of writes across registers (`volatile`),
  the boot console and the PL011 terminal (`uart`, `pl011`),
  GPIO pin routing (`gpio`), the interrupt controller (`gic`), virtio
  queues, registers and the network driver (`virtio_queue`, `virtio_mmio`,
  `virtio_net`);
- files: path resolution (`path`), the virtual file system (`vfs`), the
  root and device file systems (`rootfs`, `devfs`), per-process file
  tables and the file system's request handler (`proc_data`);
- programs: reading the little-endian 64-bit ELF header and program
  headers, planning the load of a parsed image, the bytes each program
  page receives from the file, and mapping a user task's program, stack and
  kernel entry (`elf`);
- the remaining kernel pieces: boot console, saved task contexts,
  interrupt numbering (`kernel`).

`tests/` exercises the library on concrete values. `app/` is a small host
program that plans the loading of an ELF file, lays out its address space
over simulated memory, and holds the formatting and console glue that
cannot be verified.
