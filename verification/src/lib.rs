//! The verified core of the Proton micro-kernel and its modules: address
//! and page arithmetic, physical frame allocators, page tables, task
//! messages and kernel calls, device register protocols (UART, GPIO, GIC,
//! virtio network), the virtual file system with its root and device file
//! systems, per-process file tables, the process table, the round-robin
//! scheduler, and the loading of user programs from ELF files.
#![allow(unused_imports)]

use vstd::prelude::*;

pub mod address;
pub mod page;
pub mod buddy;
pub mod monotone;
pub mod volatile;
pub mod memory;
pub mod physical;
pub mod task;
pub mod kernel_call;
pub mod ipc;
pub mod lazy;
pub mod page_table;
pub mod path;
pub mod uart;
pub mod pl011;
pub mod gpio;
pub mod gic;
pub mod virtio_queue;
pub mod virtio_mmio;
pub mod virtio_net;
pub mod vfs;
pub mod rootfs;
pub mod devfs;
pub mod proc_data;
pub mod pm;
pub mod round_robin;
pub mod process;
pub mod elf;
pub mod kernel;
