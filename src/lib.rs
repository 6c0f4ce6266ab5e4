//! The verified core of a small x86_64 kernel: address arithmetic, the boot
//! memory map, paging, address spaces, stacks, processes and the scheduler.

pub mod address;
pub mod memory_map;
pub mod paging;
pub mod address_space;
pub mod stack;
pub mod pcb;
pub mod scheduler;
pub mod boot;
pub mod process;
pub mod cpu;
pub mod layout;
