//! Sector-level building blocks for a FAT32 volume driver and the small
//! kernel pieces around it.
//!
//! - `mbr` and `ebpb` decode and validate the master boot record and the
//!   FAT32 BIOS parameter block from their 512-byte sectors.
//! - `block_device` is the sector-addressed device capability, and `cache`
//!   serves a partition's logical sectors from an in-memory write-back cache
//!   over such a device.
//! - `io` and `cursor` give an allocation-free error model and an in-memory
//!   stream; `stack_vec` a vector over borrowed storage; `allocator` address
//!   alignment and a size-class allocator; `atag` the firmware's boot records;
//!   `shell` the kernel shell's line editor and command dispatch.

pub mod io;
pub mod bytes;
pub mod block_device;
pub mod mbr;
pub mod ebpb;
pub mod cache;
pub mod stack_vec;
pub mod cursor;
pub mod allocator;
pub mod atag;
pub mod shell;
