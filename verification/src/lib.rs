//! The decisions of a boot program for AArch64 machines, apart from the
//! machine itself.
//!
//! The heart of the crate is the management of physical memory: the range
//! list of available and reserved regions (`range_list_allocator`), the
//! buddy allocator that takes its blocks from it (`buddy_allocator`), and
//! the front that sends each request to one of the two (`allocator`). What
//! holds of them across calls is proved in `accounting`, `round_trip` and
//! `buddy_round_trip`.
//!
//! Around it stand the readers of what the boot program is given — the
//! device tree (`dtb`, `dtb_walk`, `dtb_reserved`), ELF files and kernel
//! images (`elf`, `linux_image`), the partitions and the FAT32 volume of a
//! disk (`filesystem`, `fat_names`) — and the rules of its devices
//! (`typestate`, `pl011`, `virtio`, `virtio_blk`, `mutex`).
pub mod accounting;
pub mod allocator;
pub mod buddy_allocator;
pub mod buddy_round_trip;
pub mod bump_allocator;
pub mod dtb;
pub mod dtb_reserved;
pub mod dtb_walk;
pub mod elf;
pub mod error;
pub mod fat_names;
pub mod filesystem;
pub mod intrusive_linked_list;
pub mod layout;
pub mod linux_image;
pub mod mutex;
pub mod pl011;
pub mod range_list_allocator;
pub mod region;
pub mod round_trip;
pub mod search;
pub mod typestate;
pub mod virtio;
pub mod virtio_blk;
