//! Forensic scanning of a process memory dump.
//!
//! An address space is built from the bytes of a dump and the listing of its
//! sections: interval maps find the section of an address, a page index tells
//! whether an address lies on a mapped page, and typed reads honour the byte
//! order of the process. Three scanners go through the writable regions of
//! the address space: one for blocks of bytes between two patterns, one for
//! words that point into mapped memory, one for allocator page headers. A
//! driver schedules the scans of the regions for whoever runs them in
//! parallel.

pub mod buffer;
pub mod commands;
pub mod data_interface;
pub mod driver;
pub mod endian;
pub mod hex;
pub mod luapage;
pub mod memory;
pub mod ordered;
pub mod pointer;
pub mod pointers;
pub mod radare;
pub mod regexblock;
pub mod search;
pub mod sifter;
