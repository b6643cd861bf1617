//! Virtual-memory management core of a bare-metal kernel, modelled as
//! verified data structures: a two-level page-table mapper with huge-page
//! support, the physical-frame allocator that feeds it, the identity-mapping
//! policy built on top, and the early-boot bootstrap table builder.
//!
//! - [`addr`] holds the hardware entry layout and flag-word arithmetic;
//! - [`page`] and [`page_table`] the aligned address units and the
//!   fixed-size table of packed entries;
//! - [`frame_mapping`] the physical-to-virtual capability through which
//!   tables are reached;
//! - [`mapper`] the generic map / unmap / update-flags / translate
//!   operations;
//! - [`frame_alloc`] the boot-map-fed frame allocator;
//! - [`memory`] the identity-mapping policy;
//! - [`bootinfo`] the boot-supplied structures;
//! - [`bootstrap`] the early-boot table builder.

pub mod addr;
pub mod page;
pub mod page_table;
pub mod bootinfo;
pub mod frame_alloc;
pub mod frame_mapping;
pub mod mapper;
pub mod memory;
pub mod bootstrap;
