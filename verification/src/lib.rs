//! A page-table manipulation core: raw, scheme-parameterized models of
//! virtual/physical page numbers, page-table entries and leveled tables,
//! together with a generic visitor-driven walk over multi-level tables.
//!
//! The crate never owns the physical frames a table lives in and never talks
//! to the hardware: callers hand in entry arrays, the library reads, checks
//! and rewrites them under verified contracts.

pub mod addr;
pub mod flags;
pub mod meta;
pub mod page_table;
pub mod pos;
pub mod pte;
pub mod riscv;
pub mod shuttle;
pub mod visit;

pub use addr::{MaybeInvalidPPN, PageNumber, Physical, Space, VAddr, Virtual, PPN, VPN};
pub use flags::VmFlags;
pub use meta::pt_level_bits;
pub use meta::MmuMeta;
pub use page_table::{EntryError, PageTable, PtQuery};
pub use pos::Pos;
pub use pte::Pte;
pub use riscv::{Sv, Sv39, Sv48, Sv57};
pub use shuttle::{PageTableShuttle, Step};
pub use visit::{Decorator, Update, Visitor};
