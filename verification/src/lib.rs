//! Memory that all compute units of one machine share: pinned blocks, and allocators over
//! them.
//!
//! A [`Block`] is a surface that is created and locked once, and so has a stable address for
//! its whole life. A [`Tape`] hands out bytes of a block one after the other and is cleared as
//! a whole. A [`Grid`] hands out cells of one size, which are given back one by one. A
//! [`Layout`] is three tapes for the weights, the scratch space and the history of an
//! inference.
//!
//! The library asks nothing of the system itself: opening a block, setting up a layout,
//! connecting to a driver and walking the regions of an address space are state machines that
//! say what to ask next and take the answer. Addresses are plain numbers here.
//!
//! The other modules hold the logic of the probes that examine such memory: the names of
//! status codes, test patterns, page and region surveys, and the statistics of measurements.

pub mod align;
pub mod block;
pub mod codes;
pub mod dext;
pub mod error;
pub mod grid;
pub mod head;
pub mod hv;
pub mod laws;
pub mod layout;
pub mod measure;
pub mod pages;
pub mod pattern;
pub mod probe_laws;
pub mod queue;
pub mod regions;
pub mod tape;
pub mod text;

pub use block::Block;
pub use error::MemError;
pub use grid::{Cell, Grid};
pub use layout::{Layout, Stat};
pub use tape::Tape;
