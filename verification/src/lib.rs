//! The verified core of a small bare-metal kernel.
//!
//! Its centre is the heap allocator of `linked_list`: a first-fit free list
//! over one fixed address range that splits regions on demand and never
//! merges them. `fit` says what a request is given and where it fits,
//! `region` and `align` hold the arithmetic of address ranges, and
//! `guarantees` states what holds of the allocator over whole runs. Beside
//! it stand the choice of physical frames from the boot memory map
//! (`memory`) and the numbering of hardware interrupts (`interrupts`).
//!
//! The library computes on addresses and never touches the memory behind
//! them: mapping the heap, locking the allocator and handing pointers to
//! the rest of the kernel are the caller's part.

pub mod align;
pub mod fit;
pub mod guarantees;
pub mod interrupts;
pub mod linked_list;
pub mod memory;
pub mod region;
