//! Managed-memory core of a small stack-machine virtual machine for
//! severely memory-constrained targets: a fixed-capacity bump-allocated
//! heap, three kinds of object handles, a precise mark-compact garbage
//! collector, and the interpreter's stack-frame object laid out inside
//! the same heap.

pub mod avrora;
pub mod gc;
pub mod heap;
pub mod jvm;
