//! A binary heap (priority queue) whose priority order is fixed by a comparator
//! chosen at construction.
pub mod heap;
pub mod laws;
pub mod order;

pub use heap::{Heap, MaxHeap, MinHeap};
pub use order::{Comparator, MaxOrder, MinOrder};
