//! A growable contiguous sequence whose length, capacity and alignment are
//! tracked beside its elements, with the layout arithmetic it is built on.

pub mod layout;
pub mod minivec;

pub use layout::{make_layout, max_align, next_aligned, next_capacity, Header, Layout};
pub use minivec::{LayoutErr, MiniVec};
