//! Graphs in compressed sparse row form: a builder from edge lists, scans and
//! breadth-first traversal over the built structure, a binary image of the
//! structure, and a read-only graph that answers the same queries straight
//! from such an image.
//!
//! - `edges`: edge lists, their groups by source, and the counting sort.
//! - `csr`: the in-memory structure, its builder, its scans and its image.
//! - `bfs`, `reach`: breadth-first order, walks and reachability.
//! - `image`, `fast_csr`: the binary layout and the graph read from it.
//! - `text`: edge lists from delimited text.
//! - `laws`: what holds across these functions.
//! - `vertex`, `adjacency`, `graph`: the boxed adjacency list and the
//!   weighted structure.
//! - `parallel`, `visited`, `cells`, `random`, `words`: the calls into other
//!   crates, each with the contract that the rest relies on.

use vstd::prelude::*;

pub mod edges;
pub mod csr;
pub mod bfs;
pub mod reach;
pub mod image;
pub mod fast_csr;
pub mod text;
pub mod laws;
pub mod vertex;
pub mod adjacency;
pub mod graph;
pub mod parallel;
pub mod visited;
pub mod cells;
pub mod random;
pub mod words;

verus! {

/// What a vertex value must offer: a total order and a printable form.
pub trait VtxTrait: Ord + std::fmt::Debug + std::fmt::Display {}

impl<T> VtxTrait for T where T: Ord + std::fmt::Debug + std::fmt::Display {}

} // verus!
