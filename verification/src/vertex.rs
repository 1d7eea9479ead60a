use vstd::prelude::*;
use crate::VtxTrait;

verus! {

/// A vertex of the boxed adjacency-list graph: either a slot that has not been
/// initialised yet, or an identifier, a value and the identifiers of its
/// out-neighbours in insertion order.
#[derive(Debug)]
pub enum Vertex<T: VtxTrait> {
    V { id: u64, val: T, neigh: Vec<Box<u64>> },
    Empty,
}

impl<T: VtxTrait> Vertex<T> {
    /// The out-neighbours of a vertex in insertion order; an empty slot has none.
    pub open spec fn neighbours(&self) -> Seq<u64> {
        match self {
            Vertex::V { neigh, .. } => Seq::new(neigh@.len(), |i: int| *neigh@[i]),
            Vertex::Empty => Seq::empty(),
        }
    }

    /// The value of a vertex, if the slot has been initialised.
    pub open spec fn value(&self) -> Option<T> {
        match self {
            Vertex::V { val, .. } => Some(*val),
            Vertex::Empty => None,
        }
    }

    /// Initialises an empty slot with an identifier and a value and no
    /// neighbours; an initialised vertex is left as it is.
    pub fn init(&mut self, new_id: u64, nv: T)
        ensures
            *old(self) is Empty ==> *final(self) is V && final(self)->id == new_id && final(self)->val
                == nv && final(self)->neigh@.len() == 0,
            *old(self) is V ==> *final(self) == *old(self),
    {
        match self {
            Vertex::V { .. } => {},
            Vertex::Empty => {
                *self = Vertex::V { id: new_id, val: nv, neigh: Vec::new() };
            },
        }
    }

    /// Appends a neighbour to an initialised vertex; an empty slot stays empty.
    pub fn add_neigh(&mut self, n_id: u64)
        ensures
            *old(self) is Empty ==> *final(self) is Empty,
            *old(self) is V ==> *final(self) is V && final(self)->id == old(self)->id && final(self)->val
                == old(self)->val,
            final(self).neighbours() == if *old(self) is V {
                old(self).neighbours().push(n_id)
            } else {
                old(self).neighbours()
            },
    {
        match self {
            Vertex::V { neigh, .. } => {
                neigh.push(Box::new(n_id));
            },
            Vertex::Empty => {},
        }
        proof {
            assert(final(self).neighbours() =~= if *old(self) is V {
                old(self).neighbours().push(n_id)
            } else {
                old(self).neighbours()
            });
        }
    }

    /// Replaces the value of an initialised vertex; an empty slot stays empty.
    pub fn set_val(&mut self, nv: T)
        ensures
            *old(self) is Empty ==> *final(self) is Empty,
            *old(self) is V ==> *final(self) is V && final(self)->id == old(self)->id && final(self)->val
                == nv && final(self)->neigh == old(self)->neigh,
    {
        match self {
            Vertex::V { val, .. } => {
                *val = nv;
            },
            Vertex::Empty => {},
        }
    }

    /// Takes the value out of the vertex: `None` for an empty slot.
    pub fn get_val(self) -> (r: Option<T>)
        ensures
            r == self.value(),
    {
        match self {
            Vertex::V { val, .. } => Some(val),
            Vertex::Empty => None,
        }
    }
}

} // verus!
