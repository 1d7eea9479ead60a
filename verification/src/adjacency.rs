use vstd::prelude::*;
use crate::VtxTrait;
use crate::vertex::Vertex;

verus! {

/// A graph as a list of boxed vertices, each with its own neighbour list.
/// Vertex identifiers are handed out in order, one for each slot.
#[derive(Debug)]
pub struct Graph<T: VtxTrait> {
    vtxs: Vec<Box<Vertex<T>>>,
    next_vtx: u64,
}

impl<T: VtxTrait> Graph<T> {
    /// The vertex slots, by identifier.
    pub closed spec fn slots(&self) -> Seq<Vertex<T>> {
        Seq::new(self.vtxs@.len(), |i: int| *self.vtxs@[i])
    }

    /// The identifier that the next slot gets is the number of slots.
    pub closed spec fn wf(&self) -> bool {
        self.next_vtx == self.vtxs@.len()
    }

    /// A graph without vertices.
    pub fn new() -> (g: Graph<T>)
        ensures
            g.wf(),
            g.slots().len() == 0,
    {
        Graph { vtxs: Vec::new(), next_vtx: 0 }
    }

    /// The number of slots.
    pub fn num_slots(&self) -> (n: usize)
        ensures
            n == self.slots().len(),
    {
        self.vtxs.len()
    }

    /// The vertex in slot `ind`.
    pub fn get_vtx(&self, ind: usize) -> (v: &Vertex<T>)
        requires
            ind < self.slots().len(),
        ensures
            *v == self.slots()[ind as int],
    {
        &*self.vtxs[ind]
    }

    /// Adds a slot and initialises the slot `ind` with the value `v`; a slot
    /// that was initialised before keeps what it holds.
    pub fn add_vtx(&mut self, ind: u64, v: T)
        requires
            old(self).wf(),
            old(self).slots().len() < u64::MAX,
            ind <= old(self).slots().len(),
        ensures
            final(self).wf(),
            final(self).slots().len() == old(self).slots().len() + 1,
            forall|i: int|
                0 <= i < old(self).slots().len() && i != ind ==> final(self).slots()[i] == old(self).slots()[i],
            ind < old(self).slots().len() && old(self).slots()[ind as int] is V ==> final(self).slots()[ind as int] == old(self).slots()[ind as int],
            ind == old(self).slots().len() || old(self).slots()[ind as int] is Empty ==> {
                let s = final(self).slots()[ind as int];
                s is V && s->id == ind && s->val == v && s->neigh@.len() == 0
            },
            ind != old(self).slots().len() ==> final(self).slots().last() is Empty,
    {
        self.create_vtx();
        self.init_vtx(ind, v);
    }

    /// Appends `nei` to the neighbours of the vertex `ind`; an empty slot
    /// stays empty.
    pub fn add_edge(&mut self, ind: u64, nei: u64)
        requires
            old(self).wf(),
            ind < old(self).slots().len(),
        ensures
            final(self).wf(),
            final(self).slots().len() == old(self).slots().len(),
            forall|i: int|
                0 <= i < old(self).slots().len() && i != ind ==> final(self).slots()[i] == old(self).slots()[i],
            final(self).slots()[ind as int].neighbours() == if old(self).slots()[ind as int] is V {
                old(self).slots()[ind as int].neighbours().push(nei)
            } else {
                old(self).slots()[ind as int].neighbours()
            },
            old(self).slots()[ind as int] is Empty <==> final(self).slots()[ind as int] is Empty,
    {
        let n: usize = self.vtxs.len();
        let slot: &mut Box<Vertex<T>> = &mut self.vtxs[ind as usize];
        (**slot).add_neigh(nei);
        proof {
            assert(final(self).slots().len() == old(self).slots().len());
        }
    }

    /// Initialises the slot `ind` with its identifier and the value `v`; an
    /// initialised slot keeps what it holds.
    pub fn init_vtx(&mut self, ind: u64, v: T)
        requires
            old(self).wf(),
            ind < old(self).slots().len(),
        ensures
            final(self).wf(),
            final(self).slots().len() == old(self).slots().len(),
            forall|i: int|
                0 <= i < old(self).slots().len() && i != ind ==> final(self).slots()[i] == old(self).slots()[i],
            old(self).slots()[ind as int] is V ==> final(self).slots()[ind as int] == old(self).slots()[ind as int],
            old(self).slots()[ind as int] is Empty ==> {
                let s = final(self).slots()[ind as int];
                s is V && s->id == ind && s->val == v && s->neigh@.len() == 0
            },
    {
        let n: usize = self.vtxs.len();
        let slot: &mut Box<Vertex<T>> = &mut self.vtxs[ind as usize];
        (**slot).init(ind, v);
        proof {
            assert(final(self).slots().len() == old(self).slots().len());
        }
    }

    /// Adds an empty slot at the end; its identifier is the number of slots
    /// before.
    pub fn create_vtx(&mut self)
        requires
            old(self).wf(),
            old(self).slots().len() < u64::MAX,
        ensures
            final(self).wf(),
            final(self).slots() == old(self).slots().push(Vertex::Empty),
    {
        let n: usize = self.vtxs.len();
        let next_id: u64 = self.next_vtx;
        self.next_vtx = self.next_vtx + 1;
        self.vtxs.insert(next_id as usize, Box::new(Vertex::Empty));
        proof {
            assert(final(self).slots() =~= old(self).slots().push(Vertex::Empty));
        }
    }
}

} // verus!
