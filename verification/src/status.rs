//! The status map: one status per node, keyed by node index.
use crate::model::GNodeStatus;
use std::collections::HashMap;
use vstd::prelude::*;

verus! {

broadcast use vstd::std_specs::hash::group_hash_axioms;

/// The statuses of the nodes `0 .. len`. The map holds an entry for each of
/// these nodes and for nothing else.
pub struct StatusMap {
    map: HashMap<usize, GNodeStatus>,
    size: usize,
}

impl View for StatusMap {
    type V = Seq<GNodeStatus>;

    closed spec fn view(&self) -> Seq<GNodeStatus> {
        Seq::new(self.size as nat, |i: int| self.map@[i as usize])
    }
}

impl StatusMap {
    /// The map holds exactly one entry per node.
    pub closed spec fn wf(&self) -> bool {
        &&& self.map@.dom().finite()
        &&& self.map@.len() == self.size
        &&& forall|k: usize| self.map@.contains_key(k) <==> k < self.size
    }

    /// The number of entries that the map holds.
    pub closed spec fn entry_total(&self) -> nat {
        self.map@.len()
    }

    /// The number of entries equals the number of nodes.
    pub proof fn lemma_one_entry_per_node(&self)
        requires
            self.wf(),
        ensures
            self.entry_total() == self@.len(),
    {
    }

    pub fn new() -> (m: StatusMap)
        ensures
            m.wf(),
            m@ =~= Seq::<GNodeStatus>::empty(),
    {
        let m = StatusMap { map: HashMap::new(), size: 0 };
        proof {
            assert(m.map@.len() == 0);
        }
        m
    }

    /// The number of nodes that have a status.
    pub fn len(&self) -> (n: usize)
        ensures
            n == self@.len(),
    {
        self.size
    }

    /// The number of entries in the map.
    pub fn entries(&self) -> (n: usize)
        requires
            self.wf(),
        ensures
            n == self.entry_total(),
            n == self@.len(),
    {
        self.map.len()
    }

    /// The status of node `i`.
    pub fn get(&self, i: usize) -> (st: GNodeStatus)
        requires
            self.wf(),
            i < self@.len(),
        ensures
            st == self@[i as int],
    {
        match self.map.get(&i) {
            Some(st) => *st,
            None => GNodeStatus::Initial,
        }
    }

    /// Gives node `i` a new status.
    pub fn set(&mut self, i: usize, st: GNodeStatus)
        requires
            old(self).wf(),
            i < old(self)@.len(),
        ensures
            final(self).wf(),
            final(self)@ == old(self)@.update(i as int, st),
    {
        self.map.insert(i, st);
        proof {
            assert(self.map@.dom() =~= old(self).map@.dom());
            assert(self@ =~= old(self)@.update(i as int, st));
        }
    }

    /// Adds the status of one more node.
    pub fn push(&mut self, st: GNodeStatus)
        requires
            old(self).wf(),
            old(self)@.len() < usize::MAX,
        ensures
            final(self).wf(),
            final(self)@ == old(self)@.push(st),
    {
        self.map.insert(self.size, st);
        self.size = self.size + 1;
        proof {
            assert(self@ =~= old(self)@.push(st));
        }
    }
}

} // verus!
