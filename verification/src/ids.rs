//! Identifiers for the blocks that branches lead to.
//!
//! The first block that the pass discovers gets 0, the next one 1, and so
//! on. The table is viewed as the sequence of addresses in the order of
//! their discovery: the identifier of a block is the position of its address
//! in that sequence.

use crate::ir::Block;
use std::collections::HashMap;
use vstd::prelude::*;
use vstd::std_specs::hash::*;

verus! {

broadcast use vstd::std_specs::hash::group_hash_axioms;

/// Where `address` stands in `order`. Meaningful when it occurs there.
pub open spec fn position_of(order: Seq<u64>, address: u64) -> int {
    choose|i: int| 0 <= i < order.len() && order[i] == address
}

/// What looking up `address` answers, and what the order of discovery is
/// afterwards: a known address keeps its identifier, a new one is appended
/// and numbered by the count of addresses before it.
pub open spec fn resolve(order: Seq<u64>, address: u64) -> (u64, bool, Seq<u64>) {
    if order.contains(address) {
        (position_of(order, address) as u64, true, order)
    } else {
        (order.len() as u64, false, order.push(address))
    }
}

/// The blocks discovered so far, each with its identifier.
pub struct BlockIds {
    ids: HashMap<u64, u64>,
    next: u64,
    order: Ghost<Seq<u64>>,
}

impl View for BlockIds {
    type V = Seq<u64>;

    closed spec fn view(&self) -> Seq<u64> {
        self.order@
    }
}

impl BlockIds {
    /// The map and the counter agree with the order of discovery.
    pub closed spec fn wf(&self) -> bool {
        &&& self.next == self.order@.len()
        &&& self.ids@.len() == self.order@.len()
        &&& forall|i: int|
            0 <= i < self.order@.len() ==> self.ids@.contains_key(#[trigger] self.order@[i])
                && self.ids@[self.order@[i]] == i
        &&& forall|k: u64| #[trigger]
            self.ids@.contains_key(k) ==> self.ids@[k] < self.order@.len()
                && self.order@[self.ids@[k] as int] == k
    }

    /// No address is discovered twice, and each identifier fits in 64 bits.
    pub proof fn lemma_distinct(&self)
        requires
            self.wf(),
        ensures
            self@.no_duplicates(),
            self@.len() <= u64::MAX,
    {
    }

    pub fn new() -> (ids: BlockIds)
        ensures
            ids.wf(),
            ids@ == Seq::<u64>::empty(),
    {
        let ids = BlockIds { ids: HashMap::new(), next: 0, order: Ghost(Seq::empty()) };
        assert(ids.ids@.len() == 0);
        ids
    }

    /// The number of blocks discovered.
    pub fn len(&self) -> (count: u64)
        requires
            self.wf(),
        ensures
            count == self@.len(),
    {
        self.next
    }

    /// The identifier of the block at `address`, where it was discovered.
    pub fn lookup(&self, address: u64) -> (id: Option<u64>)
        requires
            self.wf(),
        ensures
            id is Some <==> self@.contains(address),
            id matches Some(known) ==> known == position_of(self@, address),
    {
        match self.ids.get(&address) {
            Some(known) => {
                proof {
                    let at = *known as int;
                    assert(self.order@[at] == address);
                    let chosen = position_of(self@, address);
                    assert(self.ids@[self.order@[chosen]] == chosen);
                }
                Some(*known)
            },
            None => {
                proof {
                    if self@.contains(address) {
                        let at = choose|i: int| 0 <= i < self@.len() && self@[i] == address;
                        assert(self.ids@.contains_key(self.order@[at]));
                    }
                }
                None
            },
        }
    }
}

/// Resolves the identifier of `block`. The answer is the identifier and
/// whether the block was known already; a block that was not is recorded
/// under the next free identifier.
pub fn get_block_id(block: &Block, ids: &mut BlockIds) -> (found: (u64, bool))
    requires
        old(ids).wf(),
    ensures
        final(ids).wf(),
        (found.0, found.1, final(ids)@) == resolve(old(ids)@, block.address),
{
    let address = block.address;
    match ids.lookup(address) {
        Some(known) => (known, true),
        None => {
            let id = ids.next;
            ids.ids.insert(address, id);
            let count = ids.ids.len();
            ids.next = id + 1;
            ids.order = Ghost(ids.order@.push(address));
            proof {
                let before = old(ids).order@;
                let after = ids.order@;
                assert forall|i: int| 0 <= i < after.len() implies ids.ids@.contains_key(
                    #[trigger] after[i],
                ) && ids.ids@[after[i]] == i by {
                    if i < before.len() {
                        assert(old(ids).ids@.contains_key(before[i]));
                    }
                }
                assert forall|k: u64| #[trigger] ids.ids@.contains_key(k) implies ids.ids@[k]
                    < after.len() && after[ids.ids@[k] as int] == k by {
                    if k != address {
                        assert(old(ids).ids@.contains_key(k));
                    }
                }
            }
            (id, false)
        },
    }
}

} // verus!
