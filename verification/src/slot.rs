//! Resource slots: the typed, named input/output positions of a node, and the
//! indexed table of optionally-resolved handles a node reads and publishes
//! during `update`.

use vstd::prelude::*;

use vstd::pervasive::VecAdditionalExecFns;

use crate::resource::{RenderResourceId, RenderResourceType};

verus! {

/// Static metadata describing one named input or output of a node.
/// Declared per node type and immutable after node construction.
#[derive(Clone, Debug)]
pub struct ResourceSlotInfo {
    pub name: String,
    pub resource_type: RenderResourceType,
}

/// An indexed table mapping slot index to an optional resolved resource
/// handle, index-aligned with the owning node's declared slot metadata.
#[derive(Clone, Debug)]
pub struct ResourceSlots {
    slots: Vec<Option<RenderResourceId>>,
}

impl View for ResourceSlots {
    type V = Seq<Option<RenderResourceId>>;

    closed spec fn view(&self) -> Seq<Option<RenderResourceId>> {
        self.slots@
    }
}

impl ResourceSlots {
    /// What a read of `index` yields: the stored handle in range, absent
    /// outside the table.
    pub open spec fn get_spec(self, index: int) -> Option<RenderResourceId> {
        if 0 <= index < self@.len() {
            self@[index]
        } else {
            None
        }
    }

    /// A fresh table of `len` unresolved slots.
    pub fn new(len: usize) -> (r: Self)
        ensures
            r@.len() == len,
            forall|i: int| 0 <= i < len ==> r@[i] is None,
    {
        let mut slots: Vec<Option<RenderResourceId>> = Vec::new();
        let mut i: usize = 0;
        while i < len
            invariant
                i <= len,
                slots@.len() == i,
                forall|j: int| 0 <= j < i ==> slots@[j] is None,
            decreases len - i,
        {
            slots.push(None);
            i = i + 1;
        }
        ResourceSlots { slots }
    }

    /// Number of slots in the table.
    pub fn len(&self) -> (r: usize)
        ensures
            r == self@.len(),
    {
        self.slots.len()
    }

    /// Read slot `index`; out-of-range reads are absent, not an error.
    pub fn get(&self, index: usize) -> (r: Option<RenderResourceId>)
        ensures
            r == self.get_spec(index as int),
    {
        if index < self.slots.len() {
            self.slots[index]
        } else {
            None
        }
    }

    /// Overwrite slot `index` unconditionally.  Writing out of range is a
    /// programming error — slot counts are fixed by the node's declaration —
    /// so the caller must stay in range.
    pub fn set(&mut self, index: usize, resource: RenderResourceId)
        requires
            index < old(self)@.len(),
        ensures
            final(self)@ == old(self)@.update(index as int, Some(resource)),
    {
        self.slots.set(index, Some(resource));
    }
}

} // verus!
