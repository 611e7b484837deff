//! The process-wide asset registry: a handle-to-status mapping, keyed by the
//! requested path. A load request for a path already requested returns the
//! existing handle; a fresh request allocates the next handle with status
//! "loading". Resolution (loaded or failed) is reported from outside by the
//! asset-loading collaborator; the demo logic only ever reads status.

use crate::status::LoadStatus;
use vstd::prelude::*;

verus! {

/// One issued load: the requested path and its current status.
#[derive(Debug)]
pub struct LoadSlot {
    pub path: String,
    pub status: LoadStatus,
}

/// The registry of issued loads. A handle is an index into `slots`.
#[derive(Debug)]
pub struct AssetRegistry {
    pub slots: Vec<LoadSlot>,
}

impl AssetRegistry {
    /// Registry sanity: one slot per path, so a handle identifies a load
    /// uniquely.
    pub open spec fn wf(self) -> bool {
        forall|i: int, j: int|
            0 <= i < j < self.slots@.len() ==> (#[trigger] self.slots@[i]).path@ != (
            #[trigger] self.slots@[j]).path@
    }

    /// Whether some slot already holds a load for this path.
    pub open spec fn has_path(self, p: Seq<char>) -> bool {
        exists|i: int| 0 <= i < self.slots@.len() && (#[trigger] self.slots@[i]).path@ == p
    }

    /// The status the registry reports for a handle: the slot's status, or
    /// "not loaded" for a handle it never issued.
    pub open spec fn status_of(self, h: int) -> LoadStatus {
        if 0 <= h < self.slots@.len() {
            self.slots@[h].status
        } else {
            LoadStatus::NotLoaded
        }
    }

    /// The empty registry.
    pub fn new() -> (r: AssetRegistry)
        ensures
            r.slots@ == Seq::<LoadSlot>::empty(),
            r.wf(),
    {
        AssetRegistry { slots: Vec::new() }
    }

    /// How many loads have been issued.
    pub fn len(&self) -> (n: usize)
        ensures
            n == self.slots@.len(),
    {
        self.slots.len()
    }

    /// Issues an asynchronous load-by-path request. A path already requested
    /// keeps its slot and handle untouched; a new path gains one slot with
    /// status "loading". Either way the returned handle names a slot holding
    /// this path.
    pub fn request_load(&mut self, path: &str) -> (h: usize)
        requires
            old(self).wf(),
        ensures
            final(self).wf(),
            h < final(self).slots@.len(),
            final(self).slots@[h as int].path@ == path@,
            old(self).has_path(path@) ==> *final(self) == *old(self),
            !old(self).has_path(path@) ==> {
                &&& final(self).slots@.len() == old(self).slots@.len() + 1
                &&& h == old(self).slots@.len()
                &&& forall|i: int|
                    0 <= i < old(self).slots@.len() ==> final(self).slots@[i] == old(
                        self,
                    ).slots@[i]
                &&& final(self).slots@[h as int].status == LoadStatus::Loading
            },
    {
        let n = self.slots.len();
        let p = String::from_str(path);
        let mut i: usize = 0;
        while i < n
            invariant
                *self == *old(self),
                self.wf(),
                n == self.slots@.len(),
                p@ == path@,
                forall|j: int| 0 <= j < i ==> (#[trigger] self.slots@[j]).path@ != path@,
            decreases n - i,
        {
            if self.slots[i].path == p {
                return i;
            }
            i += 1;
        }
        assert(!self.has_path(path@));
        self.slots.push(LoadSlot { path: p, status: LoadStatus::Loading });
        n
    }

    /// Reads the status for a handle, as the reporter does each frame.
    pub fn get_load_state(&self, h: usize) -> (s: LoadStatus)
        ensures
            s == self.status_of(h as int),
    {
        if h < self.slots.len() {
            self.slots[h].status
        } else {
            LoadStatus::NotLoaded
        }
    }

    /// Records the outcome of one in-flight load, as observed from the
    /// asset-loading collaborator: a pending load resolves to "loaded" or
    /// "failed"; nothing else about the registry changes.
    pub fn resolve(&mut self, h: usize, outcome: LoadStatus)
        requires
            old(self).wf(),
            h < old(self).slots@.len(),
            old(self).slots@[h as int].status == LoadStatus::Loading,
            outcome == LoadStatus::Loaded || outcome == LoadStatus::Failed,
        ensures
            final(self).wf(),
            final(self).slots@.len() == old(self).slots@.len(),
            final(self).slots@[h as int].path@ == old(self).slots@[h as int].path@,
            final(self).slots@[h as int].status == outcome,
            forall|i: int|
                0 <= i < old(self).slots@.len() && i != h ==> final(self).slots@[i] == old(
                    self,
                ).slots@[i],
    {
        let slot = self.slots.remove(h);
        self.slots.insert(h, LoadSlot { path: slot.path, status: outcome });
        proof {
            assert forall|i: int|
                0 <= i < old(self).slots@.len() && i != h implies #[trigger] self.slots@[i] == old(
                self,
            ).slots@[i] by {
                assert(self.slots@[i] == old(self).slots@.remove(h as int).insert(
                    h as int,
                    self.slots@[h as int],
                )[i]);
            }
        }
    }
}

} // verus!
