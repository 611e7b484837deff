//! The entity registry model: marked ("reloadable sprite") entities keyed by
//! a fresh, never-reused identifier, plus a camera count.

use vstd::prelude::*;

verus! {

/// One live marked entity: its identifier and, once the populator has armed
/// it, the handle of its requested texture.
#[derive(Clone, Copy, Debug)]
pub struct Marker {
    pub id: u64,
    pub texture: Option<usize>,
}

/// The mathematical model of the entity registry: the next fresh identifier,
/// the number of camera entities, and the live marked entities in spawn
/// order. Only the marked entities' identities are tracked; the camera and
/// the UI nodes carry no state the demo logic reads.
#[verifier::ext_equal]
pub ghost struct WorldModel {
    pub next_id: int,
    pub cameras: int,
    pub markers: Seq<Marker>,
}

/// Identifiers strictly increase in spawn order, so no two markers share
/// one.
pub open spec fn ids_sorted(ms: Seq<Marker>) -> bool {
    forall|i: int, j: int|
        0 <= i < j < ms.len() ==> (#[trigger] ms[i]).id < (#[trigger] ms[j]).id
}

/// Every marker's identifier lies below the bound.
pub open spec fn ids_below(ms: Seq<Marker>, bound: int) -> bool {
    forall|i: int| 0 <= i < ms.len() ==> (#[trigger] ms[i]).id < bound
}

/// Whether some marker carries the given identifier.
pub open spec fn has_id(ms: Seq<Marker>, id: u64) -> bool {
    exists|i: int| 0 <= i < ms.len() && (#[trigger] ms[i]).id == id
}

impl WorldModel {
    /// Registry sanity: identifiers fit the machine word, strictly increase
    /// in spawn order (so no two live entities share one), and stay below
    /// the next fresh identifier (so an identifier is never handed out
    /// twice).
    pub open spec fn wf(self) -> bool {
        &&& 0 <= self.next_id <= u64::MAX
        &&& ids_below(self.markers, self.next_id)
        &&& ids_sorted(self.markers)
    }
}

/// The executable entity registry the systems run against.
pub struct World {
    pub next_id: u64,
    pub cameras: u64,
    pub markers: Vec<Marker>,
}

impl View for World {
    type V = WorldModel;

    open spec fn view(&self) -> WorldModel {
        WorldModel {
            next_id: self.next_id as int,
            cameras: self.cameras as int,
            markers: self.markers@,
        }
    }
}

impl World {
    /// The empty registry, before startup has run.
    pub fn new() -> (w: World)
        ensures
            w@.next_id == 0,
            w@.cameras == 0,
            w@.markers == Seq::<Marker>::empty(),
            w@.wf(),
    {
        World { next_id: 0, cameras: 0, markers: Vec::new() }
    }
}

/// The markers that do not yet carry a texture handle, in order.
pub open spec fn handleless(ms: Seq<Marker>) -> Seq<Marker>
    decreases ms.len(),
{
    if ms.len() == 0 {
        Seq::empty()
    } else if ms.last().texture is None {
        handleless(ms.drop_last()).push(ms.last())
    } else {
        handleless(ms.drop_last())
    }
}

/// The markers that already carry a texture handle, in order.
pub open spec fn textured(ms: Seq<Marker>) -> Seq<Marker>
    decreases ms.len(),
{
    if ms.len() == 0 {
        Seq::empty()
    } else if ms.last().texture is Some {
        textured(ms.drop_last()).push(ms.last())
    } else {
        textured(ms.drop_last())
    }
}

/// Whether some marker still lacks a texture handle.
pub open spec fn any_handleless(ms: Seq<Marker>) -> bool {
    exists|i: int| 0 <= i < ms.len() && (#[trigger] ms[i]).texture is None
}

} // verus!
