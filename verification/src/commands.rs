//! The deferred command buffer: structural mutations queued by the per-frame
//! systems and applied at the frame's synchronization point, so no system
//! observes a half-mutated registry.

use crate::world::{has_id, ids_below, ids_sorted, Marker, World, WorldModel};
use vstd::prelude::*;

verus! {

/// One deferred structural mutation.
#[derive(Clone, Copy, Debug)]
pub enum Command {
    /// Spawn a fresh marked entity with no texture handle.
    SpawnMarker,
    /// Destroy the marked entity with this identifier, and its children.
    Despawn(u64),
    /// Attach this texture handle to the marked entity with this identifier.
    InsertTexture(u64, usize),
}

/// The markers left after despawning the one with identifier `id`; a marker
/// that was despawned earlier in the same queue is simply absent already.
pub open spec fn remove_marker(ms: Seq<Marker>, id: u64) -> Seq<Marker>
    decreases ms.len(),
{
    if ms.len() == 0 {
        Seq::empty()
    } else if ms.last().id == id {
        remove_marker(ms.drop_last(), id)
    } else {
        remove_marker(ms.drop_last(), id).push(ms.last())
    }
}

/// The markers with the texture handle `h` attached to the one carrying
/// identifier `id`; attaching to an absent identifier changes nothing (a
/// stale attach for a despawned entity is discarded).
pub open spec fn attach_texture(ms: Seq<Marker>, id: u64, h: usize) -> Seq<Marker>
    decreases ms.len(),
{
    if ms.len() == 0 {
        Seq::empty()
    } else {
        let m = ms.last();
        let m2 = if m.id == id {
            Marker { id: m.id, texture: Some(h) }
        } else {
            m
        };
        attach_texture(ms.drop_last(), id, h).push(m2)
    }
}

/// One command applied to the registry model. A spawn consumes the next
/// fresh identifier.
pub open spec fn apply_one(w: WorldModel, c: Command) -> WorldModel {
    match c {
        Command::SpawnMarker => WorldModel {
            next_id: w.next_id + 1,
            cameras: w.cameras,
            markers: w.markers.push(Marker { id: w.next_id as u64, texture: None }),
        },
        Command::Despawn(id) => WorldModel {
            next_id: w.next_id,
            cameras: w.cameras,
            markers: remove_marker(w.markers, id),
        },
        Command::InsertTexture(id, h) => WorldModel {
            next_id: w.next_id,
            cameras: w.cameras,
            markers: attach_texture(w.markers, id, h),
        },
    }
}

/// A whole queue applied in order.
pub open spec fn apply_model(w: WorldModel, cs: Seq<Command>) -> WorldModel
    decreases cs.len(),
{
    if cs.len() == 0 {
        w
    } else {
        apply_one(apply_model(w, cs.drop_last()), cs.last())
    }
}

/// Attaching keeps the length and the identifiers, arms exactly the markers
/// carrying `id`, and leaves every other marker untouched.
pub proof fn lemma_attach_pointwise(ms: Seq<Marker>, id: u64, h: usize)
    ensures
        attach_texture(ms, id, h).len() == ms.len(),
        forall|i: int|
            0 <= i < ms.len() ==> #[trigger] attach_texture(ms, id, h)[i] == (if ms[i].id == id {
                Marker { id: ms[i].id, texture: Some(h) }
            } else {
                ms[i]
            }),
    decreases ms.len(),
{
    if ms.len() > 0 {
        lemma_attach_pointwise(ms.drop_last(), id, h);
        assert forall|i: int| 0 <= i < ms.len() implies #[trigger] attach_texture(ms, id, h)[i]
            == (if ms[i].id == id {
            Marker { id: ms[i].id, texture: Some(h) }
        } else {
            ms[i]
        }) by {
            if i < ms.len() - 1 {
                assert(ms.drop_last()[i] == ms[i]);
                assert(attach_texture(ms, id, h)[i] == attach_texture(ms.drop_last(), id, h)[i]);
            }
        }
    }
}

/// Despawning keeps only markers whose identifier differs from `id`, keeps
/// them as they were and in order, and invents none: every survivor was
/// present before.
pub proof fn lemma_remove_props(ms: Seq<Marker>, id: u64)
    ensures
        remove_marker(ms, id).len() <= ms.len(),
        forall|i: int|
            0 <= i < remove_marker(ms, id).len() ==> (#[trigger] remove_marker(ms, id)[i]).id
                != id,
        forall|i: int|
            0 <= i < remove_marker(ms, id).len() ==> exists|j: int|
                0 <= j < ms.len() && ms[j] == #[trigger] remove_marker(ms, id)[i],
        ids_sorted(ms) ==> ids_sorted(remove_marker(ms, id)),
        forall|b: int| ids_below(ms, b) ==> ids_below(remove_marker(ms, id), b),
        !has_id(ms, id) ==> remove_marker(ms, id) == ms,
    decreases ms.len(),
{
    let rm = remove_marker(ms, id);
    if ms.len() == 0 {
        assert(rm =~= ms);
    } else {
        let dl = ms.drop_last();
        lemma_remove_props(dl, id);
        assert forall|i: int|
            0 <= i < rm.len() implies exists|j: int|
            0 <= j < ms.len() && ms[j] == #[trigger] rm[i] by {
            if ms.last().id == id || i < rm.len() - 1 {
                let j = choose|j: int| 0 <= j < dl.len() && dl[j] == remove_marker(dl, id)[i];
                assert(ms[j] == rm[i]);
            } else {
                assert(ms[ms.len() - 1] == rm[i]);
            }
        }
        if ids_sorted(ms) {
            assert forall|i: int, j: int|
                0 <= i < j < rm.len() implies (#[trigger] rm[i]).id < (#[trigger] rm[j]).id by {
                if !(ms.last().id == id) && j == rm.len() - 1 {
                    let k = choose|k: int| 0 <= k < dl.len() && dl[k] == remove_marker(dl, id)[i];
                    assert(ms[k].id < ms[ms.len() - 1].id);
                }
            }
        }
        assert forall|b: int| ids_below(ms, b) implies ids_below(rm, b) by {
            assert forall|i: int| 0 <= i < rm.len() implies (#[trigger] rm[i]).id < b by {
                if !(ms.last().id == id) && i == rm.len() - 1 {
                    assert(ms[ms.len() - 1].id < b);
                } else {
                    assert(ids_below(dl, b));
                }
            }
        }
        if !has_id(ms, id) {
            assert(ms.last().id != id);
            assert(!has_id(dl, id)) by {
                if has_id(dl, id) {
                    let k = choose|k: int| 0 <= k < dl.len() && (#[trigger] dl[k]).id == id;
                    assert(ms[k].id == id);
                }
            }
            assert(rm =~= ms);
        }
    }
}

/// One command keeps the registry sane, never steps the fresh-identifier
/// counter back, keeps the camera count, and never resurrects an identifier:
/// every marker after the command either was live before or is the freshly
/// spawned one.
pub proof fn lemma_apply_one_wf(w: WorldModel, c: Command)
    requires
        w.wf(),
        c is SpawnMarker ==> w.next_id < u64::MAX,
    ensures
        apply_one(w, c).wf(),
        w.next_id <= apply_one(w, c).next_id <= w.next_id + 1,
        apply_one(w, c).cameras == w.cameras,
        forall|i: int|
            0 <= i < apply_one(w, c).markers.len() ==> has_id(
                w.markers,
                (#[trigger] apply_one(w, c).markers[i]).id,
            ) || apply_one(w, c).markers[i].id >= w.next_id,
{
    let w2 = apply_one(w, c);
    match c {
        Command::SpawnMarker => {
            assert forall|i: int| 0 <= i < w2.markers.len() implies has_id(
                w.markers,
                (#[trigger] w2.markers[i]).id,
            ) || w2.markers[i].id >= w.next_id by {
                if i < w.markers.len() {
                    assert(w.markers[i].id == w2.markers[i].id);
                }
            }
        },
        Command::Despawn(id) => {
            lemma_remove_props(w.markers, id);
            assert forall|i: int| 0 <= i < w2.markers.len() implies has_id(
                w.markers,
                (#[trigger] w2.markers[i]).id,
            ) || w2.markers[i].id >= w.next_id by {
                let j = choose|j: int| 0 <= j < w.markers.len() && w.markers[j] == w2.markers[i];
                assert(w.markers[j].id == w2.markers[i].id);
            }
        },
        Command::InsertTexture(id, h) => {
            lemma_attach_pointwise(w.markers, id, h);
            assert forall|i: int| 0 <= i < w2.markers.len() implies has_id(
                w.markers,
                (#[trigger] w2.markers[i]).id,
            ) || w2.markers[i].id >= w.next_id by {
                assert(w.markers[i].id == w2.markers[i].id);
            }
            assert(ids_sorted(w2.markers));
            assert(ids_below(w2.markers, w2.next_id));
        },
    }
}

/// A whole queue keeps the registry sane, moves the fresh-identifier counter
/// forward by at most one per command, keeps the camera count, and never
/// resurrects an identifier.
pub proof fn lemma_apply_model_wf(w: WorldModel, cs: Seq<Command>)
    requires
        w.wf(),
        w.next_id + cs.len() <= u64::MAX,
    ensures
        apply_model(w, cs).wf(),
        w.next_id <= apply_model(w, cs).next_id <= w.next_id + cs.len(),
        apply_model(w, cs).cameras == w.cameras,
        forall|i: int|
            0 <= i < apply_model(w, cs).markers.len() ==> has_id(
                w.markers,
                (#[trigger] apply_model(w, cs).markers[i]).id,
            ) || apply_model(w, cs).markers[i].id >= w.next_id,
    decreases cs.len(),
{
    if cs.len() > 0 {
        let w1 = apply_model(w, cs.drop_last());
        let w2 = apply_model(w, cs);
        lemma_apply_model_wf(w, cs.drop_last());
        lemma_apply_one_wf(w1, cs.last());
        assert forall|i: int| 0 <= i < w2.markers.len() implies has_id(
            w.markers,
            (#[trigger] w2.markers[i]).id,
        ) || w2.markers[i].id >= w.next_id by {
            if has_id(w1.markers, w2.markers[i].id) {
                let j = choose|j: int|
                    0 <= j < w1.markers.len() && (#[trigger] w1.markers[j]).id
                        == w2.markers[i].id;
            }
        }
    }
}

/// Queues drain compositionally: applying a concatenation applies the two
/// halves in turn.
pub proof fn lemma_apply_model_app(w: WorldModel, a: Seq<Command>, b: Seq<Command>)
    ensures
        apply_model(w, a + b) == apply_model(apply_model(w, a), b),
    decreases b.len(),
{
    if b.len() == 0 {
        assert(a + b =~= a);
    } else {
        lemma_apply_model_app(w, a, b.drop_last());
        assert((a + b).drop_last() =~= a + b.drop_last());
        assert((a + b).last() == b.last());
    }
}

/// Despawning an identifier that only the front half holds leaves the back
/// half untouched.
pub proof fn lemma_remove_concat(a: Seq<Marker>, b: Seq<Marker>, id: u64)
    requires
        !has_id(b, id),
    ensures
        remove_marker(a + b, id) == remove_marker(a, id) + b,
    decreases b.len(),
{
    if b.len() == 0 {
        assert(a + b =~= a);
        assert(remove_marker(a, id) + b =~= remove_marker(a, id));
    } else {
        assert(!has_id(b.drop_last(), id)) by {
            if has_id(b.drop_last(), id) {
                let k = choose|k: int|
                    0 <= k < b.drop_last().len() && (#[trigger] b.drop_last()[k]).id == id;
                assert(b[k].id == id);
            }
        }
        lemma_remove_concat(a, b.drop_last(), id);
        assert((a + b).drop_last() =~= a + b.drop_last());
        assert((a + b).last() == b.last());
        assert(b.last().id != id) by {
            assert(b[b.len() - 1] == b.last());
        }
        assert(remove_marker(a + b, id) =~= remove_marker(a, id) + b);
    }
}

/// Applies one deferred command to the world.
pub fn apply_command(w: &mut World, c: &Command)
    requires
        *c is SpawnMarker ==> old(w)@.next_id < u64::MAX,
    ensures
        final(w)@ == apply_one(old(w)@, *c),
{
    match *c {
        Command::SpawnMarker => {
            let id = w.next_id;
            w.markers.push(Marker { id, texture: None });
            w.next_id = w.next_id + 1;
            proof {
                assert(w@ =~= apply_one(old(w)@, *c));
            }
        },
        Command::Despawn(id) => {
            let ghost ms = w.markers@;
            let n = w.markers.len();
            let mut out: Vec<Marker> = Vec::new();
            let mut i: usize = 0;
            while i < n
                invariant
                    w.next_id == old(w).next_id,
                    w.cameras == old(w).cameras,
                    w.markers@ == ms,
                    n == ms.len(),
                    i <= n,
                    out@ == remove_marker(ms.take(i as int), id),
                decreases n - i,
            {
                let m = w.markers[i];
                proof {
                    assert(ms.take(i + 1).drop_last() =~= ms.take(i as int));
                    assert(ms.take(i + 1).last() == ms[i as int]);
                }
                if m.id != id {
                    out.push(m);
                }
                i += 1;
            }
            proof {
                assert(ms.take(n as int) =~= ms);
            }
            w.markers = out;
            proof {
                assert(w@ =~= apply_one(old(w)@, *c));
            }
        },
        Command::InsertTexture(id, h) => {
            let ghost ms = w.markers@;
            let n = w.markers.len();
            let mut out: Vec<Marker> = Vec::new();
            let mut i: usize = 0;
            while i < n
                invariant
                    w.next_id == old(w).next_id,
                    w.cameras == old(w).cameras,
                    w.markers@ == ms,
                    n == ms.len(),
                    i <= n,
                    out@ == attach_texture(ms.take(i as int), id, h),
                decreases n - i,
            {
                let m = w.markers[i];
                proof {
                    assert(ms.take(i + 1).drop_last() =~= ms.take(i as int));
                    assert(ms.take(i + 1).last() == ms[i as int]);
                }
                if m.id == id {
                    out.push(Marker { id: m.id, texture: Some(h) });
                } else {
                    out.push(m);
                }
                i += 1;
            }
            proof {
                assert(ms.take(n as int) =~= ms);
            }
            w.markers = out;
            proof {
                assert(w@ =~= apply_one(old(w)@, *c));
            }
        },
    }
}

/// Drains a whole queue into the world, in order: the frame's
/// synchronization point.
pub fn apply_commands(w: &mut World, cmds: &Vec<Command>)
    requires
        old(w)@.wf(),
        old(w)@.next_id + cmds@.len() <= u64::MAX,
    ensures
        final(w)@ == apply_model(old(w)@, cmds@),
        final(w)@.wf(),
{
    let n = cmds.len();
    let mut i: usize = 0;
    while i < n
        invariant
            old(w)@.wf(),
            old(w)@.next_id + n <= u64::MAX,
            n == cmds@.len(),
            i <= n,
            w@ == apply_model(old(w)@, cmds@.take(i as int)),
        decreases n - i,
    {
        proof {
            lemma_apply_model_wf(old(w)@, cmds@.take(i as int));
            assert(cmds@.take(i + 1).drop_last() =~= cmds@.take(i as int));
            assert(cmds@.take(i + 1).last() == cmds@[i as int]);
        }
        apply_command(w, &cmds[i]);
        i += 1;
    }
    proof {
        assert(cmds@.take(n as int) =~= cmds@);
        lemma_apply_model_wf(old(w)@, cmds@);
    }
}

} // verus!
