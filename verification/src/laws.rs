//! The library's laws, proved over the model: what a populator pass, a
//! reload, and the button's edge semantics guarantee, beyond the systems'
//! own contracts.

use crate::commands::{
    apply_model, apply_one, lemma_apply_one_wf, lemma_attach_pointwise, Command,
};
use crate::status::{status_label_spec, LoadStatus};
use crate::systems::{lemma_populate_empty, populate_cmds, reload_cmds};
use crate::ui::{spec_pressed_edge, Interaction};
use crate::world::{any_handleless, handleless, has_id, Marker, WorldModel};
use vstd::prelude::*;

verus! {

/// Whether the generator sequence holds a handleless marker with this
/// identifier.
spec fn gen_arms(gen: Seq<Marker>, id: u64) -> bool {
    exists|j: int|
        0 <= j < gen.len() && (#[trigger] gen[j]).id == id && gen[j].texture is None
}

/// Applying the populator's queue for generator `gen` to any world arms
/// exactly the markers whose identifier `gen` lists as handleless, and
/// touches nothing else.
proof fn lemma_apply_inserts(w: WorldModel, gen: Seq<Marker>, h: usize)
    ensures
        ({
            let w2 = apply_model(w, populate_cmds(gen, h));
            &&& w2.next_id == w.next_id
            &&& w2.cameras == w.cameras
            &&& w2.markers.len() == w.markers.len()
            &&& forall|i: int|
                0 <= i < w.markers.len() ==> #[trigger] w2.markers[i] == (if gen_arms(
                    gen,
                    w.markers[i].id,
                ) {
                    Marker { id: w.markers[i].id, texture: Some(h) }
                } else {
                    w.markers[i]
                })
        }),
    decreases gen.len(),
{
    let w2 = apply_model(w, populate_cmds(gen, h));
    if gen.len() == 0 {
        assert forall|i: int| 0 <= i < w.markers.len() implies !gen_arms(
            gen,
            (#[trigger] w.markers[i]).id,
        ) by {}
    } else {
        let gdl = gen.drop_last();
        let last = gen.last();
        lemma_apply_inserts(w, gdl, h);
        let w1 = apply_model(w, populate_cmds(gdl, h));
        if last.texture is None {
            let c = Command::InsertTexture(last.id, h);
            assert(populate_cmds(gen, h) == populate_cmds(gdl, h).push(c));
            assert(populate_cmds(gen, h).drop_last() =~= populate_cmds(gdl, h));
            assert(w2 == apply_one(w1, c));
            lemma_attach_pointwise(w1.markers, last.id, h);
            assert forall|i: int| 0 <= i < w.markers.len() implies #[trigger] w2.markers[i] == (
            if gen_arms(gen, w.markers[i].id) {
                Marker { id: w.markers[i].id, texture: Some(h) }
            } else {
                w.markers[i]
            }) by {
                if w.markers[i].id == last.id {
                    assert(gen[gen.len() - 1].id == w.markers[i].id && gen[gen.len() - 1].texture
                        is None);
                    assert(gen_arms(gen, w.markers[i].id));
                } else {
                    if gen_arms(gen, w.markers[i].id) {
                        let j = choose|j: int|
                            0 <= j < gen.len() && (#[trigger] gen[j]).id == w.markers[i].id
                                && gen[j].texture is None;
                        assert(gdl[j] == gen[j]);
                        assert(gen_arms(gdl, w.markers[i].id));
                    }
                    if gen_arms(gdl, w.markers[i].id) {
                        let j = choose|j: int|
                            0 <= j < gdl.len() && (#[trigger] gdl[j]).id == w.markers[i].id
                                && gdl[j].texture is None;
                        assert(gen[j] == gdl[j]);
                        assert(gen_arms(gen, w.markers[i].id));
                    }
                }
            }
        } else {
            assert(populate_cmds(gen, h) == populate_cmds(gdl, h));
            assert forall|i: int| 0 <= i < w.markers.len() implies #[trigger] w2.markers[i] == (
            if gen_arms(gen, w.markers[i].id) {
                Marker { id: w.markers[i].id, texture: Some(h) }
            } else {
                w.markers[i]
            }) by {
                if gen_arms(gen, w.markers[i].id) {
                    let j = choose|j: int|
                        0 <= j < gen.len() && (#[trigger] gen[j]).id == w.markers[i].id && gen[j].texture
                            is None;
                    assert(j != gen.len() - 1);
                    assert(gdl[j] == gen[j]);
                    assert(gen_arms(gdl, w.markers[i].id));
                }
                if gen_arms(gdl, w.markers[i].id) {
                    let j = choose|j: int|
                        0 <= j < gdl.len() && (#[trigger] gdl[j]).id == w.markers[i].id && gdl[j].texture
                            is None;
                    assert(gen[j] == gdl[j]);
                    assert(gen_arms(gen, w.markers[i].id));
                }
            }
        }
    }
}

/// Every marker lacking a handle gains exactly one load request by the next
/// frame: after the populator's queue drains, each previously handleless
/// marker carries the handle, each armed marker is untouched, identifiers
/// and their order are unchanged, and the queue held exactly one attach per
/// handleless marker.
pub proof fn lemma_populator_arms_every_marker(w: WorldModel, h: usize)
    requires
        w.wf(),
    ensures
        ({
            let w2 = apply_model(w, populate_cmds(w.markers, h));
            &&& w2.next_id == w.next_id
            &&& w2.cameras == w.cameras
            &&& w2.markers.len() == w.markers.len()
            &&& forall|i: int|
                0 <= i < w.markers.len() ==> (#[trigger] w2.markers[i]).id == w.markers[i].id
            &&& forall|i: int|
                0 <= i < w.markers.len() && (#[trigger] w.markers[i]).texture is None
                    ==> w2.markers[i].texture == Some(h)
            &&& forall|i: int|
                0 <= i < w.markers.len() && (#[trigger] w.markers[i]).texture is Some
                    ==> w2.markers[i] == w.markers[i]
        }),
        populate_cmds(w.markers, h).len() == handleless(w.markers).len(),
{
    lemma_apply_inserts(w, w.markers, h);
    let w2 = apply_model(w, populate_cmds(w.markers, h));
    assert forall|i: int|
        0 <= i < w.markers.len() && (#[trigger] w.markers[i]).texture is Some implies w2.markers[i]
        == w.markers[i] by {
        if gen_arms(w.markers, w.markers[i].id) {
            let j = choose|j: int|
                0 <= j < w.markers.len() && (#[trigger] w.markers[j]).id == w.markers[i].id
                    && w.markers[j].texture is None;
            assert(j != i);
            if j < i {
                assert(w.markers[j].id < w.markers[i].id);
            } else {
                assert(w.markers[i].id < w.markers[j].id);
            }
        }
    }
    assert forall|i: int|
        0 <= i < w.markers.len() && (#[trigger] w.markers[i]).texture is None implies w2.markers[i].texture
        == Some(h) by {
        assert(gen_arms(w.markers, w.markers[i].id));
    }
    lemma_populate_count(w.markers, h);
}

/// The populator's queue holds exactly one command per handleless marker.
proof fn lemma_populate_count(ms: Seq<Marker>, h: usize)
    ensures
        populate_cmds(ms, h).len() == handleless(ms).len(),
    decreases ms.len(),
{
    if ms.len() > 0 {
        lemma_populate_count(ms.drop_last(), h);
    }
}

/// Idempotence: once every marker carries a handle, a populator pass queues
/// nothing and changes nothing — the query excludes armed markers by
/// construction.
pub proof fn lemma_populator_idempotent(w: WorldModel, h: usize)
    requires
        !any_handleless(w.markers),
    ensures
        populate_cmds(w.markers, h) == Seq::<Command>::empty(),
        apply_model(w, populate_cmds(w.markers, h)) == w,
{
    lemma_populate_empty(w.markers, h);
}

/// Reload is destructive and recreative: from one live marker, draining the
/// trigger's queue leaves exactly one fresh marker with no handle, whose
/// identifier no marker ever carried — identifiers are never reused.
pub proof fn lemma_reload_recreates(w: WorldModel)
    requires
        w.wf(),
        w.markers.len() == 1,
        w.next_id < u64::MAX,
    ensures
        ({
            let w2 = apply_model(w, reload_cmds(w.markers));
            &&& w2.markers.len() == 1
            &&& w2.markers[0].texture is None
            &&& w2.markers[0].id as int == w.next_id
            &&& w2.markers[0].id != w.markers[0].id
            &&& !has_id(w.markers, w2.markers[0].id)
            &&& w2.next_id == w.next_id + 1
            &&& w2.wf()
        }),
{
    let ms = w.markers;
    let id0 = ms[0].id;
    let cs = reload_cmds(ms);
    assert(ms.drop_last().len() == 0);
    assert(reload_cmds(ms.drop_last()) == Seq::<Command>::empty());
    assert(cs =~= seq![Command::Despawn(id0), Command::SpawnMarker]);
    let w1 = apply_model(w, cs.drop_last());
    assert(cs.drop_last() =~= seq![Command::Despawn(id0)]);
    assert(cs.drop_last().drop_last() =~= Seq::<Command>::empty());
    assert(apply_model(w, cs.drop_last().drop_last()) == w);
    lemma_apply_one_wf(w, Command::Despawn(id0));
    assert(w1 == apply_one(w, Command::Despawn(id0)));
    assert(ms.drop_last() =~= Seq::<Marker>::empty());
    assert(ms.last().id == id0);
    assert(crate::commands::remove_marker(ms.drop_last(), id0) =~= Seq::<Marker>::empty());
    assert(crate::commands::remove_marker(ms, id0) =~= Seq::<Marker>::empty());
    let w2 = apply_model(w, cs);
    assert(w2 == apply_one(w1, Command::SpawnMarker));
    assert(w2.markers =~= Seq::<Marker>::empty().push(
        Marker { id: w1.next_id as u64, texture: None },
    ));
    lemma_apply_one_wf(w1, Command::SpawnMarker);
    assert(!has_id(ms, w2.markers[0].id)) by {
        if has_id(ms, w2.markers[0].id) {
            let k = choose|k: int| 0 <= k < ms.len() && (#[trigger] ms[k]).id == w2.markers[0].id;
            assert(ms[k].id < w.next_id);
        }
    }
}

/// The markers left after despawning every identifier the trigger saw.
spec fn removed_all(ms: Seq<Marker>, gen: Seq<Marker>) -> Seq<Marker>
    decreases gen.len(),
{
    if gen.len() == 0 {
        ms
    } else {
        crate::commands::remove_marker(removed_all(ms, gen.drop_last()), gen.last().id)
    }
}

/// Whether the generator sequence lists this identifier at all.
spec fn gen_has_id(gen: Seq<Marker>, id: u64) -> bool {
    exists|j: int| 0 <= j < gen.len() && (#[trigger] gen[j]).id == id
}

/// Survivors of the despawn sweep were present before and carry none of the
/// despawned identifiers.
proof fn lemma_removed_all_props(ms: Seq<Marker>, gen: Seq<Marker>)
    ensures
        forall|i: int|
            0 <= i < removed_all(ms, gen).len() ==> !gen_has_id(
                gen,
                (#[trigger] removed_all(ms, gen)[i]).id,
            ) && exists|j: int| 0 <= j < ms.len() && ms[j] == removed_all(ms, gen)[i],
    decreases gen.len(),
{
    let rm = removed_all(ms, gen);
    if gen.len() == 0 {
        assert forall|i: int| 0 <= i < rm.len() implies !gen_has_id(
            gen,
            (#[trigger] rm[i]).id,
        ) && exists|j: int| 0 <= j < ms.len() && ms[j] == rm[i] by {
            assert(ms[i] == rm[i]);
        }
    } else {
        let gdl = gen.drop_last();
        let prev = removed_all(ms, gdl);
        lemma_removed_all_props(ms, gdl);
        crate::commands::lemma_remove_props(prev, gen.last().id);
        assert forall|i: int| 0 <= i < rm.len() implies !gen_has_id(
            gen,
            (#[trigger] rm[i]).id,
        ) && exists|j: int| 0 <= j < ms.len() && ms[j] == rm[i] by {
            let k = choose|k: int| 0 <= k < prev.len() && prev[k] == rm[i];
            assert(!gen_has_id(gdl, prev[k].id));
            if gen_has_id(gen, rm[i].id) {
                let j = choose|j: int| 0 <= j < gen.len() && (#[trigger] gen[j]).id == rm[i].id;
                assert(j != gen.len() - 1);
                assert(gdl[j] == gen[j]);
                assert(gen_has_id(gdl, rm[i].id));
            }
        }
    }
}

/// Draining the trigger's queue for generator `gen` despawns exactly the
/// markers carrying `gen`'s identifiers and appends one fresh handleless
/// marker per `gen` entry, with consecutive fresh identifiers.
proof fn lemma_apply_reload(w: WorldModel, gen: Seq<Marker>)
    requires
        crate::world::ids_below(gen, w.next_id),
        w.next_id + gen.len() <= u64::MAX,
        0 <= w.next_id,
    ensures
        ({
            let w2 = apply_model(w, reload_cmds(gen));
            let survivors = removed_all(w.markers, gen);
            &&& w2.next_id == w.next_id + gen.len()
            &&& w2.cameras == w.cameras
            &&& w2.markers.len() == survivors.len() + gen.len()
            &&& forall|i: int| 0 <= i < survivors.len() ==> #[trigger] w2.markers[i] == survivors[i]
            &&& forall|k: int|
                0 <= k < gen.len() ==> #[trigger] w2.markers[survivors.len() + k] == Marker {
                    id: (w.next_id + k) as u64,
                    texture: None,
                }
        }),
    decreases gen.len(),
{
    let w2 = apply_model(w, reload_cmds(gen));
    if gen.len() == 0 {
    } else {
        let gdl = gen.drop_last();
        let g = gen.last();
        assert(crate::world::ids_below(gdl, w.next_id)) by {
            assert forall|i: int| 0 <= i < gdl.len() implies (#[trigger] gdl[i]).id < w.next_id by {
                assert(gen[i] == gdl[i]);
            }
        }
        lemma_apply_reload(w, gdl);
        let w1 = apply_model(w, reload_cmds(gdl));
        let pair = seq![Command::Despawn(g.id), Command::SpawnMarker];
        crate::commands::lemma_apply_model_app(w, reload_cmds(gdl), pair);
        assert(w2 == apply_model(w1, pair));
        let s1 = pair.drop_last();
        assert(s1.drop_last() =~= Seq::<Command>::empty());
        assert(apply_model(w1, s1.drop_last()) == w1);
        assert(s1.last() == Command::Despawn(g.id));
        assert(s1.len() == 1);
        assert(apply_model(w1, s1) == apply_one(w1, Command::Despawn(g.id)));
        let wd = apply_one(w1, Command::Despawn(g.id));
        assert(pair.last() == Command::SpawnMarker);
        assert(w2 == apply_one(wd, Command::SpawnMarker));
        let survivors_dl = removed_all(w.markers, gdl);
        let fr = Seq::new(gdl.len(), |k: int| Marker { id: (w.next_id + k) as u64, texture: None });
        assert forall|i: int| 0 <= i < w1.markers.len() implies #[trigger] w1.markers[i] == (
        survivors_dl + fr)[i] by {
            if i < survivors_dl.len() {
                assert(w1.markers[i] == survivors_dl[i]);
            } else {
                let k = i - survivors_dl.len();
                assert(w1.markers[survivors_dl.len() + k] == Marker {
                    id: (w.next_id + k) as u64,
                    texture: None,
                });
            }
        }
        assert(w1.markers =~= survivors_dl + fr);
        assert(!crate::world::has_id(fr, g.id)) by {
            assert(gen[gen.len() - 1] == g);
            assert(g.id < w.next_id);
            if crate::world::has_id(fr, g.id) {
                let k = choose|k: int| 0 <= k < fr.len() && (#[trigger] fr[k]).id == g.id;
                assert(fr[k].id as int == w.next_id + k);
            }
        }
        crate::commands::lemma_remove_concat(survivors_dl, fr, g.id);
        assert(wd.markers == removed_all(w.markers, gen) + fr);
        let survivors = removed_all(w.markers, gen);
        assert(w2.markers =~= survivors + fr.push(
            Marker { id: (w.next_id + gdl.len()) as u64, texture: None },
        ));
        assert forall|k: int| 0 <= k < gen.len() implies #[trigger] w2.markers[survivors.len() + k]
            == Marker { id: (w.next_id + k) as u64, texture: None } by {
            if k < gdl.len() {
                assert(w2.markers[survivors.len() + k] == fr[k]);
            }
        }
    }
}

/// Reload over any number of live markers: draining the trigger's queue
/// despawns every one of them and leaves exactly as many fresh markers, all
/// without a handle, with consecutive identifiers never carried by any
/// marker before — identifiers are never reused, however many markers the
/// trigger swept.
pub proof fn lemma_reload_recreates_all(w: WorldModel)
    requires
        w.wf(),
        w.next_id + w.markers.len() <= u64::MAX,
    ensures
        ({
            let w2 = apply_model(w, reload_cmds(w.markers));
            &&& w2.next_id == w.next_id + w.markers.len()
            &&& w2.cameras == w.cameras
            &&& w2.markers.len() == w.markers.len()
            &&& forall|k: int|
                0 <= k < w.markers.len() ==> #[trigger] w2.markers[k] == Marker {
                    id: (w.next_id + k) as u64,
                    texture: None,
                }
            &&& forall|k: int|
                0 <= k < w2.markers.len() ==> !has_id(w.markers, (#[trigger] w2.markers[k]).id)
            &&& w2.wf()
        }),
{
    let ms = w.markers;
    lemma_apply_reload(w, ms);
    lemma_removed_all_props(ms, ms);
    let survivors = removed_all(ms, ms);
    assert(survivors.len() == 0) by {
        if survivors.len() > 0 {
            let j = choose|j: int| 0 <= j < ms.len() && ms[j] == survivors[0];
            assert(gen_has_id(ms, ms[j].id));
        }
    }
    let w2 = apply_model(w, reload_cmds(ms));
    assert forall|k: int| 0 <= k < ms.len() implies #[trigger] w2.markers[k] == Marker {
        id: (w.next_id + k) as u64,
        texture: None,
    } by {
        assert(w2.markers[survivors.len() + k] == Marker {
            id: (w.next_id + k) as u64,
            texture: None,
        });
    }
    assert forall|k: int| 0 <= k < w2.markers.len() implies !has_id(
        ms,
        (#[trigger] w2.markers[k]).id,
    ) by {
        assert(w2.markers[k] == Marker { id: (w.next_id + k) as u64, texture: None });
        if has_id(ms, w2.markers[k].id) {
            let j = choose|j: int| 0 <= j < ms.len() && (#[trigger] ms[j]).id == w2.markers[k].id;
            assert(ms[j].id < w.next_id);
        }
    }
    assert forall|i: int, j: int|
        0 <= i < j < w2.markers.len() implies (#[trigger] w2.markers[i]).id < (
    #[trigger] w2.markers[j]).id by {
        assert(w2.markers[i].id as int == w.next_id + i);
        assert(w2.markers[j].id as int == w.next_id + j);
    }
    assert(crate::world::ids_sorted(w2.markers));
    assert(crate::world::ids_below(w2.markers, w2.next_id)) by {
        assert forall|i: int| 0 <= i < w2.markers.len() implies (#[trigger] w2.markers[i]).id
            < w2.next_id by {
            assert(w2.markers[i].id as int == w.next_id + i);
        }
    }
}

/// Button level-versus-edge semantics: holding the button pressed across
/// frames yields an edge at most at the first pressed frame; every later
/// frame sees "pressed" both before and after, which is no edge, so at most
/// one reload triggers.
pub proof fn lemma_held_button_single_edge(states: Seq<Interaction>, k: int)
    requires
        0 <= k < states.len(),
        forall|j: int| k <= j < states.len() ==> #[trigger] states[j] == Interaction::Pressed,
    ensures
        forall|j: int|
            k < j < states.len() ==> !#[trigger] spec_pressed_edge(states[j - 1], states[j]),
{
    assert forall|j: int| k < j < states.len() implies !#[trigger] spec_pressed_edge(
        states[j - 1],
        states[j],
    ) by {
        assert(states[j - 1] == Interaction::Pressed);
    }
}

/// The rendered status text determines the status: the four labels are
/// pairwise distinct, so text equal to a state's label means the registry
/// reported exactly that state.
pub proof fn lemma_status_label_injective(a: LoadStatus, b: LoadStatus)
    ensures
        status_label_spec(a) == status_label_spec(b) ==> a == b,
{
    reveal_strlit("NotLoaded");
    reveal_strlit("Loading");
    reveal_strlit("Loaded");
    reveal_strlit("Failed");
    assert(status_label_spec(LoadStatus::NotLoaded).len() == 9);
    assert(status_label_spec(LoadStatus::Loading).len() == 7);
    assert(status_label_spec(LoadStatus::Loaded).len() == 6);
    assert(status_label_spec(LoadStatus::Failed).len() == 6);
    assert(status_label_spec(LoadStatus::Loaded)[0] == 'L');
    assert(status_label_spec(LoadStatus::Failed)[0] == 'F');
}

} // verus!
