//! The per-frame systems: startup spawning, texture population, status
//! reporting, and the edge-triggered reload, plus one whole frame composed
//! of them with its synchronization point.

use crate::assets::AssetRegistry;
use crate::commands::{apply_commands, apply_model, Command};
use crate::decimal::{dec_seq, u64_to_decimal};
use crate::status::{status_label, status_label_spec};
use crate::ui::{pressed_edge, spec_pressed_edge, InfoText, Interaction};
use crate::world::{any_handleless, ids_sorted, textured, Marker, World};
use vstd::prelude::*;

verus! {

/// The fixed path of the one texture this demo loads.
pub open spec fn icon_path() -> Seq<char> {
    "icon.png"@
}

/// The attach commands the populator queues: one per marker still lacking a
/// texture handle, in order, all naming the same handle `h` (a repeated
/// request for the fixed path returns the same handle).
pub open spec fn populate_cmds(ms: Seq<Marker>, h: usize) -> Seq<Command>
    decreases ms.len(),
{
    if ms.len() == 0 {
        Seq::empty()
    } else if ms.last().texture is None {
        populate_cmds(ms.drop_last(), h).push(Command::InsertTexture(ms.last().id, h))
    } else {
        populate_cmds(ms.drop_last(), h)
    }
}

/// The commands the reload trigger queues: for each live marker, despawn it
/// and spawn a fresh replacement.
pub open spec fn reload_cmds(ms: Seq<Marker>) -> Seq<Command>
    decreases ms.len(),
{
    if ms.len() == 0 {
        Seq::empty()
    } else {
        reload_cmds(ms.drop_last()) + seq![
            Command::Despawn(ms.last().id),
            Command::SpawnMarker,
        ]
    }
}

/// The populator queues exactly one attach per handleless marker.
pub proof fn lemma_populate_cmds_len(ms: Seq<Marker>, h: usize)
    ensures
        populate_cmds(ms, h).len() <= ms.len(),
    decreases ms.len(),
{
    if ms.len() > 0 {
        lemma_populate_cmds_len(ms.drop_last(), h);
    }
}

/// The reload trigger queues exactly two commands per live marker.
pub proof fn lemma_reload_cmds_len(ms: Seq<Marker>)
    ensures
        reload_cmds(ms).len() == 2 * ms.len(),
    decreases ms.len(),
{
    if ms.len() > 0 {
        lemma_reload_cmds_len(ms.drop_last());
    }
}

/// Startup: spawn one camera entity and one marked entity with no attached
/// visual resource, and build the UI surface (the six-section info text; the
/// reload button's state arrives as per-frame input). On the empty registry
/// this leaves exactly one marked entity, and it has no texture handle.
pub fn setup(w: &mut World) -> (t: InfoText)
    requires
        old(w)@.wf(),
        old(w)@.next_id < u64::MAX,
        old(w)@.cameras < u64::MAX,
    ensures
        final(w)@.wf(),
        final(w)@.cameras == old(w)@.cameras + 1,
        final(w)@.next_id == old(w)@.next_id + 1,
        final(w)@.markers == old(w)@.markers.push(
            Marker { id: old(w).next_id, texture: None },
        ),
        old(w)@.markers.len() == 0 ==> (final(w)@.markers.len() == 1
            && final(w)@.markers[0].texture is None),
        t.wf(),
        t.sections@[1]@ == Seq::<char>::empty(),
        t.sections@[3]@ == Seq::<char>::empty(),
        t.sections@[5]@ == Seq::<char>::empty(),
{
    w.cameras = w.cameras + 1;
    let id = w.next_id;
    w.markers.push(Marker { id, texture: None });
    w.next_id = w.next_id + 1;
    proof {
        assert forall|i: int, j: int|
            0 <= i < j < w@.markers.len() implies (#[trigger] w@.markers[i]).id < (
        #[trigger] w@.markers[j]).id by {
            if j < w@.markers.len() - 1 {
                assert(old(w)@.markers[i] == w@.markers[i]);
                assert(old(w)@.markers[j] == w@.markers[j]);
            } else {
                assert(old(w)@.markers[i] == w@.markers[i]);
            }
        }
        assert(ids_sorted(w@.markers));
    }
    InfoText::new()
}

/// The texture populator: for every marked entity that does not yet carry a
/// texture handle, issue a load-by-path request for the fixed path and queue
/// the returned handle for attachment. A marker that already has a handle is
/// excluded by construction, so re-running the populator on it is a no-op
/// and a given entity never issues a second request.
pub fn populate_sprites(w: &World, reg: &mut AssetRegistry) -> (cmds: Vec<Command>)
    requires
        old(reg).wf(),
    ensures
        final(reg).wf(),
        !any_handleless(w@.markers) ==> (*final(reg) == *old(reg) && cmds@ == Seq::<
            Command,
        >::empty()),
        any_handleless(w@.markers) ==> {
            &&& old(reg).has_path(icon_path()) ==> *final(reg) == *old(reg)
            &&& !old(reg).has_path(icon_path()) ==> {
                &&& final(reg).slots@.len() == old(reg).slots@.len() + 1
                &&& forall|i: int|
                    0 <= i < old(reg).slots@.len() ==> final(reg).slots@[i] == old(
                        reg,
                    ).slots@[i]
                &&& final(reg).slots@.last().path@ == icon_path()
                &&& final(reg).slots@.last().status == crate::status::LoadStatus::Loading
            }
            &&& exists|h: usize|
                {
                    &&& h < final(reg).slots@.len()
                    &&& final(reg).slots@[h as int].path@ == icon_path()
                    &&& cmds@ == #[trigger] populate_cmds(w@.markers, h)
                }
        },
{
    let ghost ms = w.markers@;
    let mut cmds: Vec<Command> = Vec::new();
    let ghost mut gh: usize = 0usize;
    let n = w.markers.len();
    let mut i: usize = 0;
    while i < n
        invariant
            ms == w.markers@,
            n == ms.len(),
            i <= n,
            reg.wf(),
            old(reg).wf(),
            !any_handleless(ms.take(i as int)) ==> (*reg == *old(reg) && cmds@ == Seq::<
                Command,
            >::empty()),
            any_handleless(ms.take(i as int)) ==> {
                &&& old(reg).has_path(icon_path()) ==> *reg == *old(reg)
                &&& !old(reg).has_path(icon_path()) ==> {
                    &&& reg.slots@.len() == old(reg).slots@.len() + 1
                    &&& forall|k: int|
                        0 <= k < old(reg).slots@.len() ==> reg.slots@[k] == old(reg).slots@[k]
                    &&& reg.slots@.last().path@ == icon_path()
                    &&& reg.slots@.last().status == crate::status::LoadStatus::Loading
                }
                &&& gh < reg.slots@.len()
                &&& reg.slots@[gh as int].path@ == icon_path()
                &&& cmds@ == populate_cmds(ms.take(i as int), gh)
            },
        decreases n - i,
    {
        let m = w.markers[i];
        proof {
            assert(ms.take(i + 1).drop_last() =~= ms.take(i as int));
            assert(ms.take(i + 1).last() == ms[i as int]);
        }
        if m.texture.is_none() {
            let ghost had_any = any_handleless(ms.take(i as int));
            let h = reg.request_load("icon.png");
            proof {
                assert(any_handleless(ms.take(i + 1))) by {
                    assert(ms.take(i + 1)[i as int].texture is None);
                }
                if !had_any {
                    gh = h;
                    lemma_populate_empty(ms.take(i as int), gh);
                } else {
                    // A repeated request for the fixed path finds the same
                    // slot: paths are unique in a sane registry.
                    if gh != h {
                        assert(reg.slots@[gh as int].path@ == reg.slots@[h as int].path@);
                        assert(false);
                    }
                }
            }
            cmds.push(Command::InsertTexture(m.id, h));
            proof {
                assert(cmds@ =~= populate_cmds(ms.take(i + 1), gh));
            }
        } else {
            proof {
                assert(populate_cmds(ms.take(i + 1), gh) == populate_cmds(ms.take(i as int), gh));
                if any_handleless(ms.take(i + 1)) {
                    let k = choose|k: int|
                        0 <= k < ms.take(i + 1).len() && (#[trigger] ms.take(i + 1)[k]).texture
                            is None;
                    assert(k != i);
                    assert(ms.take(i as int)[k].texture is None);
                }
            }
        }
        i += 1;
    }
    proof {
        assert(ms.take(n as int) =~= ms);
    }
    cmds
}

/// `populate_cmds` is empty when no marker is handleless.
pub proof fn lemma_populate_empty(ms: Seq<Marker>, h: usize)
    requires
        !any_handleless(ms),
    ensures
        populate_cmds(ms, h) == Seq::<Command>::empty(),
    decreases ms.len(),
{
    if ms.len() > 0 {
        assert(ms[ms.len() - 1].texture is Some);
        assert(!any_handleless(ms.drop_last())) by {
            if any_handleless(ms.drop_last()) {
                let k = choose|k: int|
                    0 <= k < ms.drop_last().len() && (#[trigger] ms.drop_last()[k]).texture
                        is None;
                assert(ms[k].texture is None);
            }
        }
        lemma_populate_empty(ms.drop_last(), h);
    }
}

/// The status reporter: if exactly one marked entity carries a texture
/// handle, rewrite the info text's three value sections with the entity's
/// identifier, its handle, and the load status the registry reports for that
/// handle, each rendered as text. Otherwise (no marker armed yet, no marker
/// at all, or several) leave the text untouched and skip silently.
pub fn ui_update_info(text: &mut InfoText, w: &World, reg: &AssetRegistry)
    requires
        old(text).wf(),
    ensures
        final(text).wf(),
        textured(w@.markers).len() != 1 ==> *final(text) == *old(text),
        textured(w@.markers).len() == 1 ==> {
            let m = textured(w@.markers)[0];
            &&& final(text).sections@[1]@ == dec_seq(m.id as int)
            &&& final(text).sections@[3]@ == dec_seq(m.texture->0 as int)
            &&& final(text).sections@[5]@ == status_label_spec(
                reg.status_of(m.texture->0 as int),
            )
            &&& final(text).sections@[0] == old(text).sections@[0]
            &&& final(text).sections@[2] == old(text).sections@[2]
            &&& final(text).sections@[4] == old(text).sections@[4]
        },
{
    let ghost ms = w.markers@;
    let n = w.markers.len();
    let mut count: usize = 0;
    let mut found: Option<Marker> = None;
    let mut i: usize = 0;
    while i < n
        invariant
            ms == w.markers@,
            n == ms.len(),
            i <= n,
            count == textured(ms.take(i as int)).len(),
            count > 0 ==> (found is Some && found->0 == textured(ms.take(i as int))[0]
                && found->0.texture is Some),
        decreases n - i,
    {
        let m = w.markers[i];
        proof {
            assert(ms.take(i + 1).drop_last() =~= ms.take(i as int));
            assert(ms.take(i + 1).last() == ms[i as int]);
            lemma_textured_first(ms.take(i + 1));
        }
        if m.texture.is_some() {
            if count == 0 {
                found = Some(m);
            }
            proof {
                lemma_textured_len(ms.take(i as int));
            }
            count += 1;
        }
        i += 1;
    }
    proof {
        assert(ms.take(n as int) =~= ms);
    }
    if count != 1 {
        return ;
    }
    let m = found.unwrap();
    let h = m.texture.unwrap();
    text.set_section(1, u64_to_decimal(m.id));
    text.set_section(3, u64_to_decimal(h as u64));
    let status = reg.get_load_state(h);
    text.set_section(5, status_label(status));
}

/// `textured` never outgrows the sequence it filters.
proof fn lemma_textured_len(ms: Seq<Marker>)
    ensures
        textured(ms).len() <= ms.len(),
    decreases ms.len(),
{
    if ms.len() > 0 {
        lemma_textured_len(ms.drop_last());
    }
}

/// Growing the scanned prefix never changes the first textured marker once
/// one exists.
proof fn lemma_textured_first(ms: Seq<Marker>)
    requires
        ms.len() > 0,
    ensures
        textured(ms.drop_last()).len() > 0 ==> textured(ms)[0] == textured(ms.drop_last())[0],
        ms.last().texture is Some && textured(ms.drop_last()).len() == 0 ==> textured(ms)[0]
            == ms.last(),
{
}

/// The reload trigger: on a press edge of the button's interaction state,
/// despawn every live marked entity (with its children) and queue a fresh
/// replacement per despawn, so the populator re-arms it next frame. Without
/// an edge — the button idle, merely hovered, or still held from an earlier
/// press — queue nothing.
pub fn ui_handle_button(prev: Interaction, curr: Interaction, w: &World) -> (cmds: Vec<Command>)
    ensures
        !spec_pressed_edge(prev, curr) ==> cmds@ == Seq::<Command>::empty(),
        spec_pressed_edge(prev, curr) ==> cmds@ == reload_cmds(w@.markers),
{
    let mut cmds: Vec<Command> = Vec::new();
    if !pressed_edge(prev, curr) {
        return cmds;
    }
    let ghost ms = w.markers@;
    let n = w.markers.len();
    let mut i: usize = 0;
    while i < n
        invariant
            ms == w.markers@,
            n == ms.len(),
            i <= n,
            cmds@ == reload_cmds(ms.take(i as int)),
        decreases n - i,
    {
        let m = w.markers[i];
        proof {
            assert(ms.take(i + 1).drop_last() =~= ms.take(i as int));
            assert(ms.take(i + 1).last() == ms[i as int]);
        }
        cmds.push(Command::Despawn(m.id));
        cmds.push(Command::SpawnMarker);
        proof {
            assert(cmds@ =~= reload_cmds(ms.take(i + 1)));
        }
        i += 1;
    }
    proof {
        assert(ms.take(n as int) =~= ms);
    }
    cmds
}

/// One whole frame: the reporter reads the pre-frame state, the trigger and
/// the populator queue their commands, and the queue drains at the frame's
/// synchronization point. Every system observes the same pre-frame registry;
/// their effects land together.
pub fn run_frame(
    w: &mut World,
    text: &mut InfoText,
    reg: &mut AssetRegistry,
    prev: Interaction,
    curr: Interaction,
)
    requires
        old(w)@.wf(),
        old(text).wf(),
        old(reg).wf(),
        old(w)@.next_id + 3 * old(w)@.markers.len() <= u64::MAX,
    ensures
        final(w)@.wf(),
        final(text).wf(),
        final(reg).wf(),
        // What the reporter rendered, from the pre-frame state.
        textured(old(w)@.markers).len() != 1 ==> *final(text) == *old(text),
        textured(old(w)@.markers).len() == 1 ==> {
            let m = textured(old(w)@.markers)[0];
            &&& final(text).sections@[1]@ == dec_seq(m.id as int)
            &&& final(text).sections@[3]@ == dec_seq(m.texture->0 as int)
            &&& final(text).sections@[5]@ == status_label_spec(
                old(reg).status_of(m.texture->0 as int),
            )
        },
        // What the populator did to the registry.
        !any_handleless(old(w)@.markers) ==> *final(reg) == *old(reg),
        any_handleless(old(w)@.markers) && old(reg).has_path(icon_path()) ==> *final(reg) == *old(
            reg,
        ),
        any_handleless(old(w)@.markers) && !old(reg).has_path(icon_path()) ==> {
            &&& final(reg).slots@.len() == old(reg).slots@.len() + 1
            &&& forall|i: int|
                0 <= i < old(reg).slots@.len() ==> final(reg).slots@[i] == old(reg).slots@[i]
            &&& final(reg).slots@.last().path@ == icon_path()
            &&& final(reg).slots@.last().status == crate::status::LoadStatus::Loading
        },
        // How the world stepped: the trigger's queue, then the populator's.
        ({
            let rp = if spec_pressed_edge(prev, curr) {
                reload_cmds(old(w)@.markers)
            } else {
                Seq::<Command>::empty()
            };
            &&& !any_handleless(old(w)@.markers) ==> final(w)@ == apply_model(old(w)@, rp)
            &&& any_handleless(old(w)@.markers) ==> exists|h: usize|
                {
                    &&& h < final(reg).slots@.len()
                    &&& final(reg).slots@[h as int].path@ == icon_path()
                    &&& final(w)@ == apply_model(
                        old(w)@,
                        rp + #[trigger] populate_cmds(old(w)@.markers, h),
                    )
                }
        }),
{
    let ghost ms = w.markers@;
    ui_update_info(text, w, reg);
    let mut cmds = ui_handle_button(prev, curr, w);
    let mut pop = populate_sprites(w, reg);
    proof {
        lemma_reload_cmds_len(ms);
        lemma_populate_cmds_len(ms, 0usize);
        if any_handleless(ms) {
            let h = choose|h: usize|
                {
                    &&& h < reg.slots@.len()
                    &&& reg.slots@[h as int].path@ == icon_path()
                    &&& pop@ == #[trigger] populate_cmds(ms, h)
                };
            lemma_populate_cmds_len(ms, h);
        } else {
            assert(pop@ == Seq::<Command>::empty());
        }
    }
    cmds.append(&mut pop);
    apply_commands(w, &cmds);
    proof {
        let rp = if spec_pressed_edge(prev, curr) {
            reload_cmds(ms)
        } else {
            Seq::<Command>::empty()
        };
        if !any_handleless(ms) {
            assert(cmds@ =~= rp);
        }
    }
}

} // verus!
