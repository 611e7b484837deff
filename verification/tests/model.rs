use sprite_reload::assets::AssetRegistry;
use sprite_reload::commands::apply_commands;
use sprite_reload::status::{status_label, LoadStatus};
use sprite_reload::systems::{populate_sprites, run_frame, setup, ui_handle_button, ui_update_info};
use sprite_reload::ui::{pressed_edge, InfoText, Interaction};
use sprite_reload::world::{Marker, World};

fn started() -> (World, InfoText, AssetRegistry) {
    let mut w = World::new();
    let text = setup(&mut w);
    let reg = AssetRegistry::new();
    (w, text, reg)
}

#[test]
fn startup_single_marker_without_handle() {
    let (w, text, _reg) = started();
    assert_eq!(w.markers.len(), 1);
    assert_eq!(w.markers[0].texture, None);
    assert_eq!(w.cameras, 1);
    assert_eq!(text.sections.len(), 6);
    assert_eq!(text.sections[0], "Entity: ");
    assert_eq!(text.sections[1], "");
    assert_eq!(text.sections[2], "\nTexture: ");
    assert_eq!(text.sections[4], "\nTexture Load Status: ");
    assert_eq!(text.sections[5], "");
}

#[test]
fn populator_arms_marker_by_next_frame() {
    let (mut w, mut text, mut reg) = started();
    run_frame(&mut w, &mut text, &mut reg, Interaction::Idle, Interaction::Idle);
    assert_eq!(w.markers.len(), 1);
    assert_eq!(w.markers[0].texture, Some(0));
    assert_eq!(reg.len(), 1);
    assert_eq!(reg.get_load_state(0), LoadStatus::Loading);
}

#[test]
fn populator_is_idempotent_once_armed() {
    let (mut w, mut text, mut reg) = started();
    run_frame(&mut w, &mut text, &mut reg, Interaction::Idle, Interaction::Idle);
    let cmds = populate_sprites(&w, &mut reg);
    assert!(cmds.is_empty());
    assert_eq!(reg.len(), 1);
    run_frame(&mut w, &mut text, &mut reg, Interaction::Idle, Interaction::Idle);
    assert_eq!(w.markers[0].texture, Some(0));
    assert_eq!(reg.len(), 1);
}

#[test]
fn reload_recreates_marker_with_fresh_identifier() {
    let (mut w, mut text, mut reg) = started();
    run_frame(&mut w, &mut text, &mut reg, Interaction::Idle, Interaction::Idle);
    let old_id = w.markers[0].id;
    run_frame(&mut w, &mut text, &mut reg, Interaction::Idle, Interaction::Pressed);
    assert_eq!(w.markers.len(), 1);
    assert_ne!(w.markers[0].id, old_id);
    assert_eq!(w.markers[0].texture, None);
    run_frame(&mut w, &mut text, &mut reg, Interaction::Pressed, Interaction::Idle);
    assert_eq!(w.markers[0].texture, Some(0));
    assert_eq!(reg.len(), 1);
}

#[test]
fn reload_on_first_frame_discards_stale_attach() {
    let (mut w, mut text, mut reg) = started();
    // The trigger despawns marker 0 in the same frame in which the populator
    // queued an attach for it; the stale attach hits no entity.
    run_frame(&mut w, &mut text, &mut reg, Interaction::Idle, Interaction::Pressed);
    assert_eq!(w.markers.len(), 1);
    assert_eq!(w.markers[0].id, 1);
    assert_eq!(w.markers[0].texture, None);
    assert_eq!(reg.len(), 1);
}

#[test]
fn held_button_triggers_at_most_one_reload() {
    let (mut w, mut text, mut reg) = started();
    run_frame(&mut w, &mut text, &mut reg, Interaction::Idle, Interaction::Pressed);
    let id_after_first = w.markers[0].id;
    run_frame(&mut w, &mut text, &mut reg, Interaction::Pressed, Interaction::Pressed);
    run_frame(&mut w, &mut text, &mut reg, Interaction::Pressed, Interaction::Pressed);
    assert_eq!(w.markers[0].id, id_after_first);
    let cmds = ui_handle_button(Interaction::Pressed, Interaction::Pressed, &w);
    assert!(cmds.is_empty());
}

#[test]
fn reload_sweeps_every_marker_when_several_exist() {
    let mut w = World {
        next_id: 5,
        cameras: 1,
        markers: vec![
            Marker { id: 1, texture: Some(0) },
            Marker { id: 3, texture: None },
        ],
    };
    let cmds = ui_handle_button(Interaction::Idle, Interaction::Pressed, &w);
    assert_eq!(cmds.len(), 4);
    apply_commands(&mut w, &cmds);
    assert_eq!(w.markers.len(), 2);
    assert_eq!(w.markers[0].id, 5);
    assert_eq!(w.markers[1].id, 6);
    assert!(w.markers.iter().all(|m| m.texture.is_none()));
}

#[test]
fn reload_with_no_marker_queues_nothing() {
    let w = World { next_id: 0, cameras: 1, markers: vec![] };
    let cmds = ui_handle_button(Interaction::Idle, Interaction::Pressed, &w);
    assert!(cmds.is_empty());
}

#[test]
fn pressed_edge_truth_table() {
    assert!(pressed_edge(Interaction::Idle, Interaction::Pressed));
    assert!(pressed_edge(Interaction::Hovered, Interaction::Pressed));
    assert!(!pressed_edge(Interaction::Pressed, Interaction::Pressed));
    assert!(!pressed_edge(Interaction::Pressed, Interaction::Idle));
    assert!(!pressed_edge(Interaction::Idle, Interaction::Hovered));
    assert!(!pressed_edge(Interaction::Idle, Interaction::Idle));
}

#[test]
fn reporter_renders_all_three_facts() {
    let (mut w, mut text, mut reg) = started();
    run_frame(&mut w, &mut text, &mut reg, Interaction::Idle, Interaction::Idle);
    // The reporter sees the armed marker only from the next frame on.
    run_frame(&mut w, &mut text, &mut reg, Interaction::Idle, Interaction::Idle);
    assert_eq!(text.sections[1], "0");
    assert_eq!(text.sections[3], "0");
    assert_eq!(text.sections[5], "Loading");
}

#[test]
fn reporter_reflects_loaded_status() {
    let (mut w, mut text, mut reg) = started();
    run_frame(&mut w, &mut text, &mut reg, Interaction::Idle, Interaction::Idle);
    reg.resolve(0, LoadStatus::Loaded);
    run_frame(&mut w, &mut text, &mut reg, Interaction::Idle, Interaction::Idle);
    assert_eq!(text.sections[5], "Loaded");
}

#[test]
fn reporter_reflects_failed_status() {
    let (mut w, mut text, mut reg) = started();
    run_frame(&mut w, &mut text, &mut reg, Interaction::Idle, Interaction::Idle);
    reg.resolve(0, LoadStatus::Failed);
    run_frame(&mut w, &mut text, &mut reg, Interaction::Idle, Interaction::Idle);
    assert_eq!(text.sections[5], "Failed");
}

#[test]
fn reporter_skips_when_no_marker_is_armed() {
    let (mut w, mut text, reg) = started();
    ui_update_info(&mut text, &mut w, &reg);
    assert_eq!(text.sections[1], "");
    assert_eq!(text.sections[3], "");
    assert_eq!(text.sections[5], "");
}

#[test]
fn reporter_skips_when_several_markers_are_armed() {
    let w = World {
        next_id: 2,
        cameras: 1,
        markers: vec![
            Marker { id: 0, texture: Some(0) },
            Marker { id: 1, texture: Some(0) },
        ],
    };
    let mut text = InfoText::new();
    let reg = AssetRegistry::new();
    ui_update_info(&mut text, &w, &reg);
    assert_eq!(text.sections[1], "");
    assert_eq!(text.sections[5], "");
}

#[test]
fn status_labels_are_exact() {
    assert_eq!(status_label(LoadStatus::NotLoaded), "NotLoaded");
    assert_eq!(status_label(LoadStatus::Loading), "Loading");
    assert_eq!(status_label(LoadStatus::Loaded), "Loaded");
    assert_eq!(status_label(LoadStatus::Failed), "Failed");
}

#[test]
fn unknown_handle_reads_not_loaded() {
    let reg = AssetRegistry::new();
    assert_eq!(reg.get_load_state(0), LoadStatus::NotLoaded);
    assert_eq!(reg.get_load_state(7), LoadStatus::NotLoaded);
}

#[test]
fn repeated_request_returns_same_handle() {
    let mut reg = AssetRegistry::new();
    let a = reg.request_load("icon.png");
    let b = reg.request_load("icon.png");
    assert_eq!(a, b);
    assert_eq!(reg.len(), 1);
    let c = reg.request_load("other.png");
    assert_ne!(a, c);
    assert_eq!(reg.len(), 2);
}

#[test]
fn failed_load_of_missing_path_is_terminal_display_state() {
    let mut reg = AssetRegistry::new();
    let h = reg.request_load("missing.png");
    assert_eq!(reg.get_load_state(h), LoadStatus::Loading);
    reg.resolve(h, LoadStatus::Failed);
    assert_eq!(reg.get_load_state(h), LoadStatus::Failed);
}

#[test]
fn resolving_one_load_leaves_others_alone() {
    let mut reg = AssetRegistry::new();
    let a = reg.request_load("icon.png");
    let b = reg.request_load("other.png");
    reg.resolve(b, LoadStatus::Loaded);
    assert_eq!(reg.get_load_state(a), LoadStatus::Loading);
    assert_eq!(reg.get_load_state(b), LoadStatus::Loaded);
}
