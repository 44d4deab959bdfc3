use entity_sync::ProjectileFired;
use entity_sync::{
    classify_entity, choose_spawn_info, drops_gold_rule, entity_is_item, hp_damage_target,
    is_wand_ghost_file, marker_int, should_strip_on_spawn, should_strip_script, stain_is_rolling,
    stain_roll_value, wand_fate, wizard_child_fate, wizard_mask_of, ChildFate, DesToProxy,
    EntityHandle, EntityKind, EntitySample, EntitySpawnInfo, EntityUpdate, Gid, GrabOutcome,
    HeldWand, InitialEntityState, ItemAnimation, Lid, LocalDiffModel, LocalUpdateKind, LuaScripts,
    ModuleCtx, PeerId, RemoteAction, RemoteDiffModel, StainsSample, WandFate, WorldPos,
};

fn hp_key(hp: f32) -> u32 {
    let bits = hp.to_bits();
    if bits & 0x8000_0000 != 0 {
        !bits
    } else {
        bits | 0x8000_0000
    }
}

fn plain_initial(x: f32, y: f32, hp: f32) -> InitialEntityState {
    InitialEntityState {
        has_item_component: false,
        is_own_root: true,
        reconstructible_by_filename: true,
        filename: "data/entities/animals/chest.xml".to_owned(),
        serialized: Vec::new(),
        serialized_at: 0,
        x: x.to_bits(),
        y: y.to_bits(),
        world_pos: WorldPos { x: x as i32, y: y as i32 },
        hp: hp_key(hp),
        has_boss_health_bar: false,
        has_keep_alive: false,
        death_scripts: Vec::new(),
        has_no_gold_drop_var: false,
    }
}

/// A sample that leaves the snapshot of `plain_initial` untouched except
/// for position and health.
fn plain_sample(x: f32, y: f32, hp: f32) -> EntitySample {
    EntitySample {
        alive: true,
        item_in_inventory: false,
        in_player_inventory: false,
        x: x.to_bits(),
        y: y.to_bits(),
        r: 0,
        world_pos: WorldPos { x: x as i32, y: y as i32 },
        item_animation: None,
        has_inventory: false,
        wand: None,
        has_boss_centipede_gate: false,
        has_active_var_one: false,
        is_wizard_boss: false,
        wizard_slots: Vec::new(),
        is_dragon_boss: false,
        limbs: Vec::new(),
        beyond_authority: false,
        transfer_candidate: None,
        velocity: None,
        hp: Some(hp_key(hp)),
        phys_ready: false,
        phys: Vec::new(),
        cost: None,
        game_effects: Vec::new(),
        stains: StainsSample::Plain { stains: 0 },
        aims_ranged: false,
        ai: None,
        sprites: None,
        has_laser_sight: false,
        prey: None,
        filename: "data/entities/animals/chest.xml".to_owned(),
    }
}

#[test]
fn first_diff_is_full_init() {
    let mut local = LocalDiffModel::new();
    let ctx = ModuleCtx::new(PeerId(1));
    let lid = local.track_entity(EntityHandle(7), Gid(42), plain_initial(0.0, 0.0, 10.0));
    let (stream, dead) = local.make_diff(&ctx);
    assert_eq!(stream.len(), 2);
    assert!(matches!(stream[0], EntityUpdate::CurrentEntity(l) if l == lid));
    match &stream[1] {
        EntityUpdate::Init(info, gid) => {
            assert_eq!(gid.0, 42);
            assert_eq!(info.x, 0.0f32.to_bits());
            assert_eq!(info.hp, hp_key(10.0));
            assert_eq!(info.kind, EntityKind::Normal);
        },
        other => panic!("expected an init, got {}", kind_of(other)),
    }
    assert!(dead.is_empty());
}

fn kind_of(u: &EntityUpdate) -> &'static str {
    match u {
        EntityUpdate::CurrentEntity(_) => "current",
        EntityUpdate::Init(_, _) => "init",
        EntityUpdate::SetPosition(_, _) => "set-position",
        EntityUpdate::RemoveEntity(_) => "remove",
        _ => "other",
    }
}

#[test]
fn changed_position_emits_exactly_one_setter() {
    let mut local = LocalDiffModel::new();
    let ctx = ModuleCtx::new(PeerId(1));
    let lid = local.track_entity(EntityHandle(7), Gid(42), plain_initial(0.0, 0.0, 10.0));
    local.make_diff(&ctx);

    // Tick 2: the entity moved to (5, 0); health unchanged.
    let (kind, _) = local.update_tracked_entity(lid, Some(plain_sample(5.0, 0.0, 10.0)), &ctx);
    assert_eq!(kind, LocalUpdateKind::Updated);
    let (stream, _) = local.make_diff(&ctx);
    assert_eq!(stream.len(), 2);
    assert!(matches!(stream[0], EntityUpdate::CurrentEntity(l) if l == lid));
    assert!(
        matches!(stream[1], EntityUpdate::SetPosition(x, y) if x == 5.0f32.to_bits() && y == 0.0f32.to_bits())
    );

    // Tick 3: identical state; the entity contributes nothing.
    let (kind, _) = local.update_tracked_entity(lid, Some(plain_sample(5.0, 0.0, 10.0)), &ctx);
    assert_eq!(kind, LocalUpdateKind::Updated);
    let (stream, _) = local.make_diff(&ctx);
    assert!(stream.is_empty());
}

#[test]
fn leaving_radius_releases_authority_once() {
    let mut local = LocalDiffModel::new();
    let ctx = ModuleCtx::new(PeerId(1));
    let lid = local.track_entity(EntityHandle(7), Gid(42), plain_initial(0.0, 0.0, 10.0));
    local.make_diff(&ctx);

    let mut sample = plain_sample(700.0, 0.0, 10.0);
    sample.beyond_authority = true;
    let (kind, outcome) = local.update_tracked_entity(lid, Some(sample), &ctx);
    assert_eq!(kind, LocalUpdateKind::Released);
    assert_eq!(outcome.kill_entity, Some(EntityHandle(7)));

    // One held-item update, one final position, then exactly one release.
    assert_eq!(outcome.messages.len(), 3);
    assert!(matches!(outcome.messages[0], DesToProxy::UpdateWand(g, None) if g.0 == 42));
    match &outcome.messages[1] {
        DesToProxy::UpdatePositions(v) => {
            assert_eq!(v.len(), 1);
            assert_eq!(v[0].gid.0, 42);
            assert_eq!(v[0].pos, WorldPos { x: 700, y: 0 });
        },
        _ => panic!("expected the final position update"),
    }
    assert!(matches!(outcome.messages[2], DesToProxy::ReleaseAuthority(g) if g.0 == 42));
    let verdicts = outcome
        .messages
        .iter()
        .filter(|m| {
            matches!(m, DesToProxy::ReleaseAuthority(_) | DesToProxy::TransferAuthorityTo(_, _))
        })
        .count();
    assert_eq!(verdicts, 1);

    // The removal leaves with the next stream, and tracking ends.
    let (stream, _) = local.make_diff(&ctx);
    assert!(stream.iter().any(|u| matches!(u, EntityUpdate::RemoveEntity(l) if *l == lid)));
    assert!(local.entity_by_lid(lid).is_none());
}

#[test]
fn leaving_radius_transfers_when_global_and_candidate_found() {
    let mut local = LocalDiffModel::new();
    let ctx = ModuleCtx::new(PeerId(1));
    let mut init = plain_initial(0.0, 0.0, 10.0);
    init.has_keep_alive = true;
    let lid = local.track_entity(EntityHandle(7), Gid(42), init);
    local.make_diff(&ctx);

    let mut sample = plain_sample(700.0, 0.0, 10.0);
    sample.beyond_authority = true;
    sample.transfer_candidate = Some(PeerId(9));
    let (kind, outcome) = local.update_tracked_entity(lid, Some(sample), &ctx);
    assert_eq!(kind, LocalUpdateKind::Transferred);
    assert!(
        matches!(outcome.messages.last(), Some(DesToProxy::TransferAuthorityTo(g, p)) if g.0 == 42 && p.0 == 9)
    );
    let verdicts = outcome
        .messages
        .iter()
        .filter(|m| {
            matches!(m, DesToProxy::ReleaseAuthority(_) | DesToProxy::TransferAuthorityTo(_, _))
        })
        .count();
    assert_eq!(verdicts, 1);
}

#[test]
fn global_entity_without_candidate_stays_owned() {
    let mut local = LocalDiffModel::new();
    let ctx = ModuleCtx::new(PeerId(1));
    let mut init = plain_initial(0.0, 0.0, 10.0);
    init.has_boss_health_bar = true;
    let lid = local.track_entity(EntityHandle(7), Gid(42), init);
    local.make_diff(&ctx);

    let mut sample = plain_sample(700.0, 0.0, 10.0);
    sample.beyond_authority = true;
    let (kind, _) = local.update_tracked_entity(lid, Some(sample), &ctx);
    assert_eq!(kind, LocalUpdateKind::Updated);
    assert!(local.entity_by_lid(lid).is_some());
}

#[test]
fn init_for_awaited_gid_binds_existing_proxy() {
    let mut remote = RemoteDiffModel::new(PeerId(2));
    remote.wait_for_gid(EntityHandle(99), Gid(7));

    let mut local = LocalDiffModel::new();
    let ctx = ModuleCtx::new(PeerId(1));
    let lid = local.track_entity(EntityHandle(7), Gid(7), plain_initial(1.0, 2.0, 3.0));
    let (stream, _) = local.make_diff(&ctx);

    let actions = remote.apply_diff(&stream, PeerId(1));
    assert_eq!(actions.len(), 1);
    assert!(matches!(
        actions[0],
        RemoteAction::BindExisting { entity, lid: l, gid } if entity.0 == 99 && l == lid && gid.0 == 7
    ));
    assert_eq!(remote.proxy_of(lid), Some(EntityHandle(99)));
}

#[test]
fn setters_apply_in_order_last_write_wins() {
    let mut remote = RemoteDiffModel::new(PeerId(2));
    let mut local = LocalDiffModel::new();
    let ctx = ModuleCtx::new(PeerId(1));
    let lid = local.track_entity(EntityHandle(7), Gid(7), plain_initial(1.0, 2.0, 3.0));
    let (mut stream, _) = local.make_diff(&ctx);
    stream.push(EntityUpdate::SetHp(hp_key(2.0)));
    stream.push(EntityUpdate::SetPosition(8.0f32.to_bits(), 9.0f32.to_bits()));
    stream.push(EntityUpdate::SetHp(hp_key(1.0)));

    let actions = remote.apply_diff(&stream, PeerId(1));
    assert!(actions.is_empty());
    let shadow = remote.shadow_of(lid).expect("shadow must exist after init");
    assert_eq!(shadow.hp, hp_key(1.0));
    assert_eq!(shadow.x, 8.0f32.to_bits());
    assert_eq!(shadow.y, 9.0f32.to_bits());
}

#[test]
fn setter_without_header_is_dropped() {
    let mut remote = RemoteDiffModel::new(PeerId(2));
    let stream = vec![EntityUpdate::SetHp(hp_key(1.0))];
    let actions = remote.apply_diff(&stream, PeerId(1));
    assert!(actions.is_empty());
    assert!(remote.shadow_of(Lid(0)).is_none());
}

#[test]
fn localize_removes_shadow_and_kills_foreign_proxy() {
    let mut remote = RemoteDiffModel::new(PeerId(2));
    let mut local = LocalDiffModel::new();
    let ctx = ModuleCtx::new(PeerId(1));
    let lid = local.track_entity(EntityHandle(7), Gid(7), plain_initial(1.0, 2.0, 3.0));
    let (stream, _) = local.make_diff(&ctx);
    remote.apply_diff(&stream, PeerId(1));
    remote.bind_spawned(lid, EntityHandle(50));

    let stream = vec![EntityUpdate::LocalizeEntity(lid, PeerId(5))];
    let actions = remote.apply_diff(&stream, PeerId(1));
    assert_eq!(actions.len(), 1);
    assert!(matches!(actions[0], RemoteAction::KillProxy { entity } if entity.0 == 50));
    assert!(remote.shadow_of(lid).is_none());
}

#[test]
fn localize_to_this_peer_keeps_proxy_alive() {
    let mut remote = RemoteDiffModel::new(PeerId(2));
    let mut local = LocalDiffModel::new();
    let ctx = ModuleCtx::new(PeerId(1));
    let lid = local.track_entity(EntityHandle(7), Gid(7), plain_initial(1.0, 2.0, 3.0));
    let (stream, _) = local.make_diff(&ctx);
    remote.apply_diff(&stream, PeerId(1));
    remote.bind_spawned(lid, EntityHandle(50));

    let stream = vec![EntityUpdate::LocalizeEntity(lid, PeerId(1))];
    let actions = remote.apply_diff(&stream, PeerId(1));
    assert!(actions.is_empty());
    assert!(remote.shadow_of(lid).is_none());
}

#[test]
fn health_sync_only_damages() {
    assert_eq!(hp_damage_target(hp_key(10.0), hp_key(4.0)), Some(hp_key(4.0)));
    assert_eq!(hp_damage_target(hp_key(4.0), hp_key(10.0)), None);
    assert_eq!(hp_damage_target(hp_key(4.0), hp_key(4.0)), None);
}

#[test]
fn grabbed_item_is_localized_exactly_once() {
    let mut local = LocalDiffModel::new();
    let ctx = ModuleCtx::new(PeerId(1));
    let mut init = plain_initial(0.0, 0.0, 10.0);
    init.has_item_component = true;
    let lid = local.track_entity(EntityHandle(7), Gid(42), init);
    local.make_diff(&ctx);

    match local.entity_grabbed(PeerId(5), lid) {
        GrabOutcome::Localized { entity, message } => {
            assert_eq!(entity, EntityHandle(7));
            assert!(matches!(message, DesToProxy::DeleteEntity(g, None) if g.0 == 42));
        },
        _ => panic!("an item grab must localize"),
    }
    assert!(local.entity_by_lid(lid).is_none());
    let (stream, _) = local.make_diff(&ctx);
    let localizes = stream
        .iter()
        .filter(|u| matches!(u, EntityUpdate::LocalizeEntity(l, p) if *l == lid && p.0 == 5))
        .count();
    assert_eq!(localizes, 1);
}

#[test]
fn grabbing_a_non_item_is_refused() {
    let mut local = LocalDiffModel::new();
    let ctx = ModuleCtx::new(PeerId(1));
    let lid = local.track_entity(EntityHandle(7), Gid(42), plain_initial(0.0, 0.0, 10.0));
    local.make_diff(&ctx);
    assert!(matches!(local.entity_grabbed(PeerId(5), lid), GrabOutcome::NotItem { .. }));
    assert!(local.entity_by_lid(lid).is_some());
}

#[test]
fn death_notify_reaches_the_stream_and_spawn_list() {
    let mut local = LocalDiffModel::new();
    let ctx = ModuleCtx::new(PeerId(1));
    let lid = local.track_entity(EntityHandle(7), Gid(42), plain_initial(0.0, 0.0, 10.0));
    local.make_diff(&ctx);

    local.death_notify(
        EntityHandle(7),
        true,
        true,
        WorldPos { x: 3, y: 4 },
        "data/entities/animals/zombie.xml".to_owned(),
        None,
    );
    let (stream, dead) = local.make_diff(&ctx);
    assert!(stream.iter().any(|u| matches!(
        u,
        EntityUpdate::KillEntity { lid: l, wait_on_kill: true, responsible_peer: None } if *l == lid
    )));
    assert_eq!(dead.len(), 1);
    assert_eq!(dead[0].0, WorldPos { x: 3, y: 4 });
}

#[test]
fn reset_diff_encoding_reinitializes_everyone() {
    let mut local = LocalDiffModel::new();
    let ctx = ModuleCtx::new(PeerId(1));
    local.track_entity(EntityHandle(7), Gid(42), plain_initial(0.0, 0.0, 10.0));
    local.make_diff(&ctx);
    let (stream, _) = local.make_diff(&ctx);
    assert!(stream.is_empty());

    local.reset_diff_encoding();
    let (stream, _) = local.make_diff(&ctx);
    assert_eq!(stream.len(), 2);
    assert!(matches!(stream[1], EntityUpdate::Init(_, _)));
}

#[test]
fn classification_and_spawn_info_rules() {
    assert!(entity_is_item(true, true));
    assert!(!entity_is_item(true, false));
    assert_eq!(classify_entity(true, true), EntityKind::Item);
    assert_eq!(classify_entity(false, true), EntityKind::Normal);

    let filename = "data/entities/props/barrel.xml".to_owned();
    let payload = vec![1u8, 2, 3];
    match choose_spawn_info(EntityKind::Normal, true, &filename, &payload, 5) {
        EntitySpawnInfo::Filename(f) => assert_eq!(f, filename),
        _ => panic!("a reconstructible normal entity is spawned by name"),
    }
    match choose_spawn_info(EntityKind::Item, true, &filename, &payload, 5) {
        EntitySpawnInfo::Serialized { serialized_at, data } => {
            assert_eq!(serialized_at, 5);
            assert_eq!(data, payload);
        },
        _ => panic!("an item is spawned from its serialized payload"),
    }
}

#[test]
fn gold_drop_rule_matches_the_script_list() {
    let with = vec!["data/scripts/items/drop_money.lua".to_owned()];
    let without = vec!["data/scripts/animals/boss_dragon_death.lua".to_owned()];
    assert!(drops_gold_rule(&with, false));
    assert!(!drops_gold_rule(&with, true));
    assert!(!drops_gold_rule(&without, false));
}

#[test]
fn wizard_mask_and_child_fates() {
    assert_eq!(wizard_mask_of(&vec![0, 3]), 0b1001);
    assert_eq!(wizard_mask_of(&vec![70, -1]), 0);
    assert_eq!(wizard_child_fate(0b1001, 0), ChildFate::RestoreHp);
    assert_eq!(wizard_child_fate(0b1001, 1), ChildFate::Kill);
    assert_eq!(wizard_child_fate(0b1001, 70), ChildFate::Kill);
}

#[test]
fn stain_roll_encoding_round_trips() {
    let stains: u64 = (0x1234_5678u64) << 32;
    assert_eq!(stain_roll_value(stains), 0x1234_5678);
    assert!(!stain_is_rolling(stains));
    assert!(stain_is_rolling(stains | 1));
}

#[test]
fn wand_ghost_files_are_recognized() {
    assert!(is_wand_ghost_file(&"data/entities/animals/wand_ghost.xml".to_owned()));
    assert!(!is_wand_ghost_file(&"data/entities/animals/chest.xml".to_owned()));
}

#[test]
fn dead_entity_is_dropped_with_a_deletion() {
    let mut local = LocalDiffModel::new();
    let ctx = ModuleCtx::new(PeerId(1));
    let lid = local.track_entity(EntityHandle(7), Gid(42), plain_initial(0.0, 0.0, 10.0));
    local.make_diff(&ctx);

    let mut sample = plain_sample(0.0, 0.0, 10.0);
    sample.alive = false;
    let (kind, outcome) = local.update_tracked_entity(lid, Some(sample), &ctx);
    assert_eq!(kind, LocalUpdateKind::Dropped);
    assert_eq!(outcome.messages.len(), 1);
    assert!(matches!(outcome.messages[0], DesToProxy::DeleteEntity(g, None) if g.0 == 42));
}

#[test]
fn picked_up_item_is_temporarily_untracked() {
    let mut local = LocalDiffModel::new();
    let ctx = ModuleCtx::new(PeerId(1));
    let mut init = plain_initial(0.0, 0.0, 10.0);
    init.has_item_component = true;
    let lid = local.track_entity(EntityHandle(7), Gid(42), init);
    local.make_diff(&ctx);

    let mut sample = plain_sample(0.0, 0.0, 10.0);
    sample.item_in_inventory = true;
    let (kind, outcome) = local.update_tracked_entity(lid, Some(sample), &ctx);
    assert_eq!(kind, LocalUpdateKind::TemporarilyUntracked);
    assert_eq!(outcome.untrack_item, Some(EntityHandle(7)));
    assert!(
        matches!(outcome.messages[0], DesToProxy::DeleteEntity(g, Some(e)) if g.0 == 42 && e.0 == 7)
    );
}

#[test]
fn hover_animation_suppresses_position_updates() {
    let mut local = LocalDiffModel::new();
    let ctx = ModuleCtx::new(PeerId(1));
    let mut init = plain_initial(0.0, 0.0, 10.0);
    init.has_item_component = true;
    let lid = local.track_entity(EntityHandle(7), Gid(42), init);
    local.make_diff(&ctx);

    let mut sample = plain_sample(5.0, 0.0, 10.0);
    sample.item_animation = Some(ItemAnimation { hover: true, spinning: false });
    local.update_tracked_entity(lid, Some(sample), &ctx);
    let (stream, _) = local.make_diff(&ctx);
    assert!(stream.is_empty());
}

#[test]
fn position_broadcast_lists_every_tracked_entity() {
    let mut local = LocalDiffModel::new();
    local.track_entity(EntityHandle(7), Gid(42), plain_initial(1.0, 2.0, 10.0));
    local.track_entity(EntityHandle(8), Gid(43), plain_initial(3.0, 4.0, 10.0));
    let pos = local.get_pos_data();
    assert_eq!(pos.len(), 2);
    assert_eq!(pos[0].gid.0, 42);
    assert_eq!(pos[0].pos, WorldPos { x: 1, y: 2 });
    assert_eq!(pos[1].gid.0, 43);
    assert_eq!(pos[1].pos, WorldPos { x: 3, y: 4 });
}

#[test]
fn find_by_gid_looks_through_both_models() {
    let mut local = LocalDiffModel::new();
    let ctx = ModuleCtx::new(PeerId(1));
    let lid = local.track_entity(EntityHandle(7), Gid(42), plain_initial(0.0, 0.0, 10.0));
    assert_eq!(local.find_by_gid(Gid(42)), Some(EntityHandle(7)));
    assert_eq!(local.find_by_gid(Gid(1)), None);

    let mut remote = RemoteDiffModel::new(PeerId(2));
    let (stream, _) = local.make_diff(&ctx);
    remote.apply_diff(&stream, PeerId(1));
    remote.bind_spawned(lid, EntityHandle(50));
    assert_eq!(remote.find_by_gid(Gid(42)), Some(EntityHandle(50)));
}

#[test]
fn remote_death_notifications_postpone_removal() {
    let mut local = LocalDiffModel::new();
    let ctx = ModuleCtx::new(PeerId(1));
    let lid = local.track_entity(EntityHandle(7), Gid(42), plain_initial(0.0, 0.0, 10.0));
    let (stream, _) = local.make_diff(&ctx);

    let mut remote = RemoteDiffModel::new(PeerId(2));
    remote.apply_diff(&stream, PeerId(1));
    remote.bind_spawned(lid, EntityHandle(50));

    let stream = vec![
        EntityUpdate::CurrentEntity(lid),
        EntityUpdate::KillEntity { lid, wait_on_kill: false, responsible_peer: None },
        EntityUpdate::RemoveEntity(lid),
    ];
    remote.apply_diff(&stream, PeerId(1));

    let plans = remote.drain_death_notify(&ctx);
    assert_eq!(plans.len(), 1);
    assert_eq!(plans[0].entity, EntityHandle(50));
    assert!(plans[0].clear_wait_flag);

    // The kill postponed the drained removal: nothing is removed this
    // tick, and the proxy survives until the kill has been processed.
    let removed = remote.drain_removals();
    assert!(removed.is_empty());
    assert_eq!(remote.proxy_of(lid), Some(EntityHandle(50)));

    // The next tick's drain performs the deferred removal.
    let removed = remote.drain_removals();
    assert_eq!(removed.len(), 1);
    assert_eq!(removed[0].entity, Some(EntityHandle(50)));
    assert!(remote.proxy_of(lid).is_none());
}

#[test]
fn proxy_script_stripping_follows_the_lists() {
    let benign = LuaScripts {
        script_death: "data/scripts/animals/boss_dragon_death.lua".to_owned(),
        script_damage_received: String::new(),
        script_source_file: String::new(),
        script_enabled_changed: String::new(),
        script_kick: String::new(),
    };
    assert!(!should_strip_script(&benign, false));

    let mut gold = benign_clone(&benign);
    gold.script_death = "data/scripts/items/drop_money.lua".to_owned();
    assert!(should_strip_script(&gold, false));
    assert!(!should_strip_script(&gold, true));

    let mut die_roll = benign_clone(&benign);
    die_roll.script_damage_received = "data/scripts/items/die_roll.lua".to_owned();
    assert!(should_strip_script(&die_roll, true));

    let mut nest = benign_clone(&benign);
    nest.script_source_file = "data/scripts/buildings/spidernest.lua".to_owned();
    assert!(should_strip_script(&nest, true));

    assert!(should_strip_on_spawn(
        &"data/scripts/props/suspended_container_physics_objects.lua".to_owned()
    ));
    assert!(!should_strip_on_spawn(&"data/scripts/props/barrel.lua".to_owned()));
}

fn benign_clone(s: &LuaScripts) -> LuaScripts {
    LuaScripts {
        script_death: s.script_death.clone(),
        script_damage_received: s.script_damage_received.clone(),
        script_source_file: s.script_source_file.clone(),
        script_enabled_changed: s.script_enabled_changed.clone(),
        script_kick: s.script_kick.clone(),
    }
}

#[test]
fn correlation_marker_reinterprets_the_id_bits() {
    assert_eq!(marker_int(Lid(5)), 5);
    assert_eq!(marker_int(Lid(u32::MAX)), -1);
}

#[test]
fn held_wand_fate_matches_the_synced_item() {
    assert_eq!(wand_fate(None, Some(Gid(7))), WandFate::Replace);
    let marked = HeldWand { marker_gid: Some(7), is_spawned_wand: false };
    assert_eq!(wand_fate(Some(&marked), Some(Gid(7))), WandFate::Keep);
    assert_eq!(wand_fate(Some(&marked), Some(Gid(8))), WandFate::Replace);
    assert_eq!(wand_fate(Some(&marked), None), WandFate::Replace);
    let spawned = HeldWand { marker_gid: None, is_spawned_wand: true };
    assert_eq!(wand_fate(Some(&spawned), None), WandFate::Keep);
    let plain = HeldWand { marker_gid: None, is_spawned_wand: false };
    assert_eq!(wand_fate(Some(&plain), Some(Gid(7))), WandFate::Replace);
}

#[test]
fn projectiles_pair_with_shooters_in_order() {
    let mut remote = RemoteDiffModel::new(PeerId(2));
    remote.bind_spawned(Lid(0), EntityHandle(50));
    remote.bind_spawned(Lid(2), EntityHandle(52));

    let shot = |lid: u32, tag: u8| ProjectileFired {
        shooter_lid: Lid(lid),
        position: (0, 0),
        target: (1, 1),
        serialized: vec![tag],
    };
    let shots = vec![shot(2, 10), shot(1, 11), shot(0, 12), shot(2, 13)];
    let plans = remote.spawn_projectiles(&shots);

    // One plan per projectile with a bound shooter, in input order; the
    // unbound shooter's entry is dropped without error.
    assert_eq!(plans.len(), 3);
    assert_eq!(plans[0].0, EntityHandle(52));
    assert_eq!(plans[0].1.serialized, vec![10]);
    assert_eq!(plans[1].0, EntityHandle(50));
    assert_eq!(plans[1].1.serialized, vec![12]);
    assert_eq!(plans[2].0, EntityHandle(52));
    assert_eq!(plans[2].1.serialized, vec![13]);
}

#[test]
fn gid_lookup_is_first_match() {
    let mut remote = RemoteDiffModel::new(PeerId(2));
    let mut local = LocalDiffModel::new();
    let ctx = ModuleCtx::new(PeerId(1));
    let lid = local.track_entity(EntityHandle(7), Gid(42), plain_initial(0.0, 0.0, 10.0));
    let (stream, _) = local.make_diff(&ctx);
    remote.apply_diff(&stream, PeerId(1));

    // The gid is known but its id has no bound proxy yet.
    assert_eq!(remote.find_by_gid(Gid(42)), None);
    remote.bind_spawned(lid, EntityHandle(50));
    assert_eq!(remote.find_by_gid(Gid(42)), Some(EntityHandle(50)));
    assert_eq!(remote.find_by_gid(Gid(1)), None);
}
