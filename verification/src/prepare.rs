//! Entity preparation rules: which attached scripts a proxy must lose, how
//! the correlation marker encodes ids, and what to do about a held wand.
//!
//! Before an entity serves as a synchronized proxy its scripted behaviors
//! that would fight remote-driven control are stripped; the rules are fixed
//! lists of script identities. The engine calls that read and remove the
//! components stay with the driver; the decisions live here.

use vstd::prelude::*;

use crate::ids::{Gid, Lid};

verus! {

/// The script slots of one scripted component, as the engine reports them.
pub struct LuaScripts {
    pub script_death: String,
    pub script_damage_received: String,
    pub script_source_file: String,
    pub script_enabled_changed: String,
    pub script_kick: String,
}

fn streq(a: &String, b: &str) -> (r: bool)
    ensures
        r == ((a)@ == (b)@),
{
    let owned = b.to_owned();
    <String as PartialEq<String>>::eq(a, &owned)
}

/// Scripts that duplicate damage behavior already replicated by sync.
pub open spec fn damage_script_stripped(s: Seq<char>) -> bool {
    ||| s == "data/scripts/animals/leader_damage.lua"@
    ||| s == "data/scripts/animals/giantshooter_death.lua"@
    ||| s == "data/scripts/animals/blob_damage.lua"@
    ||| s == "data/scripts/items/die_roll.lua"@
    ||| s == "data/scripts/animals/iceskull_damage.lua"@
}

/// Scripts that spawn or gate entities the authoritative peer already
/// simulates.
pub open spec fn source_script_stripped(s: Seq<char>) -> bool {
    ||| s == "data/scripts/buildings/firebugnest.lua"@
    ||| s == "data/scripts/buildings/flynest.lua"@
    ||| s == "data/scripts/buildings/spidernest.lua"@
    ||| s == "data/scripts/buildings/bunker2_check.lua"@
    ||| s == "data/scripts/buildings/bunker_check.lua"@
    ||| s == "data/scripts/buildings/statue_hand_state.lua"@
}

/// Kick scripts that must not run on a proxy.
pub open spec fn kick_script_stripped(s: Seq<char>) -> bool {
    ||| s == "data/scripts/items/die_roll.lua"@
    ||| s == "data/scripts/buildings/statue_hand_modified.lua"@
}

/// Whether a scripted component is stripped from a proxy: gold drops are
/// only kept where the synced entity drops gold, and the fixed lists of
/// problematic damage, source, enabled-changed and kick scripts always go.
pub open spec fn scripts_stripped(s: LuaScripts, drops_gold: bool) -> bool {
    ||| (!drops_gold && (s.script_death)@ == "data/scripts/items/drop_money.lua"@)
    ||| damage_script_stripped((s.script_damage_received)@)
    ||| source_script_stripped((s.script_source_file)@)
    ||| (s.script_enabled_changed)@ == "data/scripts/items/die_roll.lua"@
    ||| kick_script_stripped((s.script_kick)@)
}

/// Decides whether one scripted component is removed from a proxy.
pub fn should_strip_script(s: &LuaScripts, drops_gold: bool) -> (r: bool)
    ensures
        r == scripts_stripped(*s, drops_gold),
{
    if !drops_gold && streq(&s.script_death, "data/scripts/items/drop_money.lua") {
        return true;
    }
    if streq(&s.script_damage_received, "data/scripts/animals/leader_damage.lua") || streq(
        &s.script_damage_received,
        "data/scripts/animals/giantshooter_death.lua",
    ) || streq(&s.script_damage_received, "data/scripts/animals/blob_damage.lua") || streq(
        &s.script_damage_received,
        "data/scripts/items/die_roll.lua",
    ) || streq(&s.script_damage_received, "data/scripts/animals/iceskull_damage.lua") {
        return true;
    }
    if streq(&s.script_source_file, "data/scripts/buildings/firebugnest.lua") || streq(
        &s.script_source_file,
        "data/scripts/buildings/flynest.lua",
    ) || streq(&s.script_source_file, "data/scripts/buildings/spidernest.lua") || streq(
        &s.script_source_file,
        "data/scripts/buildings/bunker2_check.lua",
    ) || streq(&s.script_source_file, "data/scripts/buildings/bunker_check.lua") || streq(
        &s.script_source_file,
        "data/scripts/buildings/statue_hand_state.lua",
    ) {
        return true;
    }
    if streq(&s.script_enabled_changed, "data/scripts/items/die_roll.lua") {
        return true;
    }
    if streq(&s.script_kick, "data/scripts/items/die_roll.lua") || streq(
        &s.script_kick,
        "data/scripts/buildings/statue_hand_modified.lua",
    ) {
        return true;
    }
    false
}

/// Whether a freshly spawned proxy loses a scripted component outright.
pub fn should_strip_on_spawn(script_source_file: &String) -> (r: bool)
    ensures
        r == ((script_source_file)@
            == "data/scripts/props/suspended_container_physics_objects.lua"@),
{
    streq(script_source_file, "data/scripts/props/suspended_container_physics_objects.lua")
}

/// The integer slot of the correlation marker: the stream-local id's bits,
/// reinterpreted as the engine's signed variable value.
pub fn marker_int(lid: Lid) -> (r: i32)
    ensures
        r == lid.0 as i32,
{
    lid.0 as i32
}

/// The correlation marker of the wand a proxy currently holds.
pub struct HeldWand {
    /// The global id recorded on the wand's marker, if it carries one.
    pub marker_gid: Option<u64>,
    /// The wand was spawned by sync itself for an untracked carried item.
    pub is_spawned_wand: bool,
}

/// What to do about a proxy's held wand.
#[derive(Debug, Clone, Copy, PartialEq, Eq, Structural)]
pub enum WandFate {
    /// The held wand already is the synced carried item: leave it.
    Keep,
    /// Kill the held wand (if any) and deserialize the synced one.
    Replace,
}

/// Decides the held wand's fate against the synced carried-item id: a wand
/// whose marker names the synced id stays, as does a sync-spawned wand when
/// the synced item is untracked; anything else is replaced.
pub fn wand_fate(existing: Option<&HeldWand>, target_gid: Option<Gid>) -> (r: WandFate)
    ensures
        r == (match existing {
            None => WandFate::Replace,
            Some(w) => {
                match w.marker_gid {
                    Some(t) => if target_gid == Some(Gid(t)) {
                        WandFate::Keep
                    } else {
                        WandFate::Replace
                    },
                    None => if w.is_spawned_wand {
                        WandFate::Keep
                    } else {
                        WandFate::Replace
                    },
                }
            },
        }),
{
    match existing {
        None => WandFate::Replace,
        Some(w) => {
            match w.marker_gid {
                Some(t) => {
                    let same = match target_gid {
                        Some(g) => g.0 == t,
                        None => false,
                    };
                    if same {
                        WandFate::Keep
                    } else {
                        WandFate::Replace
                    }
                },
                None => {
                    if w.is_spawned_wand {
                        WandFate::Keep
                    } else {
                        WandFate::Replace
                    }
                },
            }
        },
    }
}

} // verus!
