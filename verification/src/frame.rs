//! One frame of the session, from the pads as they were read to the state
//! that the next frame starts from.

use vstd::prelude::*;
use crate::combat::{
    lemma_cooldown_shields, lemma_resolved_keeps, resolve_collisions, resolved, with_health,
};
use crate::model::{
    all_axis_aligned, all_within_caps, axis_aligned, distinct_ids, pad_of, player_color, slot_color, GameState, PadInput, Player, Projectile, Screen, Snapshot,
    MAX_PLAYERS, RIGHT_SPAWN_X,
};
use crate::projectile::{
    advance_all, expired, flown, lemma_survivors, remove_expired, survivors,
};
use crate::round::{
    game_over, has_player, has_slot, is_game_over, join_late, joined, lemma_joined,
    lemma_restarted, lemma_turned, lemma_volley, restart, restarted, take_turns, turned, volley,
    wants_join, wants_restart,
};

verus! {

/// The shared cooldown one frame later.
pub open spec fn cooled(timer: u32) -> u32 {
    if timer > 0 {
        (timer - 1) as u32
    } else {
        0u32
    }
}

/// The second half of a frame in a round. The projectiles in flight are
/// tested against the players and then moved; what was thrown in this frame
/// joins them, neither tested nor moved; then every projectile that is gone
/// is dropped, old or new; the cooldown runs down by one.
pub open spec fn settled(s: Snapshot, cakes: Seq<Projectile>, screen_w: u32, screen_h: u32) -> Snapshot {
    let fray = resolved(s.players, s.projectiles, s.hit_timer, s.players.len() as int);
    Snapshot {
        screen: s.screen,
        tick: s.tick,
        hit_timer: cooled(fray.hit_timer),
        players: fray.players,
        projectiles: survivors(flown(fray.projectiles) + cakes, screen_w, screen_h),
    }
}

/// The state after one frame of a round. While the round is over the pads
/// move nobody, and the first pad restarts the session once the cooldown has
/// run out. Otherwise late players join and everybody takes their turn.
pub open spec fn updated(s: Snapshot, pads: Seq<PadInput>, screen_w: u32, screen_h: u32) -> Snapshot {
    if game_over(s.players) {
        if s.hit_timer == 0 && wants_restart(pad_of(pads, 0)) {
            restarted(s.players, screen_h)
        } else {
            settled(s, Seq::empty(), screen_w, screen_h)
        }
    } else {
        let present = joined(s.players, pads, screen_h, MAX_PLAYERS);
        settled(
            Snapshot { players: turned(present, pads, s.tick, screen_w, screen_h), ..s },
            volley(present, pads, s.tick, screen_w, screen_h),
            screen_w,
            screen_h,
        )
    }
}

/// The player that joins from the menu in a slot: a copy of the first
/// player, on the right side, with the slot's colour.
pub open spec fn menu_newcomer(first: Player, slot: u32) -> Player {
    Player { id: slot, color: slot_color(slot), x: RIGHT_SPAWN_X, ..first }
}

/// The players after the slots from 1 up to, not including, `upto` had their
/// chance to join from the menu.
pub open spec fn menu_joined(players: Seq<Player>, pads: Seq<PadInput>, upto: u32) -> Seq<Player>
    decreases upto,
{
    if upto <= 1 {
        players
    } else {
        let slot = (upto - 1) as u32;
        let before = menu_joined(players, pads, slot);
        if wants_join(pad_of(pads, slot)) && !has_slot(before, slot) {
            before.push(menu_newcomer(before[0], slot))
        } else {
            before
        }
    }
}

/// The state after one frame of the menu: the first pad starts the round and
/// sets the tick back, and the other slots may join.
pub open spec fn menu_updated(s: Snapshot, pads: Seq<PadInput>) -> Snapshot {
    let starts = wants_restart(pad_of(pads, 0));
    Snapshot {
        screen: if starts {
            Screen::Game
        } else {
            s.screen
        },
        tick: if starts {
            0u32
        } else {
            s.tick
        },
        players: menu_joined(s.players, pads, MAX_PLAYERS),
        ..s
    }
}

/// The state after one frame, whichever screen is shown: the screen's own
/// frame, and then the tick counts on.
pub open spec fn stepped(s: Snapshot, pads: Seq<PadInput>, screen_w: u32, screen_h: u32) -> Snapshot {
    let next = match s.screen {
        Screen::Game => updated(s, pads, screen_w, screen_h),
        Screen::Menu => menu_updated(s, pads),
    };
    Snapshot { tick: (next.tick + 1) as u32, ..next }
}

/// The second half of a frame keeps a well-formed state well-formed.
pub proof fn lemma_settled_well_formed(
    s: Snapshot,
    cakes: Seq<Projectile>,
    screen_w: u32,
    screen_h: u32,
)
    requires
        s.well_formed(),
        all_axis_aligned(cakes),
    ensures
        settled(s, cakes, screen_w, screen_h).well_formed(),
        settled(s, cakes, screen_w, screen_h).players.len() == s.players.len(),
        forall|i: int|
            0 <= i < s.players.len() ==> {
                let after = #[trigger] settled(s, cakes, screen_w, screen_h).players[i];
                after.health <= s.players[i].health && after == with_health(
                    s.players[i],
                    after.health,
                )
            },
{
    let n = s.players.len() as int;
    let fray = resolved(s.players, s.projectiles, s.hit_timer, n);
    lemma_resolved_keeps(s.players, s.projectiles, s.hit_timer, n);
    lemma_survivors(flown(fray.projectiles) + cakes, screen_w, screen_h);
    let out = settled(s, cakes, screen_w, screen_h);
    assert forall|i: int| 0 <= i < n implies (#[trigger] out.players[i]).within_caps()
        && out.players[i].id == s.players[i].id by {
        assert(s.players[i].within_caps());
    }
    let all = flown(fray.projectiles) + cakes;
    assert(all_axis_aligned(all)) by {
        assert forall|i: int| 0 <= i < all.len() implies axis_aligned((#[trigger] all[i]).angle) by {
            if i < fray.projectiles.len() {
                assert(axis_aligned(fray.projectiles[i].angle));
            } else {
                assert(axis_aligned(cakes[i - fray.projectiles.len()].angle));
            }
        }
    }
}

/// After a frame of a round nothing that is gone is still in flight: no
/// projectile has run out of time, and none lies outside the playfield, be it
/// one that flew there or one that was thrown there in this frame.
pub proof fn lemma_updated_clean(s: Snapshot, pads: Seq<PadInput>, screen_w: u32, screen_h: u32)
    ensures
        forall|i: int|
            0 <= i < updated(s, pads, screen_w, screen_h).projectiles.len() ==> !expired(
                #[trigger] updated(s, pads, screen_w, screen_h).projectiles[i],
                screen_w,
                screen_h,
            ),
{
    let out = updated(s, pads, screen_w, screen_h).projectiles;
    if game_over(s.players) {
        if !(s.hit_timer == 0 && wants_restart(pad_of(pads, 0))) {
            let fray = resolved(s.players, s.projectiles, s.hit_timer, s.players.len() as int);
            lemma_survivors(
                flown(fray.projectiles) + Seq::<Projectile>::empty(),
                screen_w,
                screen_h,
            );
        }
    } else {
        let present = joined(s.players, pads, screen_h, MAX_PLAYERS);
        let acted = turned(present, pads, s.tick, screen_w, screen_h);
        let fray = resolved(acted, s.projectiles, s.hit_timer, acted.len() as int);
        lemma_survivors(
            flown(fray.projectiles) + volley(present, pads, s.tick, screen_w, screen_h),
            screen_w,
            screen_h,
        );
    }
    assert forall|i: int| 0 <= i < out.len() implies !expired(
        #[trigger] out[i],
        screen_w,
        screen_h,
    ) by {
        assert(out.contains(out[i]));
    }
}

/// A frame of a round keeps a well-formed state well-formed: at every frame
/// every player's health and ammunition are within their caps.
pub proof fn lemma_updated_well_formed(s: Snapshot, pads: Seq<PadInput>, screen_w: u32, screen_h: u32)
    requires
        s.well_formed(),
    ensures
        updated(s, pads, screen_w, screen_h).well_formed(),
{
    if game_over(s.players) {
        if s.hit_timer == 0 && wants_restart(pad_of(pads, 0)) {
            lemma_restarted(s.players, screen_h);
        } else {
            lemma_settled_well_formed(s, Seq::empty(), screen_w, screen_h);
        }
    } else {
        let present = joined(s.players, pads, screen_h, MAX_PLAYERS);
        lemma_joined(s.players, pads, screen_h, MAX_PLAYERS);
        lemma_turned(present, pads, s.tick, screen_w, screen_h);
        lemma_volley(present, pads, s.tick, screen_w, screen_h);
        lemma_settled_well_formed(
            Snapshot { players: turned(present, pads, s.tick, screen_w, screen_h), ..s },
            volley(present, pads, s.tick, screen_w, screen_h),
            screen_w,
            screen_h,
        );
    }
}

/// Joining from the menu keeps the players that are there and takes no slot
/// twice.
pub proof fn lemma_menu_joined(players: Seq<Player>, pads: Seq<PadInput>, upto: u32)
    requires
        players.len() >= 1,
    ensures
        menu_joined(players, pads, upto).len() >= players.len(),
        forall|i: int|
            0 <= i < players.len() ==> #[trigger] menu_joined(players, pads, upto)[i] == players[i],
        distinct_ids(players) ==> distinct_ids(menu_joined(players, pads, upto)),
        all_within_caps(players) ==> all_within_caps(menu_joined(players, pads, upto)),
    decreases upto,
{
    if upto > 1 {
        let slot = (upto - 1) as u32;
        let before = menu_joined(players, pads, slot);
        let after = menu_joined(players, pads, upto);
        lemma_menu_joined(players, pads, slot);
        if after != before {
            assert(after == before.push(menu_newcomer(before[0], slot)));
            if distinct_ids(players) {
                assert forall|i: int, j: int| 0 <= i < j < after.len() implies after[i].id
                    != after[j].id by {
                    if j == before.len() {
                        assert(before[i].id != slot);
                    }
                }
            }
            if all_within_caps(players) {
                assert(before[0].within_caps());
            }
        }
    }
}

/// A frame of the menu keeps a well-formed state well-formed.
pub proof fn lemma_menu_updated_well_formed(s: Snapshot, pads: Seq<PadInput>)
    requires
        s.well_formed(),
    ensures
        menu_updated(s, pads).well_formed(),
{
    lemma_menu_joined(s.players, pads, MAX_PLAYERS);
}

/// Every frame keeps a well-formed state well-formed.
pub proof fn lemma_stepped_well_formed(s: Snapshot, pads: Seq<PadInput>, screen_w: u32, screen_h: u32)
    requires
        s.well_formed(),
    ensures
        stepped(s, pads, screen_w, screen_h).well_formed(),
{
    lemma_updated_well_formed(s, pads, screen_w, screen_h);
    lemma_menu_updated_well_formed(s, pads);
}

/// While the round is over the pads move nobody and throw nothing: as long
/// as the cooldown runs, or the first pad does not ask for a restart, the
/// frame is the same whatever the pads say, and each player keeps all but
/// their health.
pub proof fn lemma_game_over_ignores_pads(
    s: Snapshot,
    pads: Seq<PadInput>,
    other: Seq<PadInput>,
    screen_w: u32,
    screen_h: u32,
)
    requires
        game_over(s.players),
        s.hit_timer > 0 || (!wants_restart(pad_of(pads, 0)) && !wants_restart(pad_of(other, 0))),
    ensures
        updated(s, pads, screen_w, screen_h) == updated(s, other, screen_w, screen_h),
        updated(s, pads, screen_w, screen_h).players.len() == s.players.len(),
        forall|i: int|
            0 <= i < s.players.len() ==> {
                let after = #[trigger] updated(s, pads, screen_w, screen_h).players[i];
                after == with_health(s.players[i], after.health)
            },
        s.hit_timer > 0 ==> updated(s, pads, screen_w, screen_h).players == s.players,
{
    let n = s.players.len() as int;
    lemma_resolved_keeps(s.players, s.projectiles, s.hit_timer, n);
    if s.hit_timer > 0 {
        lemma_cooldown_shields(s.players, s.projectiles, s.hit_timer, n);
    }
}

/// Once the round is over and the cooldown has run out, the first pad's
/// start or first button restarts the session.
pub proof fn lemma_restart_honoured(s: Snapshot, pads: Seq<PadInput>, screen_w: u32, screen_h: u32)
    requires
        game_over(s.players),
        s.hit_timer == 0,
        wants_restart(pad_of(pads, 0)),
    ensures
        updated(s, pads, screen_w, screen_h) == restarted(s.players, screen_h),
{
}

/// One frame of the menu.
pub fn player_detection(state: &mut GameState, pads: &Vec<PadInput>)
    requires
        old(state)@.players.len() >= 1,
    ensures
        final(state)@ == menu_updated(old(state)@, pads@),
        old(state)@.well_formed() ==> final(state)@.well_formed(),
{
    proof {
        if state@.well_formed() {
            lemma_menu_updated_well_formed(state@, pads@);
        }
    }
    let ghost before = state@;
    let first = PadInput::of_slot(pads, 0);
    if first.start || first.a {
        state.screen = Screen::Game;
        state.tick = 0;
    }
    let mut slot: u32 = 1;
    while slot < MAX_PLAYERS
        invariant
            1 <= slot <= MAX_PLAYERS,
            state.players@ == menu_joined(before.players, pads@, slot),
            state.players@.len() >= 1,
            state.screen == menu_updated(before, pads@).screen,
            state.tick == menu_updated(before, pads@).tick,
            state.hit_timer == before.hit_timer,
            state.projectiles@ == before.projectiles,
        decreases MAX_PLAYERS - slot,
    {
        let pad = PadInput::of_slot(pads, slot);
        if (pad.a || pad.b) && !has_player(&state.players, slot) {
            let mut player = state.players[0];
            player.id = slot;
            player.color = player_color(slot);
            player.x = RIGHT_SPAWN_X;
            state.players.push(player);
        }
        slot += 1;
    }
}

/// One frame of a round.
pub fn update_game_screen(state: &mut GameState, pads: &Vec<PadInput>, screen_w: u32, screen_h: u32)
    requires
        all_axis_aligned(old(state)@.projectiles),
    ensures
        final(state)@ == updated(old(state)@, pads@, screen_w, screen_h),
        old(state)@.well_formed() ==> final(state)@.well_formed(),
        forall|i: int|
            0 <= i < final(state)@.projectiles.len() ==> !expired(
                #[trigger] final(state)@.projectiles[i],
                screen_w,
                screen_h,
            ),
{
    proof {
        if state@.well_formed() {
            lemma_updated_well_formed(state@, pads@, screen_w, screen_h);
        }
        lemma_updated_clean(state@, pads@, screen_w, screen_h);
    }
    let mut cakes: Vec<Projectile> = Vec::new();
    if is_game_over(&state.players) {
        let first = PadInput::of_slot(pads, 0);
        if state.hit_timer == 0 && (first.start || first.a) {
            restart(state, screen_h);
            return ;
        }
    } else {
        join_late(&mut state.players, pads, screen_h);
        cakes = take_turns(&mut state.players, pads, state.tick, screen_w, screen_h);
    }
    let ghost mid = state@;
    proof {
        lemma_resolved_keeps(mid.players, mid.projectiles, mid.hit_timer, mid.players.len() as int);
    }
    let timer = resolve_collisions(&mut state.players, &mut state.projectiles, state.hit_timer);
    advance_all(&mut state.projectiles);
    state.projectiles.append(&mut cakes);
    remove_expired(&mut state.projectiles, screen_w, screen_h);
    state.hit_timer = timer.saturating_sub(1);
}

/// One frame of the session.
pub fn step(state: &mut GameState, pads: &Vec<PadInput>, screen_w: u32, screen_h: u32)
    requires
        old(state)@.well_formed(),
        old(state).tick < u32::MAX,
    ensures
        final(state)@ == stepped(old(state)@, pads@, screen_w, screen_h),
        final(state)@.well_formed(),
{
    match state.screen {
        Screen::Game => {
            update_game_screen(state, pads, screen_w, screen_h);
        },
        Screen::Menu => {
            player_detection(state, pads);
        },
    }
    state.tick = state.tick + 1;
}

} // verus!
