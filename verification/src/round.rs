//! The course of a round: who has lost, how a round starts over, who joins,
//! and what a player does with their pad in one frame.

use vstd::prelude::*;
use crate::geometry::{coord, to_coord};
use crate::model::{
    all_axis_aligned, all_within_caps, axis_aligned, distinct_ids, fresh_player, pad_of,
    player_color, slot_color, spawn_x, GameState, PadInput, Player, Projectile, Screen, Snapshot,
    ANGLE_LEFT, ANGLE_RIGHT, DEFAULT_CAKES, DEFAULT_HEALTH, DEFAULT_SPEED, MAX_PLAYERS,
    REGEN_PERIOD,
};
use crate::projectile::{spawn, spawned};

verus! {

/// A round is over as soon as any player has no health left.
pub open spec fn game_over(players: Seq<Player>) -> bool {
    exists|i: int| 0 <= i < players.len() && (#[trigger] players[i]).health == 0
}

/// Some player sits in the slot.
pub open spec fn has_slot(players: Seq<Player>, slot: u32) -> bool {
    exists|i: int| 0 <= i < players.len() && (#[trigger] players[i]).id == slot
}

/// The buttons that start a round or start it over.
pub open spec fn wants_restart(pad: PadInput) -> bool {
    pad.start || pad.a
}

/// The buttons by which a slot joins.
pub open spec fn wants_join(pad: PadInput) -> bool {
    pad.a || pad.b
}

/// The buttons that throw a cake.
pub open spec fn wants_fire(pad: PadInput) -> bool {
    pad.start || pad.a || pad.b
}

/// A player as they start the next round: slot and colour stay, all else is
/// as new.
pub open spec fn respawned(p: Player, screen_h: u32) -> Player {
    fresh_player(p.id, p.color, screen_h)
}

/// The session after a restart: back at the start, with the same players,
/// each as new and on their side of the field.
pub open spec fn restarted(players: Seq<Player>, screen_h: u32) -> Snapshot {
    Snapshot {
        screen: Screen::Menu,
        tick: 0,
        hit_timer: 0,
        players: players.map_values(|p: Player| respawned(p, screen_h)),
        projectiles: Seq::empty(),
    }
}

/// The players after the slots from 1 up to, not including, `upto` had their
/// chance to join: a slot whose pad asks for it, and in which nobody sits,
/// gets a fresh player at the end of the list.
pub open spec fn joined(players: Seq<Player>, pads: Seq<PadInput>, screen_h: u32, upto: u32) -> Seq<
    Player,
>
    decreases upto,
{
    if upto <= 1 {
        players
    } else {
        let slot = (upto - 1) as u32;
        let before = joined(players, pads, screen_h, slot);
        if wants_join(pad_of(pads, slot)) && !has_slot(before, slot) {
            before.push(fresh_player(slot, slot_color(slot), screen_h))
        } else {
            before
        }
    }
}

/// Ammunition after the frame with this tick: one cake more whenever the
/// tick is a multiple of the period, never more than the cap.
pub open spec fn regenerated(p: Player, tick: u32) -> Player {
    if tick % REGEN_PERIOD == 0 {
        Player {
            cakes: if p.cakes < p.max_cakes {
                (p.cakes + 1) as u32
            } else {
                p.max_cakes
            },
            ..p
        }
    } else {
        p
    }
}

/// A step towards the origin stops at the edge.
pub open spec fn step_back(pos: i32, speed: u32) -> i32 {
    if pos - speed > 0 {
        (pos - speed) as i32
    } else {
        0i32
    }
}

/// A step away from the origin stops where a box of `size` touches the far
/// edge of a field of `extent`.
pub open spec fn step_forth(pos: i32, speed: u32, size: u32, extent: u32) -> i32 {
    if pos + speed < extent - size {
        to_coord(pos + speed)
    } else {
        to_coord(extent - size)
    }
}

/// A player after the directions held on their pad: up, down, left and
/// right, in this order.
pub open spec fn moved(p: Player, pad: PadInput, screen_w: u32, screen_h: u32) -> Player {
    let y1 = if pad.up {
        step_back(p.y, p.speed)
    } else {
        p.y
    };
    let y2 = if pad.down {
        step_forth(y1, p.speed, p.height, screen_h)
    } else {
        y1
    };
    let x1 = if pad.left {
        step_back(p.x, p.speed)
    } else {
        p.x
    };
    let x2 = if pad.right {
        step_forth(x1, p.speed, p.width, screen_w)
    } else {
        x1
    };
    Player { x: x2, y: y2, ..p }
}

/// The first player throws to the right, all others to the left.
pub open spec fn heading_of(slot: u32) -> i32 {
    if slot == 0 {
        ANGLE_RIGHT
    } else {
        ANGLE_LEFT
    }
}

/// A throw needs a button and a cake.
pub open spec fn fires(p: Player, pad: PadInput) -> bool {
    wants_fire(pad) && p.cakes > 0
}

/// A player after a throw, if there was one: a cake less in hand.
pub open spec fn after_fire(p: Player, pad: PadInput) -> Player {
    if fires(p, pad) {
        Player { cakes: (p.cakes - 1) as u32, ..p }
    } else {
        p
    }
}

/// What a player throws, if anything.
pub open spec fn thrown(p: Player, pad: PadInput) -> Option<Projectile> {
    if fires(p, pad) {
        Some(spawned(p, heading_of(p.id)))
    } else {
        None
    }
}

/// A player at the end of their turn: ammunition regenerated, then moved,
/// then a cake thrown.
pub open spec fn turn_player(p: Player, pad: PadInput, tick: u32, screen_w: u32, screen_h: u32) -> Player {
    after_fire(moved(regenerated(p, tick), pad, screen_w, screen_h), pad)
}

/// What a player throws in their turn: they throw from where they have
/// moved to.
pub open spec fn turn_throw(p: Player, pad: PadInput, tick: u32, screen_w: u32, screen_h: u32) -> Option<
    Projectile,
> {
    thrown(moved(regenerated(p, tick), pad, screen_w, screen_h), pad)
}

/// All players after their turns, each steered by the pad of their slot.
pub open spec fn turned(
    players: Seq<Player>,
    pads: Seq<PadInput>,
    tick: u32,
    screen_w: u32,
    screen_h: u32,
) -> Seq<Player> {
    players.map_values(|p: Player| turn_player(p, pad_of(pads, p.id), tick, screen_w, screen_h))
}

/// What the players throw in their turns, in the order of the players.
pub open spec fn volley(
    players: Seq<Player>,
    pads: Seq<PadInput>,
    tick: u32,
    screen_w: u32,
    screen_h: u32,
) -> Seq<Projectile>
    decreases players.len(),
{
    if players.len() == 0 {
        Seq::empty()
    } else {
        let p = players.last();
        let rest = volley(players.drop_last(), pads, tick, screen_w, screen_h);
        match turn_throw(p, pad_of(pads, p.id), tick, screen_w, screen_h) {
            Some(cake) => rest.push(cake),
            None => rest,
        }
    }
}

/// A step towards the origin that would leave the field ends on the edge,
/// and so does every such step after it.
pub proof fn lemma_step_back_settles(pos: i32, speed: u32)
    requires
        pos - speed <= 0,
    ensures
        step_back(pos, speed) == 0,
        step_back(step_back(pos, speed), speed) == step_back(pos, speed),
{
}

/// A step away from the origin that would leave the field ends where the
/// box touches the far edge, and so does every such step after it.
pub proof fn lemma_step_forth_settles(pos: i32, speed: u32, size: u32, extent: u32)
    requires
        pos + speed >= extent - size,
    ensures
        step_forth(pos, speed, size, extent) == to_coord(extent - size),
        step_forth(step_forth(pos, speed, size, extent), speed, size, extent) == step_forth(
            pos,
            speed,
            size,
            extent,
        ),
{
}

/// A move that would take the player out of the field in every direction
/// that is held puts them on the exact edge, and the same move again changes
/// nothing.
pub proof fn lemma_moved_settles(p: Player, pad: PadInput, screen_w: u32, screen_h: u32)
    requires
        !(pad.up && pad.down),
        !(pad.left && pad.right),
        pad.up ==> p.y - p.speed <= 0,
        pad.down ==> p.y + p.speed >= screen_h - p.height,
        pad.left ==> p.x - p.speed <= 0,
        pad.right ==> p.x + p.speed >= screen_w - p.width,
    ensures
        pad.up ==> moved(p, pad, screen_w, screen_h).y == 0,
        pad.down ==> moved(p, pad, screen_w, screen_h).y == to_coord(screen_h - p.height),
        pad.left ==> moved(p, pad, screen_w, screen_h).x == 0,
        pad.right ==> moved(p, pad, screen_w, screen_h).x == to_coord(screen_w - p.width),
        moved(moved(p, pad, screen_w, screen_h), pad, screen_w, screen_h) == moved(
            p,
            pad,
            screen_w,
            screen_h,
        ),
{
    if pad.up {
        lemma_step_back_settles(p.y, p.speed);
    }
    if pad.left {
        lemma_step_back_settles(p.x, p.speed);
    }
    if pad.down {
        lemma_step_forth_settles(p.y, p.speed, p.height, screen_h);
    }
    if pad.right {
        lemma_step_forth_settles(p.x, p.speed, p.width, screen_w);
    }
}

/// A player whose box lies within the field stays within it, whatever the
/// pad says, and moving changes nothing but the position.
pub proof fn lemma_moved_stays_inside(p: Player, pad: PadInput, screen_w: u32, screen_h: u32)
    requires
        0 <= p.x <= screen_w - p.width,
        0 <= p.y <= screen_h - p.height,
    ensures
        0 <= moved(p, pad, screen_w, screen_h).x <= screen_w - p.width,
        0 <= moved(p, pad, screen_w, screen_h).y <= screen_h - p.height,
        moved(p, pad, screen_w, screen_h) == (Player {
            x: moved(p, pad, screen_w, screen_h).x,
            y: moved(p, pad, screen_w, screen_h).y,
            ..p
        }),
{
}

/// A player within their cap gains exactly one cake in a frame whose tick is
/// a multiple of the period, unless their hand is full, and none in any
/// other frame.
pub proof fn lemma_regenerated(p: Player, tick: u32)
    requires
        p.cakes <= p.max_cakes,
    ensures
        regenerated(p, tick).cakes <= p.max_cakes,
        regenerated(p, tick).cakes == p.cakes + (if tick % REGEN_PERIOD == 0 && p.cakes
            < p.max_cakes {
            1int
        } else {
            0int
        }),
        regenerated(p, tick) == (Player { cakes: regenerated(p, tick).cakes, ..p }),
{
}

/// A turn leaves slot, colour, health and caps alone and keeps the player
/// within their caps; a throw costs exactly one cake and flies along the
/// thrower's heading.
pub proof fn lemma_turn(p: Player, pad: PadInput, tick: u32, screen_w: u32, screen_h: u32)
    ensures
        turn_player(p, pad, tick, screen_w, screen_h).id == p.id,
        turn_player(p, pad, tick, screen_w, screen_h).color == p.color,
        turn_player(p, pad, tick, screen_w, screen_h).health == p.health,
        turn_player(p, pad, tick, screen_w, screen_h).max_health == p.max_health,
        turn_player(p, pad, tick, screen_w, screen_h).max_cakes == p.max_cakes,
        p.within_caps() ==> turn_player(p, pad, tick, screen_w, screen_h).within_caps(),
        match turn_throw(p, pad, tick, screen_w, screen_h) {
            Some(cake) => {
                &&& cake.angle == heading_of(p.id)
                &&& axis_aligned(cake.angle)
                &&& cake.projectile_owner == Some(p.id)
                &&& turn_player(p, pad, tick, screen_w, screen_h).cakes + 1 == regenerated(
                    p,
                    tick,
                ).cakes
            },
            None => turn_player(p, pad, tick, screen_w, screen_h).cakes == regenerated(
                p,
                tick,
            ).cakes,
        },
{
}

/// After a restart every player has full health and a full hand, stands on
/// their side of the field, and has kept slot and colour; nothing is in
/// flight and no cooldown runs.
pub proof fn lemma_restarted(players: Seq<Player>, screen_h: u32)
    ensures
        restarted(players, screen_h).players.len() == players.len(),
        restarted(players, screen_h).projectiles.len() == 0,
        restarted(players, screen_h).hit_timer == 0,
        restarted(players, screen_h).tick == 0,
        forall|i: int|
            0 <= i < players.len() ==> {
                let p = #[trigger] restarted(players, screen_h).players[i];
                &&& p.id == players[i].id
                &&& p.color == players[i].color
                &&& p.health == p.max_health
                &&& p.health == DEFAULT_HEALTH
                &&& p.cakes == p.max_cakes
                &&& p.cakes == DEFAULT_CAKES
                &&& p.speed == DEFAULT_SPEED
                &&& p.x == spawn_x(p.id)
                &&& p.y == screen_h / 2
            },
        !game_over(restarted(players, screen_h).players),
        distinct_ids(players) ==> distinct_ids(restarted(players, screen_h).players),
        all_within_caps(restarted(players, screen_h).players),
{
}

/// Joining keeps the players that are there, in their places, and adds only
/// fresh players in slots that were free: no slot is taken twice.
pub proof fn lemma_joined(players: Seq<Player>, pads: Seq<PadInput>, screen_h: u32, upto: u32)
    ensures
        joined(players, pads, screen_h, upto).len() >= players.len(),
        forall|i: int|
            0 <= i < players.len() ==> #[trigger] joined(players, pads, screen_h, upto)[i]
                == players[i],
        forall|i: int|
            players.len() <= i < joined(players, pads, screen_h, upto).len() ==> {
                let p = #[trigger] joined(players, pads, screen_h, upto)[i];
                p == fresh_player(p.id, slot_color(p.id), screen_h) && 1 <= p.id < upto
                    && !has_slot(players, p.id)
            },
        distinct_ids(players) ==> distinct_ids(joined(players, pads, screen_h, upto)),
        all_within_caps(players) ==> all_within_caps(joined(players, pads, screen_h, upto)),
        game_over(joined(players, pads, screen_h, upto)) == game_over(players),
    decreases upto,
{
    if upto > 1 {
        let slot = (upto - 1) as u32;
        let before = joined(players, pads, screen_h, slot);
        let after = joined(players, pads, screen_h, upto);
        lemma_joined(players, pads, screen_h, slot);
        if after != before {
            let fresh = fresh_player(slot, slot_color(slot), screen_h);
            assert(after == before.push(fresh));
            assert forall|i: int| players.len() <= i < after.len() implies {
                let p = #[trigger] after[i];
                p == fresh_player(p.id, slot_color(p.id), screen_h) && 1 <= p.id < upto
                    && !has_slot(players, p.id)
            } by {
                if i < before.len() {
                    assert(after[i] == before[i]);
                } else {
                    if has_slot(players, slot) {
                        let k = choose|k: int| 0 <= k < players.len() && players[k].id == slot;
                        assert(before[k].id == slot);
                    }
                }
            }
            if distinct_ids(players) {
                assert forall|i: int, j: int| 0 <= i < j < after.len() implies after[i].id
                    != after[j].id by {
                    if j == before.len() {
                        assert(before[i].id != slot);
                    }
                }
            }
            if game_over(after) {
                let k = choose|k: int| 0 <= k < after.len() && after[k].health == 0;
                assert(before[k].health == 0);
            }
            if game_over(before) {
                let k = choose|k: int| 0 <= k < before.len() && before[k].health == 0;
                assert(after[k].health == 0);
            }
        }
    }
}

/// The turns keep every player in place and slot, and within their caps.
pub proof fn lemma_turned(
    players: Seq<Player>,
    pads: Seq<PadInput>,
    tick: u32,
    screen_w: u32,
    screen_h: u32,
)
    ensures
        turned(players, pads, tick, screen_w, screen_h).len() == players.len(),
        forall|i: int|
            0 <= i < players.len() ==> {
                let p = #[trigger] turned(players, pads, tick, screen_w, screen_h)[i];
                p.id == players[i].id && p.health == players[i].health
            },
        distinct_ids(players) ==> distinct_ids(turned(players, pads, tick, screen_w, screen_h)),
        all_within_caps(players) ==> all_within_caps(
            turned(players, pads, tick, screen_w, screen_h),
        ),
{
    let after = turned(players, pads, tick, screen_w, screen_h);
    assert forall|i: int| 0 <= i < players.len() implies {
        let p = #[trigger] after[i];
        p.id == players[i].id && p.health == players[i].health && (players[i].within_caps()
            ==> p.within_caps())
    } by {
        lemma_turn(players[i], pad_of(pads, players[i].id), tick, screen_w, screen_h);
    }
}

/// Whatever is thrown flies along an axis, and nobody throws more than one
/// cake in a frame.
pub proof fn lemma_volley(
    players: Seq<Player>,
    pads: Seq<PadInput>,
    tick: u32,
    screen_w: u32,
    screen_h: u32,
)
    ensures
        all_axis_aligned(volley(players, pads, tick, screen_w, screen_h)),
        volley(players, pads, tick, screen_w, screen_h).len() <= players.len(),
    decreases players.len(),
{
    if players.len() > 0 {
        let p = players.last();
        lemma_volley(players.drop_last(), pads, tick, screen_w, screen_h);
        lemma_turn(p, pad_of(pads, p.id), tick, screen_w, screen_h);
    }
}

/// Tells whether the round is over.
pub fn is_game_over(players: &Vec<Player>) -> (over: bool)
    ensures
        over == game_over(players@),
{
    let n = players.len();
    let mut i: usize = 0;
    while i < n
        invariant
            i <= n,
            n == players@.len(),
            forall|j: int| 0 <= j < i ==> (#[trigger] players@[j]).health != 0,
        decreases n - i,
    {
        if players[i].health == 0 {
            return true;
        }
        i += 1;
    }
    false
}

/// Tells whether some player sits in the slot.
pub fn has_player(players: &Vec<Player>, slot: u32) -> (found: bool)
    ensures
        found == has_slot(players@, slot),
{
    let n = players.len();
    let mut i: usize = 0;
    while i < n
        invariant
            i <= n,
            n == players@.len(),
            forall|j: int| 0 <= j < i ==> (#[trigger] players@[j]).id != slot,
        decreases n - i,
    {
        if players[i].id == slot {
            return true;
        }
        i += 1;
    }
    false
}

/// Starts the session over with the players that are there.
pub fn restart(state: &mut GameState, screen_h: u32)
    ensures
        final(state)@ == restarted(old(state)@.players, screen_h),
{
    let n = state.players.len();
    let mut players: Vec<Player> = Vec::new();
    let mut i: usize = 0;
    while i < n
        invariant
            i <= n,
            n == state.players@.len(),
            players@.len() == i,
            forall|j: int| 0 <= j < i ==> players@[j] == respawned(#[trigger] state.players@[j], screen_h),
        decreases n - i,
    {
        let p = state.players[i];
        players.push(Player::fresh(p.id, p.color, screen_h));
        i += 1;
    }
    assert(players@ =~= state.players@.map_values(|p: Player| respawned(p, screen_h)));
    state.screen = Screen::Menu;
    state.tick = 0;
    state.hit_timer = 0;
    state.players = players;
    state.projectiles = Vec::new();
}

/// Lets every slot but the first join the round.
pub fn join_late(players: &mut Vec<Player>, pads: &Vec<PadInput>, screen_h: u32)
    ensures
        final(players)@ == joined(old(players)@, pads@, screen_h, MAX_PLAYERS),
{
    let ghost before = players@;
    let mut slot: u32 = 1;
    while slot < MAX_PLAYERS
        invariant
            1 <= slot <= MAX_PLAYERS,
            players@ == joined(before, pads@, screen_h, slot),
        decreases MAX_PLAYERS - slot,
    {
        let pad = PadInput::of_slot(pads, slot);
        if (pad.a || pad.b) && !has_player(players, slot) {
            players.push(Player::fresh(slot, player_color(slot), screen_h));
        }
        slot += 1;
    }
}

/// Hands a player the cake that is due in the frame with this tick.
pub fn regenerate(p: &mut Player, tick: u32)
    ensures
        *final(p) == regenerated(*old(p), tick),
{
    if tick % REGEN_PERIOD == 0 {
        if p.cakes < p.max_cakes {
            p.cakes = p.cakes + 1;
        } else {
            p.cakes = p.max_cakes;
        }
    }
}

fn back(pos: i32, speed: u32) -> (next: i32)
    ensures
        next == step_back(pos, speed),
{
    let to: i64 = pos as i64 - speed as i64;
    if to > 0 {
        to as i32
    } else {
        0
    }
}

fn forth(pos: i32, speed: u32, size: u32, extent: u32) -> (next: i32)
    ensures
        next == step_forth(pos, speed, size, extent),
{
    let to: i64 = pos as i64 + speed as i64;
    let edge: i64 = extent as i64 - size as i64;
    if to < edge {
        coord(to)
    } else {
        coord(edge)
    }
}

/// Moves a player as the directions held on their pad say.
pub fn move_player(p: &mut Player, pad: &PadInput, screen_w: u32, screen_h: u32)
    ensures
        *final(p) == moved(*old(p), *pad, screen_w, screen_h),
{
    if pad.up {
        p.y = back(p.y, p.speed);
    }
    if pad.down {
        p.y = forth(p.y, p.speed, p.height, screen_h);
    }
    if pad.left {
        p.x = back(p.x, p.speed);
    }
    if pad.right {
        p.x = forth(p.x, p.speed, p.width, screen_w);
    }
}

/// Throws a cake if the pad asks for one and the player has one: the cake
/// leaves the hand and enters the air together, or neither happens.
pub fn fire(p: &mut Player, pad: &PadInput) -> (cake: Option<Projectile>)
    ensures
        *final(p) == after_fire(*old(p), *pad),
        cake == thrown(*old(p), *pad),
{
    if (pad.start || pad.a || pad.b) && p.cakes != 0 {
        let angle: i32 = if p.id == 0 {
            ANGLE_RIGHT
        } else {
            ANGLE_LEFT
        };
        let cake = spawn(p, angle);
        p.cakes = p.cakes - 1;
        Some(cake)
    } else {
        None
    }
}

/// One player's turn in a frame that is not game over.
pub fn take_turn(p: &mut Player, pad: &PadInput, tick: u32, screen_w: u32, screen_h: u32) -> (cake:
    Option<Projectile>)
    ensures
        *final(p) == turn_player(*old(p), *pad, tick, screen_w, screen_h),
        cake == turn_throw(*old(p), *pad, tick, screen_w, screen_h),
{
    regenerate(p, tick);
    move_player(p, pad, screen_w, screen_h);
    fire(p, pad)
}

/// The turns of all players, in their order. Returns what they threw.
pub fn take_turns(
    players: &mut Vec<Player>,
    pads: &Vec<PadInput>,
    tick: u32,
    screen_w: u32,
    screen_h: u32,
) -> (cakes: Vec<Projectile>)
    ensures
        final(players)@ == turned(old(players)@, pads@, tick, screen_w, screen_h),
        cakes@ == volley(old(players)@, pads@, tick, screen_w, screen_h),
{
    let ghost before = players@;
    let mut cakes: Vec<Projectile> = Vec::new();
    let n = players.len();
    let mut i: usize = 0;
    while i < n
        invariant
            i <= n,
            n == before.len(),
            players@.len() == n,
            forall|j: int|
                0 <= j < i ==> players@[j] == turn_player(
                    #[trigger] before[j],
                    pad_of(pads@, before[j].id),
                    tick,
                    screen_w,
                    screen_h,
                ),
            forall|j: int| i <= j < n ==> players@[j] == before[j],
            cakes@ == volley(before.take(i as int), pads@, tick, screen_w, screen_h),
        decreases n - i,
    {
        let mut p = players[i];
        let pad = PadInput::of_slot(pads, p.id);
        proof {
            assert(before.take(i + 1).drop_last() =~= before.take(i as int));
            assert(before.take(i + 1).last() == before[i as int]);
        }
        match take_turn(&mut p, &pad, tick, screen_w, screen_h) {
            Some(cake) => {
                cakes.push(cake);
            },
            None => {},
        }
        players.set(i, p);
        i += 1;
    }
    assert(before.take(n as int) =~= before);
    assert(players@ =~= turned(before, pads@, tick, screen_w, screen_h));
    cakes
}

} // verus!
