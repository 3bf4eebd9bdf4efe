//! Hits: which cake strikes which player, what it costs them, and what it
//! does to the cooldown that all players share.
//!
//! Every player is tested against the cooldown as it stood when the frame
//! began, so that a hit on one player never shields another in the same
//! frame. A hit starts the cooldown, so no player is struck twice in a frame.

use vstd::prelude::*;
use crate::geometry::{check_collision, overlaps};
use crate::model::{
    all_axis_aligned, axis_aligned, Player, Projectile, DEAD_FRAMES, INVULNERABLE_FRAMES,
};

verus! {

/// A projectile threatens a player whom it overlaps and who did not throw it.
pub open spec fn threatens(pr: Projectile, pl: Player) -> bool {
    pr.projectile_owner != Some(pl.id) && overlaps(
        pr.x as int,
        pr.y as int,
        pr.width as int,
        pr.height as int,
        pl.x as int,
        pl.y as int,
        pl.width as int,
        pl.height as int,
    )
}

/// The place of the first projectile at or after `from` that threatens the
/// player, or the length of the list where there is none.
pub open spec fn first_threat(s: Seq<Projectile>, pl: Player, from: int) -> int
    decreases s.len() - from,
{
    if from < 0 || from >= s.len() {
        s.len() as int
    } else if threatens(s[from], pl) {
        from
    } else {
        first_threat(s, pl, from + 1)
    }
}

/// Health that is left after a hit: it never falls below zero.
pub open spec fn health_after(health: u32, damage: u32) -> u32 {
    if damage >= health {
        0u32
    } else {
        (health - damage) as u32
    }
}

/// The shared cooldown after a hit that took a player from `before` to
/// `after` health: a defeat freezes the round, a survived hit shields
/// everybody for a moment, and a hit on the already defeated changes nothing.
pub open spec fn timer_after(before: u32, after: u32, timer: u32) -> u32 {
    if before > 0 && after == 0 {
        DEAD_FRAMES
    } else if after > 0 {
        INVULNERABLE_FRAMES
    } else {
        timer
    }
}

/// A player with another amount of health.
pub open spec fn with_health(pl: Player, health: u32) -> Player {
    Player { health, ..pl }
}

/// The outcome of testing players against the projectiles in flight.
pub struct Fray {
    pub players: Seq<Player>,
    pub projectiles: Seq<Projectile>,
    pub hit_timer: u32,
}

/// One player against the projectiles. Where the cooldown stood at zero when
/// the frame began (`gate`) and the player is alive, the first projectile that
/// threatens them strikes: it is removed, the player pays its damage, and the
/// cooldown `timer` is set. Otherwise nothing changes.
pub open spec fn clash(pl: Player, s: Seq<Projectile>, gate: u32, timer: u32) -> (
    Player,
    Seq<Projectile>,
    u32,
) {
    let k = first_threat(s, pl, 0);
    if gate == 0 && pl.health > 0 && k < s.len() {
        let left = health_after(pl.health, s[k].damage);
        (with_health(pl, left), s.remove(k), timer_after(pl.health, left, timer))
    } else {
        (pl, s, timer)
    }
}

/// The first `upto` players, in their order, each against the projectiles
/// that the players before them left in flight.
pub open spec fn resolved(players: Seq<Player>, s: Seq<Projectile>, gate: u32, upto: int) -> Fray
    decreases upto,
{
    if upto <= 0 {
        Fray { players, projectiles: s, hit_timer: gate }
    } else {
        let prev = resolved(players, s, gate, upto - 1);
        let c = clash(prev.players[upto - 1], prev.projectiles, gate, prev.hit_timer);
        Fray { players: prev.players.update(upto - 1, c.0), projectiles: c.1, hit_timer: c.2 }
    }
}

/// Tells whether a projectile threatens a player.
pub fn is_threat(pr: &Projectile, pl: &Player) -> (t: bool)
    ensures
        t == threatens(*pr, *pl),
{
    let own = match pr.projectile_owner {
        Some(id) => id == pl.id,
        None => false,
    };
    !own && check_collision(pr.x, pr.y, pr.width, pr.height, pl.x, pl.y, pl.width, pl.height)
}

/// Finds the first projectile that threatens a player.
pub fn find_threat(projectiles: &Vec<Projectile>, pl: &Player) -> (found: Option<usize>)
    ensures
        match found {
            Some(k) => k < projectiles@.len() && k == first_threat(projectiles@, *pl, 0),
            None => first_threat(projectiles@, *pl, 0) == projectiles@.len(),
        },
{
    let n = projectiles.len();
    let mut i: usize = 0;
    while i < n
        invariant
            i <= n,
            n == projectiles@.len(),
            first_threat(projectiles@, *pl, 0) == first_threat(projectiles@, *pl, i as int),
        decreases n - i,
    {
        if is_threat(&projectiles[i], pl) {
            return Some(i);
        }
        i += 1;
    }
    None
}

/// Takes the damage of one hit from a player and returns the shared cooldown
/// that follows from it.
pub fn apply_hit(pl: &mut Player, damage: u32, timer: u32) -> (next: u32)
    ensures
        *final(pl) == with_health(*old(pl), health_after(old(pl).health, damage)),
        next == timer_after(old(pl).health, final(pl).health, timer),
{
    let before = pl.health;
    pl.health = before.saturating_sub(damage);
    if before > 0 && pl.health == 0 {
        DEAD_FRAMES
    } else if pl.health > 0 {
        INVULNERABLE_FRAMES
    } else {
        timer
    }
}

/// Tests every player against the projectiles in flight, strikes those who
/// are hit, removes the projectiles that struck, and returns the shared
/// cooldown. `hit_timer` is the cooldown as the frame began.
pub fn resolve_collisions(
    players: &mut Vec<Player>,
    projectiles: &mut Vec<Projectile>,
    hit_timer: u32,
) -> (timer: u32)
    ensures
        final(players)@ == resolved(
            old(players)@,
            old(projectiles)@,
            hit_timer,
            old(players)@.len() as int,
        ).players,
        final(projectiles)@ == resolved(
            old(players)@,
            old(projectiles)@,
            hit_timer,
            old(players)@.len() as int,
        ).projectiles,
        timer == resolved(
            old(players)@,
            old(projectiles)@,
            hit_timer,
            old(players)@.len() as int,
        ).hit_timer,
{
    let ghost before = players@;
    let ghost flying = projectiles@;
    let n = players.len();
    let mut timer = hit_timer;
    let mut i: usize = 0;
    while i < n
        invariant
            i <= n,
            n == before.len(),
            players@ == resolved(before, flying, hit_timer, i as int).players,
            projectiles@ == resolved(before, flying, hit_timer, i as int).projectiles,
            timer == resolved(before, flying, hit_timer, i as int).hit_timer,
            players@.len() == n,
        decreases n - i,
    {
        let mut pl = players[i];
        if hit_timer == 0 && pl.health > 0 {
            match find_threat(projectiles, &pl) {
                Some(k) => {
                    let struck = projectiles.remove(k);
                    timer = apply_hit(&mut pl, struck.damage, timer);
                    players.set(i, pl);
                },
                None => {},
            }
        }
        assert(players@ =~= resolved(before, flying, hit_timer, i + 1).players);
        i += 1;
    }
    timer
}

/// The first threat is where it says: the projectile there threatens the
/// player, and none between `from` and it does.
pub proof fn lemma_first_threat(s: Seq<Projectile>, pl: Player, from: int)
    requires
        0 <= from <= s.len(),
    ensures
        from <= first_threat(s, pl, from) <= s.len(),
        first_threat(s, pl, from) < s.len() ==> threatens(s[first_threat(s, pl, from)], pl),
        forall|j: int| from <= j < first_threat(s, pl, from) ==> !threatens(#[trigger] s[j], pl),
    decreases s.len() - from,
{
    if from < s.len() && !threatens(s[from], pl) {
        lemma_first_threat(s, pl, from + 1);
    }
}

/// At most one projectile strikes a player in a frame. Where none does,
/// nothing changes. Where one does, the cooldown stood at zero and the player
/// was alive, the cooldown runs afterwards, and every projectile that did not
/// threaten the player is still in flight.
pub proof fn lemma_clash(pl: Player, s: Seq<Projectile>, gate: u32, timer: u32)
    ensures
        clash(pl, s, gate, timer).1.len() == s.len() || clash(pl, s, gate, timer).1.len() + 1
            == s.len(),
        clash(pl, s, gate, timer).1.len() == s.len() ==> clash(pl, s, gate, timer) == (
            pl,
            s,
            timer,
        ),
        clash(pl, s, gate, timer).1.len() + 1 == s.len() ==> {
            &&& gate == 0
            &&& pl.health > 0
            &&& clash(pl, s, gate, timer).2 > 0
            &&& clash(pl, s, gate, timer).0.health <= pl.health
        },
        forall|j: int|
            0 <= j < s.len() && !threatens(#[trigger] s[j], pl) ==> clash(
                pl,
                s,
                gate,
                timer,
            ).1.contains(s[j]),
{
    lemma_first_threat(s, pl, 0);
    let k = first_threat(s, pl, 0);
    let out = clash(pl, s, gate, timer).1;
    assert forall|j: int| 0 <= j < s.len() && !threatens(#[trigger] s[j], pl) implies out.contains(
        s[j],
    ) by {
        if out == s {
            assert(out[j] == s[j]);
        } else if j < k {
            assert(out[j] == s[j]);
        } else {
            assert(out[j - 1] == s[j]);
        }
    }
}

/// Resolving hits keeps every player as they were but for their health,
/// which never rises; it adds no projectile and turns none.
pub proof fn lemma_resolved_keeps(players: Seq<Player>, s: Seq<Projectile>, gate: u32, upto: int)
    requires
        0 <= upto <= players.len(),
    ensures
        resolved(players, s, gate, upto).players.len() == players.len(),
        forall|i: int|
            0 <= i < players.len() ==> {
                let after = #[trigger] resolved(players, s, gate, upto).players[i];
                after.health <= players[i].health && after == with_health(players[i], after.health)
            },
        all_axis_aligned(s) ==> all_axis_aligned(resolved(players, s, gate, upto).projectiles),
        resolved(players, s, gate, upto).projectiles.len() <= s.len(),
    decreases upto,
{
    if upto > 0 {
        lemma_resolved_keeps(players, s, gate, upto - 1);
        let prev = resolved(players, s, gate, upto - 1);
        let now = resolved(players, s, gate, upto);
        lemma_first_threat(prev.projectiles, prev.players[upto - 1], 0);
        let k = first_threat(prev.projectiles, prev.players[upto - 1], 0);
        if all_axis_aligned(s) && now.projectiles != prev.projectiles {
            assert forall|i: int| 0 <= i < now.projectiles.len() implies axis_aligned(
                (#[trigger] now.projectiles[i]).angle,
            ) by {
                if i < k {
                    assert(now.projectiles[i] == prev.projectiles[i]);
                } else {
                    assert(now.projectiles[i] == prev.projectiles[i + 1]);
                }
            }
        }
        assert forall|i: int| 0 <= i < players.len() implies {
            let after = #[trigger] now.players[i];
            after.health <= players[i].health && after == with_health(players[i], after.health)
        } by {
            let mid = prev.players[i];
            assert(mid.health <= players[i].health);
        }
    }
}

/// While the cooldown runs, nobody is hurt and no projectile is removed.
pub proof fn lemma_cooldown_shields(players: Seq<Player>, s: Seq<Projectile>, gate: u32, upto: int)
    requires
        gate > 0,
        0 <= upto <= players.len(),
    ensures
        resolved(players, s, gate, upto) == (Fray { players, projectiles: s, hit_timer: gate }),
    decreases upto,
{
    if upto > 0 {
        lemma_cooldown_shields(players, s, gate, upto - 1);
        assert(players.update(upto - 1, players[upto - 1]) =~= players);
    }
}

} // verus!
