//! Cakes in flight: how one is thrown, how it moves, and when it is gone.

use vstd::prelude::*;
use crate::geometry::{coord, to_coord};
use crate::model::{all_axis_aligned, axis_aligned, Player, Projectile, ProjectileType};

verus! {

/// Width of a cake's box.
pub const CAKE_WIDTH: u32 = 6;

/// Height of a cake's box.
pub const CAKE_HEIGHT: u32 = 7;

/// Pixels that a cake flies per frame.
pub const CAKE_VELOCITY: u32 = 5;

/// A cake leaves the thrower this far left of the middle of their box.
pub const CAKE_OFFSET: i32 = 2;

/// Pixels per frame at which a projectile of a kind flies.
pub open spec fn velocity_of(kind: ProjectileType) -> u32 {
    match kind {
        ProjectileType::Basic => CAKE_VELOCITY,
    }
}

/// Width and height of a projectile of a kind.
pub open spec fn size_of(kind: ProjectileType) -> (u32, u32) {
    match kind {
        ProjectileType::Basic => (CAKE_WIDTH, CAKE_HEIGHT),
    }
}

/// The projectile that `owner` throws at `angle`: it starts at the thrower's
/// height, centred on their box, and lives until it leaves the playfield.
pub open spec fn spawned(owner: Player, angle: i32) -> Projectile {
    Projectile {
        x: to_coord(owner.x + owner.width / 2 - CAKE_OFFSET),
        y: owner.y,
        width: size_of(owner.projectile_type).0,
        height: size_of(owner.projectile_type).1,
        velocity: velocity_of(owner.projectile_type),
        angle,
        damage: owner.projectile_damage,
        projectile_type: owner.projectile_type,
        projectile_owner: Some(owner.id),
        ttl: None,
    }
}

/// Pixels that a projectile moves to the right in one frame.
pub open spec fn step_x(p: Projectile) -> int {
    let a = p.angle % 360;
    if a == 0 {
        p.velocity as int
    } else if a == 180 {
        -(p.velocity as int)
    } else {
        0
    }
}

/// Pixels that a projectile moves down the screen in one frame.
pub open spec fn step_y(p: Projectile) -> int {
    let a = p.angle % 360;
    if a == 90 {
        p.velocity as int
    } else if a == 270 {
        -(p.velocity as int)
    } else {
        0
    }
}

/// The lifetime that is left after one more frame.
pub open spec fn aged(ttl: Option<u32>) -> Option<u32> {
    match ttl {
        Some(t) => Some(
            if t > 0 {
                (t - 1) as u32
            } else {
                0u32
            },
        ),
        None => None,
    }
}

/// A projectile one frame later: moved by its velocity along its heading,
/// with one frame less to live.
pub open spec fn advanced(p: Projectile) -> Projectile {
    Projectile { x: to_coord(p.x + step_x(p)), y: to_coord(p.y + step_y(p)), ttl: aged(p.ttl), ..p }
}

/// All projectiles one frame later.
pub open spec fn flown(s: Seq<Projectile>) -> Seq<Projectile> {
    s.map_values(|p: Projectile| advanced(p))
}

/// A projectile is gone once its lifetime has run out or it has left the
/// playfield: past the right or bottom edge, or wholly past the left or top.
pub open spec fn expired(p: Projectile, screen_w: u32, screen_h: u32) -> bool {
    ||| p.ttl == Some(0u32)
    ||| p.y < -(p.height as int)
    ||| p.x < -(p.width as int)
    ||| p.x > screen_w
    ||| p.y > screen_h
}

/// The projectiles that stay, in the order in which they stood.
pub open spec fn survivors(s: Seq<Projectile>, screen_w: u32, screen_h: u32) -> Seq<Projectile>
    decreases s.len(),
{
    if s.len() == 0 {
        Seq::empty()
    } else {
        let rest = survivors(s.drop_last(), screen_w, screen_h);
        if expired(s.last(), screen_w, screen_h) {
            rest
        } else {
            rest.push(s.last())
        }
    }
}

/// Whether a projectile appended to a list stays is decided by that
/// projectile alone.
pub proof fn lemma_survivors_push(s: Seq<Projectile>, p: Projectile, screen_w: u32, screen_h: u32)
    ensures
        survivors(s.push(p), screen_w, screen_h) == if expired(p, screen_w, screen_h) {
            survivors(s, screen_w, screen_h)
        } else {
            survivors(s, screen_w, screen_h).push(p)
        },
{
    assert(s.push(p).drop_last() =~= s);
    assert(s.push(p).last() == p);
}

/// What stays after the cleanup is what was there and is not gone, and
/// nothing else.
pub proof fn lemma_survivors(s: Seq<Projectile>, screen_w: u32, screen_h: u32)
    ensures
        survivors(s, screen_w, screen_h).len() <= s.len(),
        forall|p: Projectile|
            #![trigger survivors(s, screen_w, screen_h).contains(p)]
            #![trigger s.contains(p)]
            survivors(s, screen_w, screen_h).contains(p) <==> (s.contains(p) && !expired(
                p,
                screen_w,
                screen_h,
            )),
        all_axis_aligned(s) ==> all_axis_aligned(survivors(s, screen_w, screen_h)),
    decreases s.len(),
{
    let out = survivors(s, screen_w, screen_h);
    if s.len() > 0 {
        let front = s.drop_last();
        let rest = survivors(front, screen_w, screen_h);
        lemma_survivors(front, screen_w, screen_h);
        assert forall|p: Projectile|
            #![trigger out.contains(p)]
            #![trigger s.contains(p)]
            out.contains(p) <==> (s.contains(p) && !expired(p, screen_w, screen_h)) by {
            if out.contains(p) {
                let j = choose|j: int| 0 <= j < out.len() && out[j] == p;
                if j < rest.len() {
                    assert(rest[j] == p);
                    assert(rest.contains(p));
                    let k = choose|k: int| 0 <= k < front.len() && front[k] == p;
                    assert(s[k] == p);
                } else {
                    assert(s[s.len() - 1] == p);
                }
            }
            if s.contains(p) && !expired(p, screen_w, screen_h) {
                let k = choose|k: int| 0 <= k < s.len() && s[k] == p;
                if k < front.len() {
                    assert(front[k] == p);
                    assert(front.contains(p));
                    let j = choose|j: int| 0 <= j < rest.len() && rest[j] == p;
                    assert(out[j] == p);
                } else {
                    assert(out[rest.len() as int] == p);
                }
            }
        }
    }
    if all_axis_aligned(s) {
        assert forall|i: int| 0 <= i < out.len() implies axis_aligned((#[trigger] out[i]).angle) by {
            assert(out.contains(out[i]));
            let k = choose|k: int| 0 <= k < s.len() && s[k] == out[i];
            assert(axis_aligned(s[k].angle));
        }
    }
}

/// The cleanup is a filter: it keeps, in order, the projectiles that are not
/// gone.
pub proof fn lemma_survivors_filter(s: Seq<Projectile>, screen_w: u32, screen_h: u32)
    ensures
        survivors(s, screen_w, screen_h) == s.filter(
            |p: Projectile| !expired(p, screen_w, screen_h),
        ),
    decreases s.len(),
{
    let keep = |p: Projectile| !expired(p, screen_w, screen_h);
    reveal(Seq::filter);
    if s.len() > 0 {
        lemma_survivors_filter(s.drop_last(), screen_w, screen_h);
        let rest = s.drop_last().filter(keep);
        assert(rest == survivors(s.drop_last(), screen_w, screen_h));
        assert(s.filter(keep) == if keep(s.last()) {
            rest.push(s.last())
        } else {
            rest
        });
    } else {
        assert(s.filter(keep) =~= Seq::<Projectile>::empty());
    }
}

/// A projectile with one frame left to live is gone after one more frame,
/// wherever it is.
pub proof fn lemma_last_frame(p: Projectile, screen_w: u32, screen_h: u32)
    requires
        p.ttl == Some(1u32),
    ensures
        expired(advanced(p), screen_w, screen_h),
{
}

/// A projectile that has left the playfield does not stay, whatever its
/// lifetime.
pub proof fn lemma_left_field(s: Seq<Projectile>, i: int, screen_w: u32, screen_h: u32)
    requires
        0 <= i < s.len(),
        s[i].x > screen_w || s[i].y > screen_h || s[i].x < -(s[i].width as int) || s[i].y < -(
        s[i].height as int),
    ensures
        !survivors(s, screen_w, screen_h).contains(s[i]),
{
    lemma_survivors(s, screen_w, screen_h);
    assert(expired(s[i], screen_w, screen_h));
}

/// A projectile moves by its velocity along its heading: to the right at 0
/// degrees, to the left at 180, and not at all across.
pub proof fn lemma_heading(p: Projectile)
    ensures
        p.angle == 0 ==> step_x(p) == p.velocity && step_y(p) == 0,
        p.angle == 180 ==> step_x(p) == -(p.velocity as int) && step_y(p) == 0,
        advanced(p).angle == p.angle,
        advanced(p).velocity == p.velocity,
{
}

/// Throws a projectile for `owner`, who must have a cake in hand. Whoever
/// calls this takes that cake out of the thrower's hand.
pub fn spawn(owner: &Player, angle: i32) -> (p: Projectile)
    requires
        owner.cakes > 0,
    ensures
        p == spawned(*owner, angle),
{
    let (width, height, velocity) = match owner.projectile_type {
        ProjectileType::Basic => (CAKE_WIDTH, CAKE_HEIGHT, CAKE_VELOCITY),
    };
    Projectile {
        x: coord(owner.x as i64 + (owner.width / 2) as i64 - CAKE_OFFSET as i64),
        y: owner.y,
        width,
        height,
        velocity,
        angle,
        damage: owner.projectile_damage,
        projectile_type: owner.projectile_type,
        projectile_owner: Some(owner.id),
        ttl: None,
    }
}

/// Moves a projectile by one frame.
pub fn advance(p: &mut Projectile)
    requires
        axis_aligned(old(p).angle),
    ensures
        *final(p) == advanced(*old(p)),
{
    let turn: i64 = (p.angle as i64 + 2147483880i64) % 360i64;
    assert(turn == p.angle % 360);
    let v: i64 = p.velocity as i64;
    let dx: i64 = if turn == 0 {
        v
    } else if turn == 180 {
        -v
    } else {
        0
    };
    let dy: i64 = if turn == 90 {
        v
    } else if turn == 270 {
        -v
    } else {
        0
    };
    p.x = coord(p.x as i64 + dx);
    p.y = coord(p.y as i64 + dy);
    p.ttl = match p.ttl {
        Some(t) => Some(t.saturating_sub(1)),
        None => None,
    };
}

/// Tells whether a projectile is to be removed from the playfield.
pub fn is_expired(p: &Projectile, screen_w: u32, screen_h: u32) -> (gone: bool)
    ensures
        gone == expired(*p, screen_w, screen_h),
{
    let out_of_time = match p.ttl {
        Some(t) => t == 0,
        None => false,
    };
    let x: i64 = p.x as i64;
    let y: i64 = p.y as i64;
    out_of_time || y < -(p.height as i64) || x < -(p.width as i64) || x > screen_w as i64 || y
        > screen_h as i64
}

/// Moves every projectile by one frame.
pub fn advance_all(projectiles: &mut Vec<Projectile>)
    requires
        all_axis_aligned(old(projectiles)@),
    ensures
        final(projectiles)@ == flown(old(projectiles)@),
        all_axis_aligned(final(projectiles)@),
{
    let ghost before = projectiles@;
    let n = projectiles.len();
    let mut i: usize = 0;
    while i < n
        invariant
            i <= n,
            projectiles@.len() == n,
            before.len() == n,
            all_axis_aligned(before),
            forall|j: int| 0 <= j < i ==> projectiles@[j] == advanced(#[trigger] before[j]),
            forall|j: int| i <= j < n ==> projectiles@[j] == before[j],
        decreases n - i,
    {
        let mut p = projectiles[i];
        assert(axis_aligned(before[i as int].angle));
        advance(&mut p);
        projectiles.set(i, p);
        i += 1;
    }
    assert(projectiles@ =~= flown(before));
}

/// Drops the projectiles that are gone and keeps the others in their order.
pub fn remove_expired(projectiles: &mut Vec<Projectile>, screen_w: u32, screen_h: u32)
    ensures
        final(projectiles)@ == survivors(old(projectiles)@, screen_w, screen_h),
        all_axis_aligned(old(projectiles)@) ==> all_axis_aligned(final(projectiles)@),
{
    let ghost before = projectiles@;
    let mut kept: Vec<Projectile> = Vec::new();
    let n = projectiles.len();
    let mut i: usize = 0;
    while i < n
        invariant
            i <= n,
            projectiles@ == before,
            before.len() == n,
            kept@ == survivors(before.take(i as int), screen_w, screen_h),
        decreases n - i,
    {
        let p = projectiles[i];
        proof {
            lemma_survivors_push(before.take(i as int), p, screen_w, screen_h);
            assert(before.take(i as int).push(p) =~= before.take(i + 1));
        }
        if !is_expired(&p, screen_w, screen_h) {
            kept.push(p);
        }
        i += 1;
    }
    proof {
        assert(before.take(n as int) =~= before);
        lemma_survivors(before, screen_w, screen_h);
    }
    *projectiles = kept;
}

} // verus!
