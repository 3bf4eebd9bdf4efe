//! What the screen shows of a state: who has won, how full the bars above a
//! player are, and when the prompts blink.

use vstd::prelude::*;
use crate::model::Player;

verus! {

/// Width of a full bar, in pixels.
pub const BAR_WIDTH: u32 = 10;

/// Colour of a health bar that is at most a quarter full.
pub const COLOR_LOW: u32 = 0xff0000ff;

/// Colour of a health bar that is at most half full.
pub const COLOR_HALF: u32 = 0xff9900ff;

/// Colour of a health bar that is more than half full.
pub const COLOR_GOOD: u32 = 0x00ff00ff;

/// The place of the first player at or after `from` who still has health, or
/// the number of players where there is none.
pub open spec fn first_alive(players: Seq<Player>, from: int) -> int
    decreases players.len() - from,
{
    if from < 0 || from >= players.len() {
        players.len() as int
    } else if players[from].health > 0 {
        from
    } else {
        first_alive(players, from + 1)
    }
}

/// The slot of the winner: the first player who still has health. Where
/// nobody has, the round is a draw.
pub open spec fn winner_of(players: Seq<Player>) -> Option<u32> {
    let k = first_alive(players, 0);
    if k < players.len() {
        Some(players[k].id)
    } else {
        None
    }
}

/// Pixels of a bar that are filled when `value` of `cap` is left. A bar
/// without a cap is empty, and none is fuller than full.
pub open spec fn bar_fill_of(value: u32, cap: u32) -> int {
    if cap == 0 {
        0
    } else if value >= cap {
        BAR_WIDTH as int
    } else {
        value * BAR_WIDTH / (cap as int)
    }
}

/// The colour of the health bar: the warning colour up to a quarter of the
/// cap, the middle one up to half of it, the good one above.
pub open spec fn health_color_of(health: u32, max_health: u32) -> u32 {
    if max_health == 0 {
        COLOR_GOOD
    } else if health * 4 <= max_health {
        COLOR_LOW
    } else if health * 2 <= max_health {
        COLOR_HALF
    } else {
        COLOR_GOOD
    }
}

/// The first player at or after `from` who still has health is where
/// `first_alive` says, and nobody before them has any.
pub proof fn lemma_first_alive(players: Seq<Player>, from: int)
    requires
        0 <= from <= players.len(),
    ensures
        from <= first_alive(players, from) <= players.len(),
        first_alive(players, from) < players.len() ==> players[first_alive(players, from)].health
            > 0,
        forall|j: int| from <= j < first_alive(players, from) ==> (#[trigger] players[j]).health == 0,
    decreases players.len() - from,
{
    if from < players.len() && players[from].health == 0 {
        lemma_first_alive(players, from + 1);
    }
}

/// Finds the winner of a round that is over.
pub fn winner(players: &Vec<Player>) -> (slot: Option<u32>)
    ensures
        slot == winner_of(players@),
{
    let n = players.len();
    let mut i: usize = 0;
    while i < n
        invariant
            i <= n,
            n == players@.len(),
            first_alive(players@, 0) == first_alive(players@, i as int),
        decreases n - i,
    {
        if players[i].health > 0 {
            return Some(players[i].id);
        }
        i += 1;
    }
    None
}

/// Computes how many pixels of a bar are filled.
pub fn bar_fill(value: u32, cap: u32) -> (fill: u32)
    ensures
        fill == bar_fill_of(value, cap),
        fill <= BAR_WIDTH,
{
    if cap == 0 {
        0
    } else if value >= cap {
        BAR_WIDTH
    } else {
        let width: u64 = BAR_WIDTH as u64;
        assert(value * width <= 0xffff_ffff * 10) by (nonlinear_arith)
            requires
                value <= 0xffff_ffff,
                width == 10,
        ;
        let scaled: u64 = value as u64 * width;
        let fill: u64 = scaled / cap as u64;
        assert(fill <= 10) by (nonlinear_arith)
            requires
                fill == scaled / (cap as u64),
                scaled == value * 10,
                value < cap,
                cap > 0,
        ;
        fill as u32
    }
}

/// Picks the colour of the health bar.
pub fn health_color(health: u32, max_health: u32) -> (color: u32)
    ensures
        color == health_color_of(health, max_health),
{
    if max_health == 0 {
        COLOR_GOOD
    } else if health as u64 * 4 <= max_health as u64 {
        COLOR_LOW
    } else if health as u64 * 2 <= max_health as u64 {
        COLOR_HALF
    } else {
        COLOR_GOOD
    }
}

/// The menu's prompt shows for the first half of every 60 frames.
pub fn start_prompt_visible(tick: u32) -> (shown: bool)
    ensures
        shown == (tick % 60 < 30),
{
    tick % 60 < 30
}

/// The prompt to start over shows once the cooldown has run out, four
/// frames in every eight, counted in steps of four ticks.
pub fn restart_prompt_visible(tick: u32, hit_timer: u32) -> (shown: bool)
    ensures
        shown == (hit_timer == 0 && (tick / 4) % 8 < 4),
{
    hit_timer == 0 && (tick / 4) % 8 < 4
}

/// Where the things that drift across the screen stand at a tick.
pub fn drift_x(tick: u32) -> (x: u32)
    ensures
        x == tick % 256,
{
    tick % 256
}

} // verus!
