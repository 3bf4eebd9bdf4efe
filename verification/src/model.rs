//! The records of the game: players, cakes in flight, pad input and the
//! state of a round.

use vstd::prelude::*;

verus! {

/// Number of input slots, and so the most players a round can have.
pub const MAX_PLAYERS: u32 = 2;

/// Frames for which a round stays frozen after a player is defeated.
pub const DEAD_FRAMES: u32 = 120;

/// Frames for which nobody can be hurt after a hit that was survived.
pub const INVULNERABLE_FRAMES: u32 = 30;

/// Every player gains one cake each time the tick is a multiple of this.
pub const REGEN_PERIOD: u32 = 50;

/// Where the first player stands at the start of a round.
pub const LEFT_SPAWN_X: i32 = 16;

/// Where every other player stands at the start of a round.
pub const RIGHT_SPAWN_X: i32 = 240;

/// Width of a player's box.
pub const PLAYER_WIDTH: u32 = 14;

/// Height of a player's box.
pub const PLAYER_HEIGHT: u32 = 16;

/// Health, and its cap, at the start of a round.
pub const DEFAULT_HEALTH: u32 = 10;

/// Cakes in hand, and their cap, at the start of a round.
pub const DEFAULT_CAKES: u32 = 5;

/// Pixels that a player walks per frame.
pub const DEFAULT_SPEED: u32 = 2;

/// Health that a cake costs whom it hits.
pub const DEFAULT_DAMAGE: u32 = 1;

/// Heading of a cake thrown by the first player: to the right.
pub const ANGLE_RIGHT: i32 = 0;

/// Heading of a cake thrown by any other player: to the left.
pub const ANGLE_LEFT: i32 = 180;

/// What a projectile is. New kinds are added as variants.
#[derive(Clone, Copy, Debug, PartialEq, Eq, Structural)]
pub enum ProjectileType {
    Basic,
}

/// Which screen the session shows.
#[derive(Clone, Copy, Debug, PartialEq, Eq, Structural)]
pub enum Screen {
    Menu,
    Game,
}

/// One player. The position is the top-left corner of their box.
#[derive(Clone, Copy, Debug, PartialEq, Eq)]
pub struct Player {
    /// The input slot that steers this player.
    pub id: u32,
    pub x: i32,
    pub y: i32,
    pub width: u32,
    pub height: u32,
    pub score: u32,
    pub color: u32,
    pub health: u32,
    pub max_health: u32,
    /// Pixels moved per frame and axis.
    pub speed: u32,
    pub projectile_damage: u32,
    pub projectile_type: ProjectileType,
    /// Cakes in hand.
    pub cakes: u32,
    pub max_cakes: u32,
}

/// One projectile in flight. The position is the top-left corner of its box.
#[derive(Clone, Copy, Debug, PartialEq, Eq)]
pub struct Projectile {
    pub x: i32,
    pub y: i32,
    pub width: u32,
    pub height: u32,
    /// Pixels moved per frame along the heading.
    pub velocity: u32,
    /// Heading in whole degrees; 0 points right, 90 points down the screen.
    pub angle: i32,
    pub damage: u32,
    pub projectile_type: ProjectileType,
    /// Slot of the player that threw it, if anyone did.
    pub projectile_owner: Option<u32>,
    /// Frames left to live; `None` lasts until it leaves the playfield.
    pub ttl: Option<u32>,
}

/// One pad as read in one frame. The directions are held down; the buttons
/// count only in the frame in which they go down.
#[derive(Clone, Copy, Debug, PartialEq, Eq)]
pub struct PadInput {
    pub up: bool,
    pub down: bool,
    pub left: bool,
    pub right: bool,
    pub start: bool,
    pub a: bool,
    pub b: bool,
}

/// The whole session: it is all that one frame hands to the next.
#[derive(Clone, Debug, PartialEq, Eq)]
pub struct GameState {
    pub screen: Screen,
    pub tick: u32,
    /// Cooldown shared by all players: while it runs nobody can be hurt.
    pub hit_timer: u32,
    pub players: Vec<Player>,
    pub projectiles: Vec<Projectile>,
}

/// A state as a mathematical value.
pub struct Snapshot {
    pub screen: Screen,
    pub tick: u32,
    pub hit_timer: u32,
    pub players: Seq<Player>,
    pub projectiles: Seq<Projectile>,
}

impl View for GameState {
    type V = Snapshot;

    open spec fn view(&self) -> Snapshot {
        Snapshot {
            screen: self.screen,
            tick: self.tick,
            hit_timer: self.hit_timer,
            players: self.players@,
            projectiles: self.projectiles@,
        }
    }
}

/// The colour of the player in a slot.
pub open spec fn slot_color(slot: u32) -> u32 {
    if slot == 0 {
        0xffffffffu32
    } else {
        0xff0000ffu32
    }
}

/// Looks up the colour of the player in a slot.
pub fn player_color(slot: u32) -> (c: u32)
    ensures
        c == slot_color(slot),
{
    if slot == 0 {
        0xffffffffu32
    } else {
        0xff0000ffu32
    }
}

/// Where a player of a slot stands when a round begins.
pub open spec fn spawn_x(slot: u32) -> i32 {
    if slot == 0 {
        LEFT_SPAWN_X
    } else {
        RIGHT_SPAWN_X
    }
}

/// A fresh player for a slot on a playfield `screen_h` pixels high.
pub open spec fn fresh_player(slot: u32, color: u32, screen_h: u32) -> Player {
    Player {
        id: slot,
        x: spawn_x(slot),
        y: (screen_h / 2) as i32,
        width: PLAYER_WIDTH,
        height: PLAYER_HEIGHT,
        score: 0,
        color,
        health: DEFAULT_HEALTH,
        max_health: DEFAULT_HEALTH,
        speed: DEFAULT_SPEED,
        projectile_damage: DEFAULT_DAMAGE,
        projectile_type: ProjectileType::Basic,
        cakes: DEFAULT_CAKES,
        max_cakes: DEFAULT_CAKES,
    }
}

/// A pad on which nothing is pressed.
pub open spec fn idle_pad() -> PadInput {
    PadInput {
        up: false,
        down: false,
        left: false,
        right: false,
        start: false,
        a: false,
        b: false,
    }
}

/// What the pad of a slot reports; a slot without a pad reports nothing.
pub open spec fn pad_of(pads: Seq<PadInput>, slot: u32) -> PadInput {
    if slot < pads.len() {
        pads[slot as int]
    } else {
        idle_pad()
    }
}

/// A heading along one of the two axes.
pub open spec fn axis_aligned(angle: i32) -> bool {
    angle % 90 == 0
}

impl Player {
    /// Health and ammunition stay within their caps.
    pub open spec fn within_caps(&self) -> bool {
        self.health <= self.max_health && self.cakes <= self.max_cakes
    }

    /// Builds the player that a slot starts a round with.
    pub fn fresh(slot: u32, color: u32, screen_h: u32) -> (p: Player)
        ensures
            p == fresh_player(slot, color, screen_h),
            p.within_caps(),
    {
        Player {
            id: slot,
            x: if slot == 0 {
                LEFT_SPAWN_X
            } else {
                RIGHT_SPAWN_X
            },
            y: (screen_h / 2) as i32,
            width: PLAYER_WIDTH,
            height: PLAYER_HEIGHT,
            score: 0,
            color,
            health: DEFAULT_HEALTH,
            max_health: DEFAULT_HEALTH,
            speed: DEFAULT_SPEED,
            projectile_damage: DEFAULT_DAMAGE,
            projectile_type: ProjectileType::Basic,
            cakes: DEFAULT_CAKES,
            max_cakes: DEFAULT_CAKES,
        }
    }
}

impl PadInput {
    /// A pad on which nothing is pressed.
    pub fn idle() -> (pad: PadInput)
        ensures
            pad == idle_pad(),
    {
        PadInput {
            up: false,
            down: false,
            left: false,
            right: false,
            start: false,
            a: false,
            b: false,
        }
    }

    /// Reads the pad of a slot out of the pads polled this frame.
    pub fn of_slot(pads: &Vec<PadInput>, slot: u32) -> (pad: PadInput)
        ensures
            pad == pad_of(pads@, slot),
    {
        if (slot as usize) < pads.len() {
            pads[slot as usize]
        } else {
            PadInput::idle()
        }
    }
}

/// No two players share a slot.
pub open spec fn distinct_ids(players: Seq<Player>) -> bool {
    forall|i: int, j: int| 0 <= i < j < players.len() ==> players[i].id != players[j].id
}

/// Every player's health and ammunition are within their caps.
pub open spec fn all_within_caps(players: Seq<Player>) -> bool {
    forall|i: int| 0 <= i < players.len() ==> (#[trigger] players[i]).within_caps()
}

/// Every projectile flies along an axis.
pub open spec fn all_axis_aligned(s: Seq<Projectile>) -> bool {
    forall|i: int| 0 <= i < s.len() ==> axis_aligned((#[trigger] s[i]).angle)
}

impl Snapshot {
    /// What holds of every state that the game reaches: there is at least one
    /// player, no slot is taken twice, every player is within their caps, and
    /// every projectile flies along an axis.
    pub open spec fn well_formed(&self) -> bool {
        &&& self.players.len() >= 1
        &&& distinct_ids(self.players)
        &&& all_within_caps(self.players)
        &&& all_axis_aligned(self.projectiles)
    }
}

/// Tells whether a heading lies along an axis.
pub fn is_axis_aligned(angle: i32) -> (ok: bool)
    ensures
        ok == axis_aligned(angle),
{
    let turn: i64 = (angle as i64 + 2147483880i64) % 90i64;
    assert(turn == angle % 90);
    turn == 0
}

/// Tells whether no two players share a slot.
pub fn has_distinct_ids(players: &Vec<Player>) -> (ok: bool)
    ensures
        ok == distinct_ids(players@),
{
    let n = players.len();
    let mut i: usize = 0;
    while i < n
        invariant
            i <= n,
            n == players@.len(),
            forall|a: int, b: int| 0 <= a < i && a < b < n ==> players@[a].id != players@[b].id,
        decreases n - i,
    {
        let mut j: usize = i + 1;
        while j < n
            invariant
                i < j <= n,
                n == players@.len(),
                forall|b: int| i < b < j ==> players@[i as int].id != players@[b].id,
            decreases n - j,
        {
            if players[i].id == players[j].id {
                return false;
            }
            j += 1;
        }
        i += 1;
    }
    true
}

impl GameState {
    /// Tells whether the state is one that the game can be in.
    pub fn is_well_formed(&self) -> (ok: bool)
        ensures
            ok == self@.well_formed(),
    {
        if self.players.len() == 0 || !has_distinct_ids(&self.players) {
            return false;
        }
        let n = self.players.len();
        let mut i: usize = 0;
        while i < n
            invariant
                i <= n,
                n == self.players@.len(),
                forall|k: int| 0 <= k < i ==> (#[trigger] self.players@[k]).within_caps(),
            decreases n - i,
        {
            let p = self.players[i];
            if p.health > p.max_health || p.cakes > p.max_cakes {
                return false;
            }
            i += 1;
        }
        let m = self.projectiles.len();
        let mut j: usize = 0;
        while j < m
            invariant
                j <= m,
                m == self.projectiles@.len(),
                forall|k: int| 0 <= k < j ==> axis_aligned((#[trigger] self.projectiles@[k]).angle),
            decreases m - j,
        {
            if !is_axis_aligned(self.projectiles[j].angle) {
                return false;
            }
            j += 1;
        }
        true
    }

    /// The state in which a session starts: the menu, with the first player
    /// alone, halfway down a playfield `screen_h` pixels high.
    pub fn new(screen_h: u32) -> (state: GameState)
        ensures
            state@.screen == Screen::Menu,
            state@.tick == 0,
            state@.hit_timer == 0,
            state@.players == seq![fresh_player(0, slot_color(0), screen_h)],
            state@.projectiles == Seq::<Projectile>::empty(),
            state@.well_formed(),
    {
        let mut players: Vec<Player> = Vec::new();
        players.push(Player::fresh(0, player_color(0), screen_h));
        let state = GameState {
            screen: Screen::Menu,
            tick: 0,
            hit_timer: 0,
            players,
            projectiles: Vec::new(),
        };
        assert(state@.players =~= seq![fresh_player(0, slot_color(0), screen_h)]);
        state
    }
}

} // verus!
