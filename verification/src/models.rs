//! The records that make up a snapshot of the world, and the messages that
//! travel between a ship and the arena.

use crate::geom::Heading;
use rand::Rng;
use std::collections::HashMap;
use vstd::prelude::*;

verus! {

/// Radius of a bullet, in grid steps.
pub const BULLET_RADIUS: i32 = 2_000;

/// Speed of a bullet, in grid steps per second.
pub const BULLET_SPEED: i32 = 300_000;

/// Radius of a ship, in grid steps.
pub const PLAYER_RADIUS: i32 = 10_000;

/// Speed of a ship at full throttle, in grid steps per second.
pub const PLAYER_BASE_SPEED: i32 = 150_000;

/// The throttle of a ship at rest, in thousandths.
pub const PLAYER_MIN_THROTTLE: u32 = 0;

/// Full throttle, in thousandths.
pub const PLAYER_MAX_THROTTLE: u32 = 1000;

/// Commands that follow one another faster than this many milliseconds are
/// not all obeyed.
pub const MIN_COMMAND_INTERVAL: u64 = 50;

/// What a ship may ask of the arena in one tick.
#[derive(Clone, Copy, Debug, PartialEq, Eq, Structural)]
pub enum GameCommand {
    /// Face the given heading.
    Rotate(Heading),
    /// Set the throttle, in thousandths; more than full counts as full.
    Throttle(u32),
    /// Fire along the current heading.
    Fire,
}

/// A ship in play.
#[derive(Clone, Copy, Debug, PartialEq, Eq, Structural)]
pub struct PlayerState {
    pub id: u32,
    pub angle: Heading,
    pub throttle: u32,
    pub x: i32,
    pub y: i32,
}

/// A bullet in flight. It keeps the heading it was fired with.
#[derive(Clone, Copy, Debug, PartialEq, Eq, Structural)]
pub struct BulletState {
    pub id: u32,
    pub player_id: u32,
    pub angle: Heading,
    pub x: i32,
    pub y: i32,
}

/// A ship that was shot down, and the time at which it returns.
#[derive(Clone, Copy, Debug, PartialEq, Eq, Structural)]
pub struct DeadPlayer {
    pub respawn: u64,
    pub player: PlayerState,
}

/// The size of the arena, which reaches from the origin to `width` and
/// `height`.
#[derive(Clone, Copy, Debug, PartialEq, Eq, Structural)]
pub struct Bounds {
    pub width: i32,
    pub height: i32,
}

/// Everything a ship is told of the world in one tick.
#[derive(Clone, Debug)]
pub struct GameState {
    pub bounds: Bounds,
    pub players: Vec<PlayerState>,
    pub dead: Vec<DeadPlayer>,
    pub bullets: Vec<BulletState>,
    pub scoreboard: HashMap<u32, u32>,
}

/// What a client knows: its own id and the latest snapshot.
#[derive(Clone, Debug)]
pub struct ClientState {
    pub id: u32,
    pub game_state: GameState,
}

/// What the arena sends to a client.
#[derive(Clone, Debug)]
pub enum ServerToClient {
    /// The id of the ship that the client steers.
    Id(u32),
    /// The snapshot of one tick.
    GameState(GameState),
    /// The display name of each ship.
    TeamNames(HashMap<u32, String>),
}

/// Draws a whole number from zero up to, but not including, `bound`. The
/// body calls `Rng::gen_range` of the `rand` crate on the generator that
/// `rand::thread_rng` hands out; `gen_range(low, high)` returns a value of the
/// half-open range from `low` to `high`, and panics unless `low < high`.
#[verifier::external_body]
fn random_below(bound: i32) -> (r: i32)
    requires
        bound > 0,
    ensures
        0 <= r < bound,
{
    rand::thread_rng().gen_range(0, bound)
}

impl PlayerState {
    /// A ship at the origin, at rest, facing east.
    pub fn new(id: u32) -> (p: PlayerState)
        ensures
            p.id == id,
            p.angle.x() == crate::geom::HEADING_ONE,
            p.angle.y() == 0,
            p.throttle == 0,
            p.x == 0,
            p.y == 0,
    {
        PlayerState { id, angle: Heading::east(), throttle: 0, x: 0, y: 0 }
    }

    /// Moves the ship to the given point.
    pub fn place(&mut self, x: i32, y: i32)
        ensures
            *final(self) == (PlayerState { x, y, ..*old(self) }),
    {
        self.x = x;
        self.y = y;
    }

    /// Moves the ship to a point drawn at random from the rectangle that
    /// reaches from the origin to `bounds`, its far edges left out.
    pub fn randomize(&mut self, bounds: Bounds)
        requires
            bounds.width > 0,
            bounds.height > 0,
        ensures
            final(self).id == old(self).id,
            final(self).angle == old(self).angle,
            final(self).throttle == old(self).throttle,
            0 <= final(self).x < bounds.width,
            0 <= final(self).y < bounds.height,
    {
        let x: i32 = random_below(bounds.width);
        let y: i32 = random_below(bounds.height);
        self.place(x, y);
    }
}

impl GameState {
    /// The snapshot of an empty arena of the given size.
    pub fn new(bounds: Bounds) -> (s: GameState)
        ensures
            s.bounds == bounds,
            s.players@.len() == 0,
            s.dead@.len() == 0,
            s.bullets@.len() == 0,
            s.scoreboard@ == Map::<u32, u32>::empty(),
    {
        GameState {
            bounds,
            players: Vec::new(),
            dead: Vec::new(),
            bullets: Vec::new(),
            scoreboard: HashMap::new(),
        }
    }
}

impl ClientState {
    /// Whether the client's own ship is among the ships in play. While it
    /// is not, the client has nothing to decide.
    pub fn is_in_play(&self) -> (r: bool)
        ensures
            r == exists|i: int|
                0 <= i < self.game_state.players@.len() && (
                #[trigger] self.game_state.players@[i]).id == self.id,
    {
        let mut i: usize = 0;
        while i < self.game_state.players.len()
            invariant
                i <= self.game_state.players@.len(),
                forall|j: int| 0 <= j < i ==> (#[trigger] self.game_state.players@[j]).id != self.id,
            decreases self.game_state.players@.len() - i,
        {
            if self.game_state.players[i].id == self.id {
                return true;
            }
            i += 1;
        }
        false
    }

    /// Takes in one message from the arena: an id replaces the client's
    /// id, a snapshot replaces the client's snapshot, and team names leave
    /// the state as it is.
    pub fn apply(&mut self, message: ServerToClient)
        ensures
            message matches ServerToClient::Id(id) ==> final(self).id == id
                && final(self).game_state == old(self).game_state,
            message matches ServerToClient::GameState(state) ==> final(self).id == old(self).id
                && final(self).game_state == state,
            message is TeamNames ==> *final(self) == *old(self),
    {
        match message {
            ServerToClient::Id(id) => {
                self.id = id;
            },
            ServerToClient::GameState(state) => {
                self.game_state = state;
            },
            ServerToClient::TeamNames(_) => {},
        }
    }
}

} // verus!
