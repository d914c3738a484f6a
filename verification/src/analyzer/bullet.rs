//! One bullet as a client has seen it.

use crate::geom::{Position, Velocity};
use crate::models::{BulletState, BULLET_SPEED};
use vstd::prelude::*;

verus! {

/// One bullet as the client has seen it: where it is and how it moves.
#[derive(Clone, Copy, Debug, PartialEq, Eq, Structural)]
pub struct Bullet {
    pub id: u32,
    pub position: Position,
    pub velocity: Velocity,
    pub player_id: u32,
}

impl Bullet {
    /// The bullet of the snapshot `state`: it flies along its heading at
    /// `BULLET_SPEED`.
    pub open spec fn of(state: BulletState) -> Bullet {
        Bullet {
            id: state.id,
            position: Position { x: state.x, y: state.y },
            velocity: Velocity::along(state.angle, BULLET_SPEED as int),
            player_id: state.player_id,
        }
    }

    /// The bullet of the snapshot `state`.
    pub fn new(state: &BulletState) -> (b: Bullet)
        ensures
            b == Bullet::of(*state),
    {
        Bullet {
            id: state.id,
            position: Position { x: state.x, y: state.y },
            velocity: Velocity::with_angle_speed(&state.angle, BULLET_SPEED),
            player_id: state.player_id,
        }
    }

    /// Where the bullet will be `after` milliseconds from now.
    pub fn project_position(&self, after: u64) -> (p: Position)
        ensures
            p == self.position.projected(self.velocity, after as int),
    {
        self.position.project(&self.velocity, after)
    }
}

} // verus!
