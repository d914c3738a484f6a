//! The rules of the arena: what it is, as contracts speak of it, and what
//! each operation makes of it.

use crate::game::{
    ARENA_HEIGHT, ARENA_WIDTH, DEAD_PUNISH, Deadline, GameLoopCommand, MAX_CONCURRENT_BULLETS,
    MUZZLE_DISTANCE, SURVIVAL_POINT_INTERVAL, SURVIVAL_TIMEOUT,
};
use crate::geom::{clamp, Heading, HEADING_ONE, Position, saturate, trunc_div};
use crate::models::{
    Bounds, BULLET_RADIUS, BULLET_SPEED, BulletState, DeadPlayer, GameCommand, PLAYER_BASE_SPEED,
    PLAYER_MAX_THROTTLE, PLAYER_RADIUS, PlayerState,
};
use crate::picking::{count_key, distinct_by, first_with_key, has_key, picked, turned};
use vstd::prelude::*;

verus! {

/// The key of a ship: its id.
pub open spec fn player_key() -> spec_fn(PlayerState) -> u32 {
    |p: PlayerState| p.id
}

/// The key of a ship that is out: its id.
pub open spec fn dead_key() -> spec_fn(DeadPlayer) -> u32 {
    |d: DeadPlayer| d.player.id
}

/// The key of a bullet: its id.
pub open spec fn bullet_key() -> spec_fn(BulletState) -> u32 {
    |b: BulletState| b.id
}

/// The key of a bullet when bullets are counted by ship: its owner's id.
pub open spec fn owner_key() -> spec_fn(BulletState) -> u32 {
    |b: BulletState| b.player_id
}

/// The key of a deadline: the id of its ship.
pub open spec fn deadline_key() -> spec_fn(Deadline) -> u32 {
    |d: Deadline| d.player_id
}

/// The arena as a whole.
pub open spec fn arena() -> Bounds {
    Bounds { width: ARENA_WIDTH, height: ARENA_HEIGHT }
}

/// Whether a point lies in the arena, its edges counted in.
pub open spec fn in_arena(x: int, y: int) -> bool {
    0 <= x <= ARENA_WIDTH && 0 <= y <= ARENA_HEIGHT
}

/// Whether a ship is as the arena keeps it: inside, with a throttle no more
/// than full and a heading no longer than a unit.
pub open spec fn ship_ok(p: PlayerState) -> bool {
    in_arena(p.x as int, p.y as int) && p.throttle <= PLAYER_MAX_THROTTLE && p.angle.wf()
}

/// Whether two discs overlap or touch: whether their centres are no further
/// apart than the sum of their radii.
pub open spec fn overlaps(a: Position, ra: int, b: Position, rb: int) -> bool {
    a.dist2(b) <= (ra + rb) * (ra + rb)
}

/// The score that a table holds for an id: zero where it has no entry.
pub open spec fn score_of(board: Map<u32, u32>, id: u32) -> int {
    if board.contains_key(id) {
        board[id] as int
    } else {
        0
    }
}

/// The table after one point went to `id`. A score that is full stays full.
pub open spec fn credited(board: Map<u32, u32>, id: u32) -> Map<u32, u32> {
    board.insert(
        id,
        if score_of(board, id) < u32::MAX {
            (score_of(board, id) + 1) as u32
        } else {
            u32::MAX
        },
    )
}

/// The table after one point went to each id of `ids`, in turn.
pub open spec fn credited_all(board: Map<u32, u32>, ids: Seq<u32>) -> Map<u32, u32>
    decreases ids.len(),
{
    if ids.len() == 0 {
        board
    } else {
        credited(credited_all(board, ids.drop_last()), ids.last())
    }
}

/// The deadlines after the one of `id` was set to `at`: the entry of `id`
/// changed where there is one, a new entry at the end where there is none.
pub open spec fn registered(deadlines: Seq<Deadline>, id: u32, at: u64) -> Seq<Deadline> {
    if has_key(deadlines, deadline_key(), id) {
        Seq::new(
            deadlines.len(),
            |i: int|
                if deadlines[i].player_id == id {
                    Deadline { player_id: id, at }
                } else {
                    deadlines[i]
                },
        )
    } else {
        deadlines.push(Deadline { player_id: id, at })
    }
}

/// The ship `p`, its speed set to zero if it is the ship `id`.
pub open spec fn halted(p: PlayerState, id: u32) -> PlayerState {
    if p.id == id {
        PlayerState { throttle: 0, ..p }
    } else {
        p
    }
}

/// The ship `p` after the ship `id` was told to turn or to change speed.
pub open spec fn steered(p: PlayerState, id: u32, cmd: GameCommand) -> PlayerState {
    if p.id != id {
        p
    } else {
        match cmd {
            GameCommand::Rotate(heading) => PlayerState { angle: heading, ..p },
            GameCommand::Throttle(t) => PlayerState {
                throttle: if t > PLAYER_MAX_THROTTLE {
                    PLAYER_MAX_THROTTLE
                } else {
                    t
                },
                ..p
            },
            GameCommand::Fire => p,
        }
    }
}

/// How far a body moves along one axis in `dt` milliseconds: `h` is that
/// component of its heading, `speed` its full speed in grid steps per second
/// and `throttle` the thousandths of it that are in use.
pub open spec fn travel(h: int, speed: int, throttle: int, dt: int) -> int {
    trunc_div(h * speed * throttle * dt, HEADING_ONE as int * 1000 * 1000)
}

/// The bullet that the ship `p` fires: it starts `MUZZLE_DISTANCE` in front
/// of the ship and keeps the ship's heading.
pub open spec fn muzzle(p: PlayerState, bullet_id: u32) -> BulletState {
    BulletState {
        id: bullet_id,
        player_id: p.id,
        angle: p.angle,
        x: saturate(p.x + trunc_div(p.angle.x() * MUZZLE_DISTANCE as int, HEADING_ONE as int)) as i32,
        y: saturate(p.y + trunc_div(p.angle.y() * MUZZLE_DISTANCE as int, HEADING_ONE as int)) as i32,
    }
}

/// For each ship that is out, whether its time to return has come.
pub open spec fn due(dead: Seq<DeadPlayer>, now: u64) -> Seq<bool> {
    Seq::new(dead.len(), |i: int| dead[i].respawn <= now)
}

/// The ships of those that are out, in their order.
pub open spec fn ships_of(dead: Seq<DeadPlayer>) -> Seq<PlayerState> {
    Seq::new(dead.len(), |i: int| dead[i].player)
}

/// A bullet after `dt` milliseconds of flight along its heading.
pub open spec fn flown(b: BulletState, dt: u32) -> BulletState {
    BulletState {
        x: saturate(b.x + travel(b.angle.x(), BULLET_SPEED as int, 1000, dt as int)) as i32,
        y: saturate(b.y + travel(b.angle.y(), BULLET_SPEED as int, 1000, dt as int)) as i32,
        ..b
    }
}

/// A ship after `dt` milliseconds under way along its heading, kept a
/// ship's radius inside the arena.
pub open spec fn sailed(p: PlayerState, dt: u32) -> PlayerState {
    PlayerState {
        x: clamp(
            p.x + travel(p.angle.x(), PLAYER_BASE_SPEED as int, p.throttle as int, dt as int),
            PLAYER_RADIUS as int,
            ARENA_WIDTH - PLAYER_RADIUS,
        ) as i32,
        y: clamp(
            p.y + travel(p.angle.y(), PLAYER_BASE_SPEED as int, p.throttle as int, dt as int),
            PLAYER_RADIUS as int,
            ARENA_HEIGHT - PLAYER_RADIUS,
        ) as i32,
        ..p
    }
}

/// For each bullet, whether it is inside the arena.
pub open spec fn inside(bullets: Seq<BulletState>) -> Seq<bool> {
    Seq::new(bullets.len(), |i: int| in_arena(bullets[i].x as int, bullets[i].y as int))
}

/// Whether the bullet `b` brings down the ship `p`: the ship is not the one
/// that fired it, and the two overlap or touch.
pub open spec fn hits(b: BulletState, p: PlayerState) -> bool {
    p.id != b.player_id && overlaps(
        Position { x: p.x, y: p.y },
        PLAYER_RADIUS as int,
        Position { x: b.x, y: b.y },
        BULLET_RADIUS as int,
    )
}

/// The place of the first ship from `from` on that the bullet `b` brings
/// down, the ships that fell before left out.
pub open spec fn target_from(
    b: BulletState,
    players: Seq<PlayerState>,
    fallen: Seq<bool>,
    from: int,
) -> Option<int>
    decreases players.len() - from,
{
    if from < 0 || from >= players.len() {
        None
    } else if !fallen[from] && hits(b, players[from]) {
        Some(from)
    } else {
        target_from(b, players, fallen, from + 1)
    }
}

/// What the bullets did to the ships: for each bullet the place of the ship
/// that it brought down, if any, and for each ship whether it fell.
pub struct Strikes {
    pub targets: Seq<Option<int>>,
    pub fallen: Seq<bool>,
}

/// What the bullets do to the ships. The bullets strike in their order; each
/// brings down the first ship that it hits and that has not fallen, and no
/// more than that one.
pub open spec fn strikes(bullets: Seq<BulletState>, players: Seq<PlayerState>) -> Strikes
    decreases bullets.len(),
{
    if bullets.len() == 0 {
        Strikes { targets: Seq::empty(), fallen: Seq::new(players.len(), |k: int| false) }
    } else {
        let prev = strikes(bullets.drop_last(), players);
        match target_from(bullets.last(), players, prev.fallen, 0) {
            Some(k) => Strikes {
                targets: prev.targets.push(Some(k)),
                fallen: prev.fallen.update(k, true),
            },
            None => Strikes { targets: prev.targets.push(None), fallen: prev.fallen },
        }
    }
}

/// The ships that fell, in the order in which they were brought down.
pub open spec fn victims(targets: Seq<Option<int>>, players: Seq<PlayerState>) -> Seq<
    PlayerState,
>
    decreases targets.len(),
{
    if targets.len() == 0 {
        Seq::empty()
    } else {
        let prev = victims(targets.drop_last(), players);
        match targets.last() {
            Some(k) => prev.push(players[k]),
            None => prev,
        }
    }
}

/// The owners of the bullets that brought a ship down, one for each ship
/// that fell, in the same order.
pub open spec fn killers(targets: Seq<Option<int>>, bullets: Seq<BulletState>) -> Seq<u32>
    decreases targets.len(),
{
    if targets.len() == 0 {
        Seq::empty()
    } else {
        let prev = killers(targets.drop_last(), bullets);
        match targets.last() {
            Some(_) => prev.push(bullets[targets.len() - 1].player_id),
            None => prev,
        }
    }
}

/// For each bullet, whether it brought no ship down.
pub open spec fn unspent(targets: Seq<Option<int>>) -> Seq<bool> {
    Seq::new(targets.len(), |i: int| targets[i] is None)
}

/// The ships that fell as they wait to return: each at the point drawn for
/// it, until `DEAD_PUNISH` after `now`.
pub open spec fn graves(fell: Seq<PlayerState>, spawns: Seq<Position>, now: u64) -> Seq<
    DeadPlayer,
> {
    Seq::new(
        fell.len(),
        |j: int|
            DeadPlayer {
                respawn: (now + DEAD_PUNISH) as u64,
                player: PlayerState { x: spawns[j].x, y: spawns[j].y, ..fell[j] },
            },
    )
}

/// A point brought into the arena: the nearest point of the arena.
pub open spec fn into_arena(at: Position) -> Position {
    Position {
        x: clamp(at.x as int, 0, ARENA_WIDTH as int) as i32,
        y: clamp(at.y as int, 0, ARENA_HEIGHT as int) as i32,
    }
}

/// The points at which the ships of `fell` return where `given` says where:
/// the ship at `j` returns at the point at `j` of `given`, brought into the
/// arena; a ship for which `given` has no point returns where it fell.
pub open spec fn spawn_points(fell: Seq<PlayerState>, given: Seq<Position>) -> Seq<Position> {
    Seq::new(
        fell.len(),
        |j: int|
            if j < given.len() {
                into_arena(given[j])
            } else {
                Position { x: fell[j].x, y: fell[j].y }
            },
    )
}

/// The deadlines after that of each ship of `ships` was set to `at`.
pub open spec fn registered_all(deadlines: Seq<Deadline>, ships: Seq<PlayerState>, at: u64) -> Seq<
    Deadline,
>
    decreases ships.len(),
{
    if ships.len() == 0 {
        deadlines
    } else {
        registered(registered_all(deadlines, ships.drop_last(), at), ships.last().id, at)
    }
}

/// Whether every point of `spawns` lies in the arena.
pub open spec fn all_in_arena(spawns: Seq<Position>) -> bool {
    forall|j: int|
        0 <= j < spawns.len() ==> in_arena((#[trigger] spawns[j]).x as int, spawns[j].y as int)
}

/// What holds of the strikes of bullets on ships: every target is a ship
/// that fell and that its bullet hits, no ship is the target of two bullets,
/// and every ship that fell is the target of a bullet.
pub open spec fn sound_strikes(
    bullets: Seq<BulletState>,
    players: Seq<PlayerState>,
    s: Strikes,
) -> bool {
    &&& s.targets.len() == bullets.len()
    &&& s.fallen.len() == players.len()
    &&& forall|i: int|
        0 <= i < bullets.len() ==> (#[trigger] s.targets[i] matches Some(k) ==> 0 <= k
            < players.len() && s.fallen[k] && hits(bullets[i], players[k]))
    &&& forall|i: int, j: int|
        0 <= i < j < bullets.len() && s.targets[i] is Some ==> #[trigger] s.targets[i]
            != #[trigger] s.targets[j]
    &&& forall|k: int|
        0 <= k < players.len() && #[trigger] s.fallen[k] ==> exists|i: int|
            0 <= i < bullets.len() && #[trigger] s.targets[i] == Some(k)
}

/// The ids of the ships whose deadline has passed at the time `now`, in the
/// order of the deadlines.
pub open spec fn bonus_ids(deadlines: Seq<Deadline>, now: u64) -> Seq<u32>
    decreases deadlines.len(),
{
    if deadlines.len() == 0 {
        Seq::empty()
    } else if deadlines.last().at <= now {
        bonus_ids(deadlines.drop_last(), now).push(deadlines.last().player_id)
    } else {
        bonus_ids(deadlines.drop_last(), now)
    }
}

/// A deadline after the time `now`: one that has passed moves on by
/// `SURVIVAL_POINT_INTERVAL`.
pub open spec fn advanced(d: Deadline, now: u64) -> Deadline {
    if d.at <= now {
        Deadline { at: (d.at + SURVIVAL_POINT_INTERVAL) as u64, ..d }
    } else {
        d
    }
}

/// The state of the arena, as contracts speak of it.
pub struct GameView {
    pub bounds: Bounds,
    pub players: Seq<PlayerState>,
    pub dead: Seq<DeadPlayer>,
    pub bullets: Seq<BulletState>,
    pub scoreboard: Map<u32, u32>,
    pub deadlines: Seq<Deadline>,
    pub next_bullet_id: u32,
}

impl GameView {
    /// What always holds of the arena: no id occurs twice among the ships in
    /// play and those that are out together, every ship is inside the arena
    /// with a throttle no more than full, no bullet id occurs twice, no ship
    /// has more than `MAX_CONCURRENT_BULLETS` bullets in flight, and no ship
    /// has two deadlines.
    pub open spec fn wf(self) -> bool {
        &&& self.bounds == arena()
        &&& distinct_by(self.players, player_key())
        &&& distinct_by(self.dead, dead_key())
        &&& forall|i: int, j: int|
            0 <= i < self.players.len() && 0 <= j < self.dead.len() ==> (
            #[trigger] self.players[i]).id != (#[trigger] self.dead[j]).player.id
        &&& forall|i: int| 0 <= i < self.players.len() ==> ship_ok(#[trigger] self.players[i])
        &&& forall|i: int| 0 <= i < self.dead.len() ==> ship_ok((#[trigger] self.dead[i]).player)
        &&& distinct_by(self.bullets, bullet_key())
        &&& forall|i: int|
            0 <= i < self.bullets.len() ==> (#[trigger] self.bullets[i]).id < self.next_bullet_id
        &&& forall|id: u32| #[trigger]
            count_key(self.bullets, owner_key(), id) <= MAX_CONCURRENT_BULLETS
        &&& distinct_by(self.deadlines, deadline_key())
    }

    /// Whether the arena has a ship of this id, in play or out.
    pub open spec fn knows(self, id: u32) -> bool {
        has_key(self.players, player_key(), id) || has_key(self.dead, dead_key(), id)
    }

    /// The arena with no ship in it.
    pub open spec fn empty() -> GameView {
        GameView {
            bounds: arena(),
            players: Seq::empty(),
            dead: Seq::empty(),
            bullets: Seq::empty(),
            scoreboard: Map::empty(),
            deadlines: Seq::empty(),
            next_bullet_id: 0,
        }
    }

    /// The arena after the ship `id` joined at the point `(x, y)` at the
    /// time `now`. A point outside the arena counts as the nearest point of
    /// the arena. A ship that the arena knows already is not added again;
    /// its deadline is set anew all the same.
    pub open spec fn joined(self, id: u32, x: i32, y: i32, now: u64) -> GameView {
        GameView {
            players: if self.knows(id) {
                self.players
            } else {
                self.players.push(
                    PlayerState {
                        id,
                        angle: Heading::spec_east(),
                        throttle: 0,
                        x: clamp(x as int, 0, ARENA_WIDTH as int) as i32,
                        y: clamp(y as int, 0, ARENA_HEIGHT as int) as i32,
                    },
                )
            },
            deadlines: registered(self.deadlines, id, (now + SURVIVAL_TIMEOUT) as u64),
            ..self
        }
    }

    /// The arena after the ship `id` left: the ship stops where it is and
    /// stays, and its deadline is struck off.
    pub open spec fn left(self, id: u32) -> GameView {
        GameView {
            players: Seq::new(self.players.len(), |i: int| halted(self.players[i], id)),
            deadlines: picked(
                self.deadlines,
                Seq::new(self.deadlines.len(), |i: int| self.deadlines[i].player_id != id),
            ),
            ..self
        }
    }

    /// The arena after the ships whose time has come returned to play, each
    /// at the point that was drawn for it when it was shot down.
    pub open spec fn revived(self, now: u64) -> GameView {
        GameView {
            players: self.players + ships_of(picked(self.dead, due(self.dead, now))),
            dead: picked(self.dead, turned(due(self.dead, now))),
            ..self
        }
    }

    /// The arena after every bullet flew on for `dt` milliseconds and those
    /// that left the arena were taken away.
    pub open spec fn shot_on(self, dt: u32) -> GameView {
        let moved = Seq::new(self.bullets.len(), |i: int| flown(self.bullets[i], dt));
        GameView { bullets: picked(moved, inside(moved)), ..self }
    }

    /// The arena after every ship in play sailed on for `dt` milliseconds.
    pub open spec fn sailed_on(self, dt: u32) -> GameView {
        GameView {
            players: Seq::new(self.players.len(), |i: int| sailed(self.players[i], dt)),
            ..self
        }
    }

    /// The arena after the bullets struck at the time `now`. Every ship that
    /// fell goes out until `DEAD_PUNISH` from `now`, at the point of
    /// `spawns` that was drawn for it; the owner of the bullet scores a
    /// point; the bullet is gone; and the ship that fell scores for
    /// surviving no sooner than `SURVIVAL_TIMEOUT` from `now`.
    pub open spec fn struck(self, now: u64, spawns: Seq<Position>) -> GameView {
        let s = strikes(self.bullets, self.players);
        let fell = victims(s.targets, self.players);
        GameView {
            players: picked(self.players, turned(s.fallen)),
            dead: self.dead + graves(fell, spawns, now),
            bullets: picked(self.bullets, unspent(s.targets)),
            scoreboard: credited_all(self.scoreboard, killers(s.targets, self.bullets)),
            deadlines: registered_all(self.deadlines, fell, (now + SURVIVAL_TIMEOUT) as u64),
            ..self
        }
    }

    /// The ships that the bullets bring down, in the order in which they
    /// fall.
    pub open spec fn fallen_ships(self) -> Seq<PlayerState> {
        victims(strikes(self.bullets, self.players).targets, self.players)
    }

    /// How many ships the bullets bring down.
    pub open spec fn losses(self) -> nat {
        self.fallen_ships().len()
    }

    /// The arena after the ships whose deadline has passed at the time `now`
    /// scored a point each for surviving, and their deadlines moved on.
    pub open spec fn rewarded(self, now: u64) -> GameView {
        GameView {
            scoreboard: credited_all(self.scoreboard, bonus_ids(self.deadlines, now)),
            deadlines: Seq::new(self.deadlines.len(), |i: int| advanced(self.deadlines[i], now)),
            ..self
        }
    }

    /// The arena as the bullets find it in a tick: after the ships whose
    /// time has come returned, the bullets flew on and the ships sailed on.
    pub open spec fn moved_on(self, dt: u32, now: u64) -> GameView {
        self.revived(now).shot_on(dt).sailed_on(dt)
    }

    /// The arena after a tick of `dt` milliseconds at the time `now`, in
    /// which the ships that fell were given the points of `spawns` to return
    /// at.
    pub open spec fn ticked(self, dt: u32, now: u64, spawns: Seq<Position>) -> GameView {
        self.moved_on(dt, now).struck(now, spawns).rewarded(now)
    }

    /// The arena after a tick of `dt` milliseconds at the time `now`, in
    /// which the ships that fell are to return where `given` says: the ship
    /// that fell first at the first point of `given`, and so on, each point
    /// brought into the arena; a ship for which `given` has no point
    /// returns where it fell.
    pub open spec fn ticked_with(self, dt: u32, now: u64, given: Seq<Position>) -> GameView {
        self.ticked(dt, now, spawn_points(self.moved_on(dt, now).fallen_ships(), given))
    }

    /// The arena after it received `cmd` at the time `now`. A ship that
    /// joins starts at the point `at`.
    pub open spec fn received(self, cmd: GameLoopCommand, now: u64, at: Position) -> GameView {
        match cmd {
            GameLoopCommand::PlayerJoined(id) => self.joined(id, at.x, at.y, now),
            GameLoopCommand::PlayerLeft(id) => self.left(id),
            GameLoopCommand::GameCommand(id, c) => self.commanded(id, c),
        }
    }

    /// The arena after it received each of `cmds` in turn at the time `now`.
    /// The ship that joins with the command at `i` starts at the point at
    /// `i` of `ats`.
    pub open spec fn received_all(
        self,
        cmds: Seq<GameLoopCommand>,
        now: u64,
        ats: Seq<Position>,
    ) -> GameView
        decreases cmds.len(),
    {
        if cmds.len() == 0 {
            self
        } else {
            self.received_all(cmds.drop_last(), now, ats.drop_last()).received(
                cmds.last(),
                now,
                ats.last(),
            )
        }
    }

    /// Whether the ship `id` may fire: it is in play, it has fewer than
    /// `MAX_CONCURRENT_BULLETS` bullets in flight, and an id is left for the
    /// new bullet.
    pub open spec fn may_fire(self, id: u32) -> bool {
        &&& has_key(self.players, player_key(), id)
        &&& count_key(self.bullets, owner_key(), id) < MAX_CONCURRENT_BULLETS
        &&& self.next_bullet_id < u32::MAX
    }

    /// The arena after the ship `id` sent the command `cmd`. A command for a
    /// ship that is not in play changes nothing, and so does a shot that the
    /// ship may not fire.
    pub open spec fn commanded(self, id: u32, cmd: GameCommand) -> GameView {
        match cmd {
            GameCommand::Fire => if self.may_fire(id) {
                GameView {
                    bullets: self.bullets.push(
                        muzzle(
                            first_with_key(self.players, player_key(), id).unwrap(),
                            self.next_bullet_id,
                        ),
                    ),
                    next_bullet_id: (self.next_bullet_id + 1) as u32,
                    ..self
                }
            } else {
                self
            },
            _ => GameView {
                players: Seq::new(self.players.len(), |i: int| steered(self.players[i], id, cmd)),
                ..self
            },
        }
    }
}

/// The ship at the target of the bullet at `i`, if that bullet has one.
pub open spec fn target_ship(
    targets: Seq<Option<int>>,
    players: Seq<PlayerState>,
    i: int,
) -> Option<PlayerState> {
    match targets[i] {
        Some(k) => Some(players[k]),
        None => None,
    }
}

/// Whether the ship `p` is the target of one of the bullets.
pub open spec fn is_target(targets: Seq<Option<int>>, players: Seq<PlayerState>, p: PlayerState) -> bool {
    exists|i: int| 0 <= i < targets.len() && #[trigger] target_ship(targets, players, i) == Some(p)
}

/// Whether the ship `p` is among the ships of `fell`.
pub open spec fn is_among(fell: Seq<PlayerState>, p: PlayerState) -> bool {
    exists|j: int| 0 <= j < fell.len() && #[trigger] fell[j] == p
}

/// Whether the ship `p` stood among `players` at a place that is marked as
/// fallen.
pub open spec fn stood_and_fell(players: Seq<PlayerState>, fallen: Seq<bool>, p: PlayerState) -> bool {
    exists|k: int| 0 <= k < players.len() && fallen[k] && #[trigger] players[k] == p
}

} // verus!
