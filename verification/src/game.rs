//! The arena: the authoritative state of the game, the commands that ships
//! send to it, and the tick that moves everything on.
//!
//! What each operation does to the arena is laid down in `rules`, over the
//! arena as contracts speak of it. `proofs` shows that the rules keep the
//! arena as it should be, and `laws` what follows for every tick.

pub mod laws;
pub mod proofs;
pub mod rules;

use crate::game::proofs::{
    lemma_fired_wf, lemma_revived_wf, lemma_rewarded_wf, lemma_sailed_on_wf, lemma_same_ids_wf,
    lemma_shot_on_wf, lemma_sole_key, lemma_struck_wf,
};
use crate::game::rules::{
    advanced, all_in_arena, bonus_ids, credited, credited_all, dead_key, deadline_key, due, flown,
    GameView, graves, halted, in_arena, inside, killers, muzzle, overlaps, owner_key, player_key,
    registered, registered_all, sailed, ship_ok, ships_of, spawn_points, steered, Strikes, strikes,
    target_from, travel, unspent, victims,
};
use crate::geom::{clamp, Heading, HEADING_ONE, Position, saturate_wide};
use crate::models::{
    Bounds, BULLET_RADIUS, BULLET_SPEED, BulletState, DeadPlayer, GameCommand, GameState,
    PLAYER_BASE_SPEED, PLAYER_MAX_THROTTLE, PLAYER_RADIUS, PlayerState,
};
use crate::picking::{
    count_key, distinct_by, first_with_key, has_key, lemma_first_with_key_at, lemma_picked_distinct,
    lemma_picked_step, picked, turned,
};
use std::collections::HashMap;
use vstd::prelude::*;

verus! {

broadcast use vstd::std_specs::hash::group_hash_axioms;

/// Width of the arena, in grid steps.
pub const ARENA_WIDTH: i32 = 2_880_000;

/// Height of the arena, in grid steps.
pub const ARENA_HEIGHT: i32 = 1_920_000;

/// Ticks in one second.
pub const TICKS_PER_SECOND: u32 = 30;

/// The most bullets one ship may have in flight.
pub const MAX_CONCURRENT_BULLETS: usize = 4;

/// Milliseconds that a ship stays out after it was shot down.
pub const DEAD_PUNISH: u64 = 1_000;

/// Milliseconds that a ship must last before it first scores for surviving.
pub const SURVIVAL_TIMEOUT: u64 = 10_000;

/// Milliseconds from one score for surviving to the next.
pub const SURVIVAL_POINT_INTERVAL: u64 = 4_000;

/// How far in front of its ship a bullet starts, in grid steps.
pub const MUZZLE_DISTANCE: i32 = 5_000;

/// The latest time that the arena keeps books for, in milliseconds.
pub const MAX_TIME: u64 = 1_000_000_000_000_000;

/// The time from which a ship scores for surviving next.
#[derive(Clone, Copy, Debug, PartialEq, Eq, Structural)]
pub struct Deadline {
    pub player_id: u32,
    pub at: u64,
}

/// A body that takes up a disc of the arena.
pub trait Triangle {
    /// Centre of the disc.
    spec fn centre(&self) -> Position;

    /// The way the body faces.
    spec fn facing(&self) -> Heading;

    /// Radius of the disc.
    spec fn reach(&self) -> int;

    /// The x coordinate of the centre.
    fn x(&self) -> (r: i32)
        ensures
            r == self.centre().x,
    ;

    /// The y coordinate of the centre.
    fn y(&self) -> (r: i32)
        ensures
            r == self.centre().y,
    ;

    /// The way the body faces.
    fn angle(&self) -> (r: Heading)
        ensures
            r == self.facing(),
    ;

    /// The radius of the disc.
    fn radius(&self) -> (r: i32)
        ensures
            r == self.reach(),
    ;
}

/// Whether the bodies `a` and `b` overlap or touch.
pub fn is_colliding<A: Triangle, B: Triangle>(a: &A, b: &B) -> (r: bool)
    ensures
        r == overlaps(a.centre(), a.reach(), b.centre(), b.reach()),
{
    let ex: i128 = b.x() as i128 - a.x() as i128;
    let ey: i128 = b.y() as i128 - a.y() as i128;
    let er: i128 = b.radius() as i128 + a.radius() as i128;
    assert(0 <= ex * ex <= 0xffff_fffe_0000_0001 && 0 <= ey * ey <= 0xffff_fffe_0000_0001 && 0
        <= er * er <= 0x1_0000_0000_0000_0000) by (nonlinear_arith)
        requires
            -0xffff_ffff <= ex <= 0xffff_ffff,
            -0xffff_ffff <= ey <= 0xffff_ffff,
            -0x1_0000_0000 <= er <= 0x1_0000_0000,
    ;
    assert(er * er == (a.reach() + b.reach()) * (a.reach() + b.reach())) by (nonlinear_arith)
        requires
            er == b.reach() + a.reach(),
    ;
    ex * ex + ey * ey <= er * er
}

impl Triangle for PlayerState {
    open spec fn centre(&self) -> Position {
        Position { x: self.x, y: self.y }
    }

    open spec fn facing(&self) -> Heading {
        self.angle
    }

    open spec fn reach(&self) -> int {
        PLAYER_RADIUS as int
    }

    fn x(&self) -> (r: i32) {
        self.x
    }

    fn y(&self) -> (r: i32) {
        self.y
    }

    fn angle(&self) -> (r: Heading) {
        self.angle
    }

    fn radius(&self) -> (r: i32) {
        PLAYER_RADIUS
    }
}

impl Triangle for BulletState {
    open spec fn centre(&self) -> Position {
        Position { x: self.x, y: self.y }
    }

    open spec fn facing(&self) -> Heading {
        self.angle
    }

    open spec fn reach(&self) -> int {
        BULLET_RADIUS as int
    }

    fn x(&self) -> (r: i32) {
        self.x
    }

    fn y(&self) -> (r: i32) {
        self.y
    }

    fn angle(&self) -> (r: Heading) {
        self.angle
    }

    fn radius(&self) -> (r: i32) {
        BULLET_RADIUS
    }
}

/// What reaches the arena between two ticks.
#[derive(Clone, Copy, Debug, PartialEq, Eq, Structural)]
pub enum GameLoopCommand {
    /// A ship joined.
    PlayerJoined(u32),
    /// A ship left.
    PlayerLeft(u32),
    /// A ship sent a command.
    GameCommand(u32, GameCommand),
}

/// The arena: the state that every snapshot is taken from, the counter that
/// numbers the bullets, and the deadlines from which ships score for
/// surviving.
pub struct Game {
    state: GameState,
    bullet_id_counter: u32,
    survival_times: Vec<Deadline>,
}

impl Default for Game {
    fn default() -> (g: Game)
        ensures
            g.wf(),
            g@ == GameView::empty(),
    {
        Game::new()
    }
}

impl View for Game {
    type V = GameView;

    closed spec fn view(&self) -> GameView {
        GameView {
            bounds: self.state.bounds,
            players: self.state.players@,
            dead: self.state.dead@,
            bullets: self.state.bullets@,
            scoreboard: self.state.scoreboard@,
            deadlines: self.survival_times@,
            next_bullet_id: self.bullet_id_counter,
        }
    }
}

/// The place of the first ship with the id `id`, if there is one.
fn find_player(players: &Vec<PlayerState>, id: u32) -> (r: Option<usize>)
    ensures
        r is None <==> !has_key(players@, player_key(), id),
        r matches Some(i) ==> i < players@.len() && players@[i as int].id == id
            && first_with_key(players@, player_key(), id) == Some(players@[i as int]),
{
    let mut i: usize = 0;
    while i < players.len()
        invariant
            i <= players@.len(),
            forall|j: int| 0 <= j < i ==> (#[trigger] players@[j]).id != id,
        decreases players@.len() - i,
    {
        if players[i].id == id {
            proof {
                assert forall|j: int| 0 <= j < i implies player_key()(#[trigger] players@[j])
                    != id by {}
                lemma_first_with_key_at(players@, player_key(), id, i as int);
                assert(player_key()(players@[i as int]) == id);
            }
            return Some(i);
        }
        i += 1;
    }
    proof {
        assert forall|j: int| 0 <= j < players@.len() implies player_key()(#[trigger] players@[j])
            != id by {}
    }
    None
}

/// Whether a ship with the id `id` is among those that are out.
fn is_dead(dead: &Vec<DeadPlayer>, id: u32) -> (r: bool)
    ensures
        r == has_key(dead@, dead_key(), id),
{
    let mut i: usize = 0;
    while i < dead.len()
        invariant
            i <= dead@.len(),
            forall|j: int| 0 <= j < i ==> (#[trigger] dead@[j]).player.id != id,
        decreases dead@.len() - i,
    {
        if dead[i].player.id == id {
            proof {
                assert(dead_key()(dead@[i as int]) == id);
            }
            return true;
        }
        i += 1;
    }
    proof {
        assert forall|j: int| 0 <= j < dead@.len() implies dead_key()(#[trigger] dead@[j])
            != id by {}
    }
    false
}

/// Sets the deadline of the ship `id` to `at`.
fn register(deadlines: &mut Vec<Deadline>, id: u32, at: u64)
    requires
        distinct_by(old(deadlines)@, deadline_key()),
    ensures
        final(deadlines)@ == registered(old(deadlines)@, id, at),
        distinct_by(final(deadlines)@, deadline_key()),
{
    let mut i: usize = 0;
    while i < deadlines.len()
        invariant
            i <= deadlines@.len(),
            deadlines@ == old(deadlines)@,
            distinct_by(old(deadlines)@, deadline_key()),
            forall|j: int| 0 <= j < i ==> (#[trigger] deadlines@[j]).player_id != id,
        decreases deadlines@.len() - i,
    {
        if deadlines[i].player_id == id {
            deadlines.set(i, Deadline { player_id: id, at });
            proof {
                let before = old(deadlines)@;
                assert(deadline_key()(before[i as int]) == id);
                assert forall|j: int| 0 <= j < before.len() && j != i implies (
                #[trigger] before[j]).player_id != id by {
                    if j < i {
                        assert(deadline_key()(before[j]) != deadline_key()(before[i as int]));
                    } else {
                        assert(deadline_key()(before[i as int]) != deadline_key()(before[j]));
                    }
                }
                assert(deadlines@ =~= registered(before, id, at));
                assert forall|a: int, b: int| 0 <= a < b < deadlines@.len() implies deadline_key()(
                    #[trigger] deadlines@[a],
                ) != deadline_key()(#[trigger] deadlines@[b]) by {
                    assert(deadline_key()(before[a]) != deadline_key()(before[b]));
                }
            }
            return ;
        }
        i += 1;
    }
    proof {
        let before = old(deadlines)@;
        assert forall|j: int| 0 <= j < before.len() implies deadline_key()(#[trigger] before[j])
            != id by {}
    }
    deadlines.push(Deadline { player_id: id, at });
    proof {
        let before = old(deadlines)@;
        assert forall|a: int, b: int| 0 <= a < b < deadlines@.len() implies deadline_key()(
            #[trigger] deadlines@[a],
        ) != deadline_key()(#[trigger] deadlines@[b]) by {
            if b < before.len() {
                assert(deadline_key()(before[a]) != deadline_key()(before[b]));
            } else {
                assert(deadline_key()(before[a]) != id);
            }
        }
    }
}

/// How many bullets of the ship `id` are in flight.
fn count_owned(bullets: &Vec<BulletState>, id: u32) -> (n: usize)
    ensures
        n == count_key(bullets@, owner_key(), id),
{
    let mut n: usize = 0;
    let mut i: usize = 0;
    while i < bullets.len()
        invariant
            i <= bullets@.len(),
            n <= i,
            n == count_key(bullets@.take(i as int), owner_key(), id),
        decreases bullets@.len() - i,
    {
        proof {
            assert(bullets@.take(i + 1).drop_last() =~= bullets@.take(i as int));
        }
        if bullets[i].player_id == id {
            n += 1;
        }
        i += 1;
    }
    proof {
        assert(bullets@.take(bullets@.len() as int) =~= bullets@);
    }
    n
}

/// The deadlines but for that of the ship `id`.
fn strike_off(deadlines: &Vec<Deadline>, id: u32) -> (kept: Vec<Deadline>)
    requires
        distinct_by(deadlines@, deadline_key()),
    ensures
        kept@ == picked(
            deadlines@,
            Seq::new(deadlines@.len(), |i: int| deadlines@[i].player_id != id),
        ),
        distinct_by(kept@, deadline_key()),
{
    let ghost marks = Seq::new(deadlines@.len(), |i: int| deadlines@[i].player_id != id);
    let mut kept: Vec<Deadline> = Vec::new();
    let mut i: usize = 0;
    while i < deadlines.len()
        invariant
            i <= deadlines@.len(),
            marks == Seq::new(deadlines@.len(), |i: int| deadlines@[i].player_id != id),
            kept@ == picked(deadlines@.take(i as int), marks.take(i as int)),
        decreases deadlines@.len() - i,
    {
        proof {
            lemma_picked_step(deadlines@, marks, i as int);
        }
        if deadlines[i].player_id != id {
            kept.push(deadlines[i]);
        }
        i += 1;
    }
    proof {
        assert(deadlines@.take(deadlines@.len() as int) =~= deadlines@);
        assert(marks.take(deadlines@.len() as int) =~= marks);
        lemma_picked_distinct(deadlines@, marks, deadline_key());
    }
    kept
}

/// The bullet that the ship `p` fires.
fn fire_from(p: &PlayerState, bullet_id: u32) -> (b: BulletState)
    ensures
        b == muzzle(*p, bullet_id),
{
    let hx: i64 = p.angle.dx() as i64;
    let hy: i64 = p.angle.dy() as i64;
    let ox: i64 = hx * 5_000 / 1_000_000_000;
    let oy: i64 = hy * 5_000 / 1_000_000_000;
    BulletState {
        id: bullet_id,
        player_id: p.id,
        angle: p.angle,
        x: saturate_wide(p.x as i128 + ox as i128),
        y: saturate_wide(p.y as i128 + oy as i128),
    }
}

/// `v` brought into the interval from `lo` to `hi`.
fn clamp_to(v: i64, lo: i64, hi: i64) -> (r: i64)
    ensures
        r == clamp(v as int, lo as int, hi as int),
{
    if v < lo {
        lo
    } else if v > hi {
        hi
    } else {
        v
    }
}

/// How far a body moves along one axis in `dt` milliseconds.
fn travel_of(h: i32, speed: i32, throttle: u32, dt: u32) -> (r: i64)
    requires
        -HEADING_ONE <= h <= HEADING_ONE,
        0 <= speed <= BULLET_SPEED,
        throttle <= PLAYER_MAX_THROTTLE,
    ensures
        r == travel(h as int, speed as int, throttle as int, dt as int),
        -0x4000_0000_0000 <= r <= 0x4000_0000_0000,
{
    let a: i128 = h as i128;
    let b: i128 = speed as i128;
    let c: i128 = throttle as i128;
    let d: i128 = dt as i128;
    assert(-1_000_000_000 * 300_000 <= a * b <= 1_000_000_000 * 300_000) by (nonlinear_arith)
        requires
            -1_000_000_000 <= a <= 1_000_000_000,
            0 <= b <= 300_000,
    ;
    let ab: i128 = a * b;
    assert(-1_000_000_000 * 300_000 * 1000 <= ab * c <= 1_000_000_000 * 300_000 * 1000)
        by (nonlinear_arith)
        requires
            -1_000_000_000 * 300_000 <= ab <= 1_000_000_000 * 300_000,
            0 <= c <= 1000,
    ;
    let abc: i128 = ab * c;
    assert(-1_000_000_000 * 300_000 * 1000 * 0x1_0000_0000 <= abc * d <= 1_000_000_000 * 300_000
        * 1000 * 0x1_0000_0000) by (nonlinear_arith)
        requires
            -1_000_000_000 * 300_000 * 1000 <= abc <= 1_000_000_000 * 300_000 * 1000,
            0 <= d <= 0x1_0000_0000,
    ;
    let r: i128 = abc * d / 1_000_000_000_000_000;
    r as i64
}

/// Gives one point to `id`.
fn credit(board: &mut HashMap<u32, u32>, id: u32)
    ensures
        final(board)@ == credited(old(board)@, id),
{
    let current: u32 = match board.get(&id) {
        Some(score) => *score,
        None => 0,
    };
    let next: u32 = if current < u32::MAX {
        current + 1
    } else {
        u32::MAX
    };
    board.insert(id, next);
}

/// The items whose mark is `want`, in their order.
fn pick<T: Copy>(items: &Vec<T>, marks: &Vec<bool>, want: bool) -> (r: Vec<T>)
    requires
        marks@.len() == items@.len(),
    ensures
        r@ == picked(
            items@,
            if want {
                marks@
            } else {
                turned(marks@)
            },
        ),
{
    let ghost chosen = if want {
        marks@
    } else {
        turned(marks@)
    };
    let mut r: Vec<T> = Vec::new();
    let mut i: usize = 0;
    while i < items.len()
        invariant
            i <= items@.len(),
            marks@.len() == items@.len(),
            chosen == if want {
                marks@
            } else {
                turned(marks@)
            },
            r@ == picked(items@.take(i as int), chosen.take(i as int)),
        decreases items@.len() - i,
    {
        proof {
            lemma_picked_step(items@, chosen, i as int);
        }
        if marks[i] == want {
            r.push(items[i]);
        }
        i += 1;
    }
    proof {
        assert(items@.take(items@.len() as int) =~= items@);
        assert(chosen.take(items@.len() as int) =~= chosen);
    }
    r
}

/// The place of the first ship that the bullet `b` brings down.
fn find_target(b: &BulletState, players: &Vec<PlayerState>, fallen: &Vec<bool>) -> (r: Option<
    usize,
>)
    requires
        fallen@.len() == players@.len(),
    ensures
        r matches Some(k) ==> k < players@.len() && target_from(*b, players@, fallen@, 0) == Some(
            k as int,
        ),
        r is None ==> target_from(*b, players@, fallen@, 0) is None,
{
    let mut k: usize = 0;
    while k < players.len()
        invariant
            k <= players@.len(),
            fallen@.len() == players@.len(),
            target_from(*b, players@, fallen@, 0) == target_from(*b, players@, fallen@, k as int),
        decreases players@.len() - k,
    {
        if !fallen[k] && players[k].id != b.player_id && is_colliding(&players[k], b) {
            return Some(k);
        }
        k += 1;
    }
    None
}

impl Game {
    /// The arena is as it should be: what `GameView::wf` says of it.
    pub open spec fn wf(&self) -> bool {
        self@.wf()
    }

    /// An arena with no ship in it.
    pub fn new() -> (g: Game)
        ensures
            g.wf(),
            g@ == GameView::empty(),
    {
        let g = Game {
            state: GameState::new(Bounds { width: ARENA_WIDTH, height: ARENA_HEIGHT }),
            bullet_id_counter: 0,
            survival_times: Vec::new(),
        };
        proof {
            assert(g@.players =~= Seq::empty());
            assert(g@.dead =~= Seq::empty());
            assert(g@.bullets =~= Seq::empty());
            assert(g@.deadlines =~= Seq::empty());
            assert forall|id: u32| #[trigger]
                count_key(g@.bullets, owner_key(), id) <= MAX_CONCURRENT_BULLETS by {}
        }
        g
    }

    /// The state that snapshots are taken from.
    pub fn state(&self) -> (s: &GameState)
        ensures
            s.bounds == self@.bounds,
            s.players@ == self@.players,
            s.dead@ == self@.dead,
            s.bullets@ == self@.bullets,
            s.scoreboard@ == self@.scoreboard,
    {
        &self.state
    }

    /// Lets the ship `player_id` join at the point `(x, y)`, or at the
    /// nearest point of the arena: it starts at rest and faces east, and
    /// scores for surviving no sooner than `SURVIVAL_TIMEOUT` from `now`. A
    /// ship that the arena knows already is not added again.
    pub fn add_player_at(&mut self, player_id: u32, x: i32, y: i32, now: u64)
        requires
            old(self).wf(),
            now <= MAX_TIME,
        ensures
            final(self).wf(),
            final(self)@ == old(self)@.joined(player_id, x, y, now),
    {
        let live = find_player(&self.state.players, player_id).is_some();
        let known = live || is_dead(&self.state.dead, player_id);
        if !known {
            let fresh = PlayerState {
                id: player_id,
                angle: Heading::east(),
                throttle: 0,
                x: clamp_to(x as i64, 0, ARENA_WIDTH as i64) as i32,
                y: clamp_to(y as i64, 0, ARENA_HEIGHT as i64) as i32,
            };
            self.state.players.push(fresh);
            proof {
                let before = old(self)@.players;
                let after = self@.players;
                assert forall|a: int, b: int| 0 <= a < b < after.len() implies player_key()(
                    #[trigger] after[a],
                ) != player_key()(#[trigger] after[b]) by {
                    if b < before.len() {
                        assert(player_key()(before[a]) != player_key()(before[b]));
                    } else {
                        assert(player_key()(before[a]) != player_id);
                    }
                }
                assert forall|i: int, j: int|
                    0 <= i < after.len() && 0 <= j < self@.dead.len() implies (
                #[trigger] after[i]).id != (#[trigger] self@.dead[j]).player.id by {
                    if i == before.len() {
                        assert(dead_key()(self@.dead[j]) != player_id);
                    } else {
                        assert(after[i] == before[i]);
                    }
                }
                assert forall|i: int| 0 <= i < after.len() implies ship_ok(
                    #[trigger] after[i],
                ) by {
                    if i < before.len() {
                        assert(after[i] == before[i]);
                    }
                }
            }
        }
        register(&mut self.survival_times, player_id, now + SURVIVAL_TIMEOUT);
    }

    /// Lets the ship `player_id` join at a point of the arena drawn at
    /// random.
    pub fn add_player(&mut self, player_id: u32, now: u64)
        requires
            old(self).wf(),
            now <= MAX_TIME,
        ensures
            final(self).wf(),
            exists|x: i32, y: i32|
                0 <= x < ARENA_WIDTH && 0 <= y < ARENA_HEIGHT && final(self)@ == #[trigger] old(
                    self,
                )@.joined(player_id, x, y, now),
    {
        let mut player = PlayerState::new(player_id);
        player.randomize(Bounds { width: ARENA_WIDTH, height: ARENA_HEIGHT });
        self.add_player_at(player_id, player.x, player.y, now);
    }

    /// Takes note that the ship `player_id` has left: the ship stops and
    /// stays where it is, so that what is under way around it plays out, and
    /// it no longer scores for surviving.
    pub fn player_left(&mut self, player_id: u32)
        requires
            old(self).wf(),
        ensures
            final(self).wf(),
            final(self)@ == old(self)@.left(player_id),
    {
        match find_player(&self.state.players, player_id) {
            Some(i) => {
                let p = self.state.players[i];
                self.state.players.set(i, PlayerState { throttle: 0, ..p });
            },
            None => {},
        }
        self.survival_times = strike_off(&self.survival_times, player_id);
        proof {
            let before = old(self)@.players;
            let after = self@.players;
            assert forall|j: int| 0 <= j < before.len() implies #[trigger] after[j] == halted(
                before[j],
                player_id,
            ) by {
                lemma_sole_key(before, player_id, j);
            }
            assert(after =~= old(self)@.left(player_id).players);
            lemma_same_ids_wf(old(self)@, self@);
        }
    }

    /// Obeys one command of the ship `player_id`: a turn sets its heading,
    /// a throttle sets its speed, no more than full, and a shot adds a
    /// bullet unless the ship has `MAX_CONCURRENT_BULLETS` in flight. A
    /// command for a ship that is not in play is passed over.
    pub fn handle_cmd(&mut self, player_id: u32, cmd: GameCommand)
        requires
            old(self).wf(),
        ensures
            final(self).wf(),
            final(self)@ == old(self)@.commanded(player_id, cmd),
    {
        let found = find_player(&self.state.players, player_id);
        match cmd {
            GameCommand::Fire => {
                if let Some(i) = found {
                    let p = self.state.players[i];
                    let in_flight = count_owned(&self.state.bullets, player_id);
                    if in_flight < MAX_CONCURRENT_BULLETS && self.bullet_id_counter < u32::MAX {
                        let bullet = fire_from(&p, self.bullet_id_counter);
                        self.state.bullets.push(bullet);
                        self.bullet_id_counter += 1;
                        proof {
                            lemma_fired_wf(old(self)@, self@, bullet);
                        }
                    }
                }
            },
            GameCommand::Rotate(heading) => {
                if let Some(i) = found {
                    let p = self.state.players[i];
                    let _ = heading.dx();
                    self.state.players.set(i, PlayerState { angle: heading, ..p });
                }
            },
            GameCommand::Throttle(t) => {
                if let Some(i) = found {
                    let p = self.state.players[i];
                    let throttle: u32 = if t > PLAYER_MAX_THROTTLE {
                        PLAYER_MAX_THROTTLE
                    } else {
                        t
                    };
                    self.state.players.set(i, PlayerState { throttle, ..p });
                }
            },
        }
        proof {
            if !(cmd is Fire) {
                let before = old(self)@.players;
                let after = self@.players;
                assert forall|j: int| 0 <= j < before.len() implies #[trigger] after[j]
                    == steered(before[j], player_id, cmd) by {
                    lemma_sole_key(before, player_id, j);
                }
                assert(after =~= old(self)@.commanded(player_id, cmd).players);
                lemma_same_ids_wf(old(self)@, self@);
            }
        }
    }

    /// Returns to play the ships whose time has come.
    fn revive(&mut self, now: u64)
        requires
            old(self).wf(),
        ensures
            final(self).wf(),
            final(self)@ == old(self)@.revived(now),
    {
        let ghost before = self@;
        let ghost marks = due(before.dead, now);
        let mut waiting: Vec<DeadPlayer> = Vec::new();
        let mut i: usize = 0;
        while i < self.state.dead.len()
            invariant
                i <= before.dead.len(),
                marks == due(before.dead, now),
                self@ == (GameView {
                    players: before.players + ships_of(
                        picked(before.dead.take(i as int), marks.take(i as int)),
                    ),
                    ..before
                }),
                waiting@ == picked(before.dead.take(i as int), turned(marks).take(i as int)),
            decreases before.dead.len() - i,
        {
            proof {
                lemma_picked_step(before.dead, marks, i as int);
                lemma_picked_step(before.dead, turned(marks), i as int);
            }
            let d = self.state.dead[i];
            if d.respawn <= now {
                self.state.players.push(d.player);
                proof {
                    let so_far = picked(before.dead.take(i as int), marks.take(i as int));
                    assert(before.players + ships_of(so_far.push(d)) =~= (before.players
                        + ships_of(so_far)).push(d.player));
                }
            } else {
                waiting.push(d);
            }
            i += 1;
        }
        self.state.dead = waiting;
        proof {
            assert(before.dead.take(before.dead.len() as int) =~= before.dead);
            assert(marks.take(before.dead.len() as int) =~= marks);
            assert(turned(marks).take(before.dead.len() as int) =~= turned(marks));
            lemma_revived_wf(before, now);
        }
    }

    /// Moves every bullet on and takes away those that left the arena.
    fn shoot_on(&mut self, dt: u32)
        requires
            old(self).wf(),
        ensures
            final(self).wf(),
            final(self)@ == old(self)@.shot_on(dt),
    {
        let ghost before = self@;
        let ghost moved = Seq::new(before.bullets.len(), |i: int| flown(before.bullets[i], dt));
        let mut kept: Vec<BulletState> = Vec::new();
        let mut i: usize = 0;
        while i < self.state.bullets.len()
            invariant
                i <= before.bullets.len(),
                self@ == before,
                moved == Seq::new(before.bullets.len(), |i: int| flown(before.bullets[i], dt)),
                kept@ == picked(moved.take(i as int), inside(moved).take(i as int)),
            decreases before.bullets.len() - i,
        {
            proof {
                lemma_picked_step(moved, inside(moved), i as int);
            }
            let b = self.state.bullets[i];
            let tx: i64 = travel_of(b.angle.dx(), BULLET_SPEED, PLAYER_MAX_THROTTLE, dt);
            let ty: i64 = travel_of(b.angle.dy(), BULLET_SPEED, PLAYER_MAX_THROTTLE, dt);
            let nx: i32 = saturate_wide(b.x as i128 + tx as i128);
            let ny: i32 = saturate_wide(b.y as i128 + ty as i128);
            if 0 <= nx && nx <= ARENA_WIDTH && 0 <= ny && ny <= ARENA_HEIGHT {
                kept.push(BulletState { x: nx, y: ny, ..b });
            }
            i += 1;
        }
        self.state.bullets = kept;
        proof {
            assert(moved.take(moved.len() as int) =~= moved);
            assert(inside(moved).take(moved.len() as int) =~= inside(moved));
            lemma_shot_on_wf(before, dt);
        }
    }

    /// Moves every ship in play on.
    fn sail_on(&mut self, dt: u32)
        requires
            old(self).wf(),
        ensures
            final(self).wf(),
            final(self)@ == old(self)@.sailed_on(dt),
    {
        let ghost before = self@;
        let mut i: usize = 0;
        while i < self.state.players.len()
            invariant
                i <= before.players.len(),
                before.wf(),
                self@.players.len() == before.players.len(),
                forall|j: int| 0 <= j < i ==> #[trigger] self@.players[j] == sailed(
                    before.players[j],
                    dt,
                ),
                forall|j: int| i <= j < before.players.len() ==> #[trigger] self@.players[j]
                    == before.players[j],
                self@ == (GameView { players: self@.players, ..before }),
            decreases before.players.len() - i,
        {
            let p = self.state.players[i];
            assert(ship_ok(before.players[i as int]));
            let tx: i64 = travel_of(p.angle.dx(), PLAYER_BASE_SPEED, p.throttle, dt);
            let ty: i64 = travel_of(p.angle.dy(), PLAYER_BASE_SPEED, p.throttle, dt);
            let nx: i64 = clamp_to(p.x as i64 + tx, PLAYER_RADIUS as i64, (ARENA_WIDTH - PLAYER_RADIUS) as i64);
            let ny: i64 = clamp_to(p.y as i64 + ty, PLAYER_RADIUS as i64, (ARENA_HEIGHT - PLAYER_RADIUS) as i64);
            self.state.players.set(i, PlayerState { x: nx as i32, y: ny as i32, ..p });
            i += 1;
        }
        proof {
            assert(self@.players =~= before.sailed_on(dt).players);
            lemma_sailed_on_wf(before, dt);
        }
    }

    /// Lets the bullets strike. The ships that fall return where `given`
    /// says, or, where nothing is given, each at a point drawn at random.
    fn collide(&mut self, now: u64, given: Option<&Vec<Position>>) -> (spawns: Ghost<
        Seq<Position>,
    >)
        requires
            old(self).wf(),
            now <= MAX_TIME,
        ensures
            final(self).wf(),
            spawns@.len() == old(self)@.losses(),
            all_in_arena(spawns@),
            final(self)@ == old(self)@.struck(now, spawns@),
            given matches Some(points) ==> spawns@ == spawn_points(
                old(self)@.fallen_ships(),
                points@,
            ),
    {
        let ghost before = self@;
        let ghost mut targets: Seq<Option<int>> = Seq::empty();
        let ghost mut spawns: Seq<Position> = Seq::empty();
        let mut fallen: Vec<bool> = Vec::new();
        let mut k: usize = 0;
        while k < self.state.players.len()
            invariant
                self@ == before,
                k <= before.players.len(),
                fallen@ == Seq::new(k as nat, |j: int| false),
            decreases before.players.len() - k,
        {
            fallen.push(false);
            proof {
                assert(fallen@ =~= Seq::new((k + 1) as nat, |j: int| false));
            }
            k += 1;
        }
        let mut spent: Vec<bool> = Vec::new();
        let mut lost: usize = 0;
        let mut i: usize = 0;
        proof {
            if let Some(points) = given {
                assert(spawns =~= spawn_points(victims(targets, before.players), points@));
            }
        }
        while i < self.state.bullets.len()
            invariant
                i <= before.bullets.len(),
                now <= MAX_TIME,
                before.wf(),
                lost == spawns.len(),
                lost <= i,
                given matches Some(points) ==> spawns == spawn_points(
                    victims(targets, before.players),
                    points@,
                ),
                strikes(before.bullets.take(i as int), before.players) == (Strikes {
                    targets,
                    fallen: fallen@,
                }),
                fallen@.len() == before.players.len(),
                targets.len() == i,
                spent@ == Seq::new(i as nat, |j: int| targets[j] is Some),
                spawns.len() == victims(targets, before.players).len(),
                all_in_arena(spawns),
                distinct_by(self@.deadlines, deadline_key()),
                self@ == (GameView {
                    dead: before.dead + graves(victims(targets, before.players), spawns, now),
                    scoreboard: credited_all(
                        before.scoreboard,
                        killers(targets, before.bullets),
                    ),
                    deadlines: registered_all(
                        before.deadlines,
                        victims(targets, before.players),
                        (now + SURVIVAL_TIMEOUT) as u64,
                    ),
                    ..before
                }),
            decreases before.bullets.len() - i,
        {
            let b = self.state.bullets[i];
            proof {
                assert(before.bullets.take(i + 1).drop_last() =~= before.bullets.take(i as int));
                assert(before.bullets.take(i + 1).last() == b);
            }
            let ghost fell_before = victims(targets, before.players);
            match find_target(&b, &self.state.players, &fallen) {
                Some(k) => {
                    fallen.set(k, true);
                    spent.push(true);
                    let mut p = self.state.players[k];
                    proof {
                        assert(self@.players == before.players);
                        assert(ship_ok(before.players[k as int]));
                    }
                    match given {
                        Some(points) => {
                            if lost < points.len() {
                                let at = points[lost];
                                p.place(
                                    clamp_to(at.x as i64, 0, ARENA_WIDTH as i64) as i32,
                                    clamp_to(at.y as i64, 0, ARENA_HEIGHT as i64) as i32,
                                );
                            }
                        },
                        None => {
                            p.randomize(Bounds { width: ARENA_WIDTH, height: ARENA_HEIGHT });
                        },
                    }
                    lost += 1;
                    self.state.dead.push(DeadPlayer { respawn: now + DEAD_PUNISH, player: p });
                    credit(&mut self.state.scoreboard, b.player_id);
                    register(&mut self.survival_times, p.id, now + SURVIVAL_TIMEOUT);
                    proof {
                        let grown = targets.push(Some(k as int));
                        assert(grown.drop_last() =~= targets);
                        targets = grown;
                        let more = spawns.push(Position { x: p.x, y: p.y });
                        let fell = victims(targets, before.players);
                        assert(fell == fell_before.push(before.players[k as int]));
                        assert(fell.drop_last() =~= fell_before);
                        assert(before.dead + graves(fell, more, now) =~= (before.dead + graves(
                            fell_before,
                            spawns,
                            now,
                        )).push(DeadPlayer { respawn: (now + DEAD_PUNISH) as u64, player: p }));
                        assert forall|j: int| 0 <= j < more.len() implies in_arena(
                            (#[trigger] more[j]).x as int,
                            more[j].y as int,
                        ) by {
                            if j < spawns.len() {
                                assert(more[j] == spawns[j]);
                            }
                        }
                        if let Some(points) = given {
                            assert(more =~= spawn_points(fell, points@));
                        }
                        spawns = more;
                        let shooters = killers(targets.drop_last(), before.bullets);
                        assert(killers(targets, before.bullets) == shooters.push(b.player_id));
                        assert(shooters.push(b.player_id).drop_last() =~= shooters);
                        assert(self@.scoreboard == credited_all(
                            before.scoreboard,
                            killers(targets, before.bullets),
                        ));
                        assert(self@.deadlines == registered_all(
                            before.deadlines,
                            fell,
                            (now + SURVIVAL_TIMEOUT) as u64,
                        ));
                    }
                },
                None => {
                    spent.push(false);
                    proof {
                        let grown = targets.push(None);
                        assert(grown.drop_last() =~= targets);
                        targets = grown;
                    }
                },
            }
            proof {
                assert(spent@ =~= Seq::new((i + 1) as nat, |j: int| targets[j] is Some));
            }
            i += 1;
        }
        let survivors = pick(&self.state.players, &fallen, false);
        let remaining = pick(&self.state.bullets, &spent, false);
        self.state.players = survivors;
        self.state.bullets = remaining;
        proof {
            assert(before.bullets.take(before.bullets.len() as int) =~= before.bullets);
            assert(turned(spent@) =~= unspent(targets));
            lemma_struck_wf(before, now, spawns);
        }
        Ghost(spawns)
    }

    /// Rewards the ships that lasted.
    fn reward(&mut self, now: u64)
        requires
            old(self).wf(),
            now <= MAX_TIME,
        ensures
            final(self).wf(),
            final(self)@ == old(self)@.rewarded(now),
    {
        let ghost before = self@;
        let mut i: usize = 0;
        while i < self.survival_times.len()
            invariant
                i <= before.deadlines.len(),
                now <= MAX_TIME,
                self@.deadlines.len() == before.deadlines.len(),
                forall|j: int| 0 <= j < i ==> #[trigger] self@.deadlines[j] == advanced(
                    before.deadlines[j],
                    now,
                ),
                forall|j: int| i <= j < before.deadlines.len() ==> #[trigger] self@.deadlines[j]
                    == before.deadlines[j],
                self@ == (GameView {
                    scoreboard: credited_all(
                        before.scoreboard,
                        bonus_ids(before.deadlines.take(i as int), now),
                    ),
                    deadlines: self@.deadlines,
                    ..before
                }),
            decreases before.deadlines.len() - i,
        {
            proof {
                assert(before.deadlines.take(i + 1).drop_last() =~= before.deadlines.take(
                    i as int,
                ));
                assert(before.deadlines.take(i + 1).last() == before.deadlines[i as int]);
                assert(self@.deadlines[i as int] == before.deadlines[i as int]);
            }
            let d = self.survival_times[i];
            if d.at <= now {
                credit(&mut self.state.scoreboard, d.player_id);
                self.survival_times.set(i, Deadline { at: d.at + SURVIVAL_POINT_INTERVAL, ..d });
                proof {
                    let ids = bonus_ids(before.deadlines.take(i as int), now);
                    assert(ids.push(d.player_id).drop_last() =~= ids);
                }
            }
            i += 1;
        }
        proof {
            assert(before.deadlines.take(before.deadlines.len() as int) =~= before.deadlines);
            assert(self@.deadlines =~= before.rewarded(now).deadlines);
            lemma_rewarded_wf(before, now);
        }
    }

    /// Moves the arena on by one tick of `dt` milliseconds, at the time
    /// `now`. In this order: the ships whose time has come return to play;
    /// the bullets fly on and the ships sail on, the ships kept inside the
    /// arena and the bullets that left it taken away; the bullets strike;
    /// and the ships that lasted score for surviving. Each ship that falls
    /// is given a point of the arena, drawn at random, to return at.
    pub fn tick(&mut self, dt: u32, now: u64)
        requires
            old(self).wf(),
            now <= MAX_TIME,
        ensures
            final(self).wf(),
            exists|spawns: Seq<Position>|
                spawns.len() == old(self)@.moved_on(dt, now).losses() && all_in_arena(spawns)
                    && final(self)@ == #[trigger] old(self)@.ticked(dt, now, spawns),
    {
        self.revive(now);
        self.shoot_on(dt);
        self.sail_on(dt);
        let spawns = self.collide(now, None);
        self.reward(now);
        proof {
            assert(self@ == old(self)@.ticked(dt, now, spawns@));
        }
    }

    /// Moves the arena on by one tick as `tick` does, but for the points at
    /// which the ships that fall return: the ship that falls first returns
    /// at the first point of `spawns`, and so on, each point brought into
    /// the arena; a ship for which `spawns` has no point returns where it
    /// fell. Nothing is drawn at random.
    pub fn tick_with(&mut self, dt: u32, now: u64, spawns: &Vec<Position>)
        requires
            old(self).wf(),
            now <= MAX_TIME,
        ensures
            final(self).wf(),
            final(self)@ == old(self)@.ticked_with(dt, now, spawns@),
    {
        self.revive(now);
        self.shoot_on(dt);
        self.sail_on(dt);
        let _ = self.collide(now, Some(spawns));
        self.reward(now);
    }

    /// Takes in what reached the arena, and says where a ship that joined
    /// was put.
    fn take_in(&mut self, cmd: GameLoopCommand, now: u64) -> (at: Ghost<Position>)
        requires
            old(self).wf(),
            now <= MAX_TIME,
        ensures
            final(self).wf(),
            0 <= at@.x < ARENA_WIDTH,
            0 <= at@.y < ARENA_HEIGHT,
            final(self)@ == old(self)@.received(cmd, now, at@),
    {
        match cmd {
            GameLoopCommand::PlayerJoined(id) => {
                self.add_player(id, now);
                Ghost(
                    {
                        let (x, y) = choose|x: i32, y: i32|
                            0 <= x < ARENA_WIDTH && 0 <= y < ARENA_HEIGHT && self@
                                == #[trigger] old(self)@.joined(id, x, y, now);
                        Position { x, y }
                    },
                )
            },
            GameLoopCommand::PlayerLeft(id) => {
                self.player_left(id);
                Ghost(Position { x: 0, y: 0 })
            },
            GameLoopCommand::GameCommand(id, c) => {
                self.handle_cmd(id, c);
                Ghost(Position { x: 0, y: 0 })
            },
        }
    }

    /// Takes in what reached the arena: a ship that joins is added at a
    /// point drawn at random, a ship that left is halted, and a command is
    /// obeyed.
    pub fn receive(&mut self, cmd: GameLoopCommand, now: u64)
        requires
            old(self).wf(),
            now <= MAX_TIME,
        ensures
            final(self).wf(),
            exists|at: Position|
                0 <= at.x < ARENA_WIDTH && 0 <= at.y < ARENA_HEIGHT && final(self)@
                    == #[trigger] old(self)@.received(cmd, now, at),
    {
        let _ = self.take_in(cmd, now);
    }

    /// One round of the arena's loop at the time `now`: takes in, in their
    /// order, the commands that came since the last round, then moves the
    /// arena on by one tick of `dt` milliseconds.
    pub fn step(&mut self, cmds: &Vec<GameLoopCommand>, dt: u32, now: u64)
        requires
            old(self).wf(),
            now <= MAX_TIME,
        ensures
            final(self).wf(),
            exists|ats: Seq<Position>, spawns: Seq<Position>|
                ats.len() == cmds@.len() && all_in_arena(ats) && spawns.len() == old(
                    self,
                )@.received_all(cmds@, now, ats).moved_on(dt, now).losses() && all_in_arena(spawns)
                    && final(self)@ == #[trigger] old(self)@.received_all(cmds@, now, ats).ticked(
                    dt,
                    now,
                    spawns,
                ),
    {
        let ghost before = self@;
        let ghost mut ats: Seq<Position> = Seq::empty();
        let mut i: usize = 0;
        while i < cmds.len()
            invariant
                i <= cmds@.len(),
                now <= MAX_TIME,
                self.wf(),
                ats.len() == i,
                all_in_arena(ats),
                self@ == before.received_all(cmds@.take(i as int), now, ats),
            decreases cmds@.len() - i,
        {
            let at = self.take_in(cmds[i], now);
            proof {
                let more = ats.push(at@);
                assert(more.drop_last() =~= ats);
                assert(cmds@.take(i + 1).drop_last() =~= cmds@.take(i as int));
                assert forall|j: int| 0 <= j < more.len() implies in_arena(
                    (#[trigger] more[j]).x as int,
                    more[j].y as int,
                ) by {
                    if j < ats.len() {
                        assert(more[j] == ats[j]);
                    }
                }
                ats = more;
            }
            i += 1;
        }
        proof {
            assert(cmds@.take(cmds@.len() as int) =~= cmds@);
        }
        let ghost mid = self@;
        self.tick(dt, now);
        proof {
            let spawns = choose|spawns: Seq<Position>|
                spawns.len() == mid.moved_on(dt, now).losses() && all_in_arena(spawns) && self@
                    == #[trigger] mid.ticked(dt, now, spawns);
            assert(self@ == before.received_all(cmds@, now, ats).ticked(dt, now, spawns));
        }
    }

    /// Nothing is left to prepare once the arena is made.
    pub fn init(&mut self)
        ensures
            *final(self) == *old(self),
    {
    }
}

} // verus!
