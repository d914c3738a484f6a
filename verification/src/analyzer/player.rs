//! One ship as a client has seen it: where it is, and the record of where it
//! was and of what it scored.

use crate::analyzer::bullet::Bullet;
use crate::analyzer::ANALYSIS_INTERVAL;
use crate::game::rules::score_of;
use crate::geom::{Heading, Position, Velocity};
use crate::models::{PlayerState, BULLET_RADIUS, PLAYER_RADIUS};
use std::collections::HashMap;
use vstd::prelude::*;

verus! {

broadcast use vstd::std_specs::hash::group_hash_axioms;

/// Milliseconds of the past from which a score is carried forward.
pub const PROJECTION_LOOKBACK: u64 = 10_000;

/// A score and the time at which it was seen.
#[derive(Clone, Copy, Debug, PartialEq, Eq, Structural)]
pub struct ScoreSample {
    pub score: u32,
    pub time: u64,
}

/// A place and the time at which a ship was seen there.
#[derive(Clone, Copy, Debug, PartialEq, Eq, Structural)]
pub struct Waypoint {
    pub position: Position,
    pub time: u64,
}

/// The score with which a record stood at the time `time`: the score of the
/// latest sample that is no later than that, or zero where there is none.
pub open spec fn score_at(samples: Seq<ScoreSample>, time: u64) -> int
    decreases samples.len(),
{
    if samples.len() == 0 {
        0
    } else if samples.last().time <= time {
        samples.last().score as int
    } else {
        score_at(samples.drop_last(), time)
    }
}

/// What a record gained since the time `time`: its last score less the score
/// with which it stood then, and nothing where that would be a loss.
pub open spec fn gained_since(samples: Seq<ScoreSample>, time: u64) -> int {
    if samples.last().score >= score_at(samples, time) {
        samples.last().score - score_at(samples, time)
    } else {
        0
    }
}

/// What a record gained over the lookback that ends at the time `now`. The
/// clock starts at zero: while it reads less than the lookback, no sample is
/// older than the window, and the gain is the whole of the last score.
pub open spec fn recent_gain(samples: Seq<ScoreSample>, now: u64) -> int {
    if now >= PROJECTION_LOOKBACK {
        gained_since(samples, (now - PROJECTION_LOOKBACK) as u64)
    } else {
        samples.last().score as int
    }
}

/// The score that a record promises for `after` milliseconds from `now`: its
/// last score, and what it gained over the lookback, carried forward at the
/// same rate. A score stops at the largest that can be written down.
pub open spec fn projected_score(samples: Seq<ScoreSample>, now: u64, after: u64) -> int {
    let ahead = samples.last().score + recent_gain(samples, now) * after / (
    PROJECTION_LOOKBACK as int);
    if ahead > u32::MAX {
        u32::MAX as int
    } else {
        ahead
    }
}

/// Milliseconds from the waypoint `a` to the waypoint `b`; none where `b` is
/// not the later.
pub open spec fn leg_time(a: Waypoint, b: Waypoint) -> int {
    if b.time >= a.time {
        b.time - a.time
    } else {
        0
    }
}

/// The velocity of the leg that starts at the waypoint at `i`, each component
/// without its sign.
pub open spec fn leg_speed(points: Seq<Waypoint>, i: int) -> Velocity {
    points[i].position.velocity_toward(
        points[i + 1].position,
        leg_time(points[i], points[i + 1]),
    ).magnitudes()
}

/// Sum of the x components of the speeds of the first `n` legs.
pub open spec fn sum_dx(points: Seq<Waypoint>, n: int) -> int
    decreases n,
{
    if n <= 0 {
        0
    } else {
        sum_dx(points, n - 1) + leg_speed(points, n - 1).dx
    }
}

/// Sum of the y components of the speeds of the first `n` legs.
pub open spec fn sum_dy(points: Seq<Waypoint>, n: int) -> int
    decreases n,
{
    if n <= 0 {
        0
    } else {
        sum_dy(points, n - 1) + leg_speed(points, n - 1).dy
    }
}

/// The velocity of the last leg of a record; rest where it has no leg.
pub open spec fn latest_velocity(points: Seq<Waypoint>) -> Velocity {
    if points.len() < 2 {
        Velocity { dx: 0, dy: 0 }
    } else {
        points[points.len() - 2].position.velocity_toward(
            points.last().position,
            leg_time(points[points.len() - 2], points.last()),
        )
    }
}

/// The mean of the speeds of all legs of a record, component by component;
/// rest where it has no leg.
pub open spec fn mean_speed(points: Seq<Waypoint>) -> Velocity {
    if points.len() < 2 {
        Velocity { dx: 0, dy: 0 }
    } else {
        Velocity {
            dx: (sum_dx(points, points.len() - 1) / (points.len() - 1)) as i32,
            dy: (sum_dy(points, points.len() - 1) / (points.len() - 1)) as i32,
        }
    }
}

/// Whether a ship at `at` and the bullet `bullet` overlap once the bullet has
/// flown for `after` milliseconds.
pub open spec fn collides_at(at: Position, bullet: Bullet, after: int) -> bool {
    at.dist2(bullet.position.projected(bullet.velocity, after)) < (BULLET_RADIUS + PLAYER_RADIUS)
        * (BULLET_RADIUS + PLAYER_RADIUS)
}

/// Whether a ship that stays at `at` and the bullet `bullet` overlap at one
/// of the moments, `ANALYSIS_INTERVAL` apart, of the next `during`
/// milliseconds.
pub open spec fn collides_during(at: Position, bullet: Bullet, during: u64) -> bool {
    exists|k: int|
        1 <= k <= during / ANALYSIS_INTERVAL && #[trigger] collides_at(
            at,
            bullet,
            k * ANALYSIS_INTERVAL,
        )
}

/// The record of the scores of one ship.
#[derive(Debug)]
pub struct ScoreHistory {
    inner: Vec<ScoreSample>,
}

impl View for ScoreHistory {
    type V = Seq<ScoreSample>;

    closed spec fn view(&self) -> Seq<ScoreSample> {
        self.inner@
    }
}

impl Default for ScoreHistory {
    fn default() -> (h: ScoreHistory)
        ensures
            h@ == Seq::<ScoreSample>::empty(),
    {
        ScoreHistory::new()
    }
}

impl ScoreHistory {
    /// A record with no sample.
    pub fn new() -> (h: ScoreHistory)
        ensures
            h@ == Seq::<ScoreSample>::empty(),
    {
        ScoreHistory { inner: Vec::new() }
    }

    /// Adds a sample at the end of the record.
    pub fn push(&mut self, score: u32, time: u64)
        ensures
            final(self)@ == old(self)@.push(ScoreSample { score, time }),
    {
        self.inner.push(ScoreSample { score, time });
    }

    /// How many samples the record holds.
    pub fn len(&self) -> (n: usize)
        ensures
            n == self@.len(),
    {
        self.inner.len()
    }

    /// The score of the last sample.
    pub fn last_score(&self) -> (r: u32)
        requires
            self@.len() > 0,
        ensures
            r == self@.last().score,
    {
        self.inner[self.inner.len() - 1].score
    }

    /// What the ship gained since the time `past_time`.
    pub fn score_since(&self, past_time: u64) -> (r: u32)
        requires
            self@.len() > 0,
        ensures
            r == gained_since(self@, past_time),
    {
        let mut i: usize = self.inner.len();
        let mut start: u32 = 0;
        proof {
            assert(self@.take(i as int) =~= self@);
        }
        while i > 0
            invariant_except_break
                i <= self@.len(),
                start == 0,
                score_at(self@, past_time) == score_at(self@.take(i as int), past_time),
            ensures
                start == score_at(self@, past_time),
            decreases i,
        {
            proof {
                assert(self@.take(i as int).drop_last() =~= self@.take(i - 1));
            }
            if self.inner[i - 1].time <= past_time {
                start = self.inner[i - 1].score;
                break ;
            }
            i -= 1;
        }
        let last = self.last_score();
        if last >= start {
            last - start
        } else {
            0
        }
    }

    /// The score that the record promises for `after` milliseconds from
    /// `now`.
    pub fn project(&self, now: u64, after: u64) -> (r: u32)
        requires
            self@.len() > 0,
        ensures
            r == projected_score(self@, now, after),
    {
        let gained: u128 = if now >= PROJECTION_LOOKBACK {
            self.score_since(now - PROJECTION_LOOKBACK) as u128
        } else {
            self.last_score() as u128
        };
        let span: u128 = after as u128;
        assert(gained * span <= 0xffff_ffff * 0xffff_ffff_ffff_ffff) by (nonlinear_arith)
            requires
                0 <= gained <= 0xffff_ffff,
                0 <= span <= 0xffff_ffff_ffff_ffff,
        ;
        let ahead: u128 = self.last_score() as u128 + gained * span / 10_000;
        if ahead > u32::MAX as u128 {
            u32::MAX
        } else {
            ahead as u32
        }
    }
}

/// The record of the places of one ship.
#[derive(Debug)]
pub struct Trajectory {
    pub positions: Vec<Waypoint>,
}

impl View for Trajectory {
    type V = Seq<Waypoint>;

    open spec fn view(&self) -> Seq<Waypoint> {
        self.positions@
    }
}

impl Default for Trajectory {
    fn default() -> (t: Trajectory)
        ensures
            t@ == Seq::<Waypoint>::empty(),
    {
        Trajectory::new()
    }
}

/// Milliseconds from the waypoint `a` to the waypoint `b`.
fn time_between(a: &Waypoint, b: &Waypoint) -> (dt: u64)
    ensures
        dt == leg_time(*a, *b),
{
    if b.time >= a.time {
        b.time - a.time
    } else {
        0
    }
}

impl Trajectory {
    /// A record with no waypoint.
    pub fn new() -> (t: Trajectory)
        ensures
            t@ == Seq::<Waypoint>::empty(),
    {
        Trajectory { positions: Vec::new() }
    }

    /// Adds a waypoint at the end of the record.
    pub fn push(&mut self, position: Position, time: u64)
        ensures
            final(self)@ == old(self)@.push(Waypoint { position, time }),
    {
        self.positions.push(Waypoint { position, time });
    }

    /// The place of the last waypoint.
    pub fn last_position(&self) -> (p: &Position)
        requires
            self@.len() > 0,
        ensures
            *p == self@.last().position,
    {
        &self.positions[self.positions.len() - 1].position
    }

    /// The velocity of the last leg; rest where the record has one waypoint
    /// only.
    pub fn last_velocity(&self) -> (v: Velocity)
        requires
            self@.len() > 0,
        ensures
            v == latest_velocity(self@),
    {
        let n = self.positions.len();
        if n < 2 {
            Velocity::zero()
        } else {
            let prev = &self.positions[n - 2];
            let last = &self.positions[n - 1];
            prev.position.velocity_to(&last.position, time_between(prev, last))
        }
    }

    /// The mean of the speeds of all legs, component by component: how much
    /// the ship moves, whichever way.
    pub fn ave_abs_velocity(&self) -> (v: Velocity)
        ensures
            v == mean_speed(self@),
    {
        let n = self.positions.len();
        if n < 2 {
            return Velocity::zero();
        }
        let mut sx: u128 = 0;
        let mut sy: u128 = 0;
        let mut i: usize = 0;
        while i < n - 1
            invariant
                n == self@.len(),
                n >= 2,
                i <= n - 1,
                sx == sum_dx(self@, i as int),
                sy == sum_dy(self@, i as int),
                sx <= i * 0x7fff_ffff,
                sy <= i * 0x7fff_ffff,
            decreases n - 1 - i,
        {
            let a = &self.positions[i];
            let b = &self.positions[i + 1];
            let leg = a.position.velocity_to(&b.position, time_between(a, b)).abs();
            assert((i + 1) * 0x7fff_ffff == i * 0x7fff_ffff + 0x7fff_ffff) by (nonlinear_arith);
            assert(i * 0x7fff_ffff <= 0xffff_ffff_ffff_ffff * 0x7fff_ffff) by (nonlinear_arith)
                requires
                    i <= 0xffff_ffff_ffff_ffff,
            ;
            sx = sx + leg.dx as u128;
            sy = sy + leg.dy as u128;
            i += 1;
        }
        let legs: u128 = (n - 1) as u128;
        assert(sx / legs <= 0x7fff_ffff && sy / legs <= 0x7fff_ffff) by (nonlinear_arith)
            requires
                legs > 0,
                sx <= legs * 0x7fff_ffff,
                sy <= legs * 0x7fff_ffff,
        ;
        Velocity { dx: (sx / legs) as i32, dy: (sy / legs) as i32 }
    }
}

/// One ship as the client has seen it.
#[derive(Debug)]
pub struct Player {
    pub id: u32,
    pub angle: Heading,
    pub throttle: u32,
    pub position: Position,
    pub trajectory: Trajectory,
    pub score_history: ScoreHistory,
}

/// One ship as the client has seen it, as contracts speak of it.
pub struct PlayerView {
    pub id: u32,
    pub angle: Heading,
    pub throttle: u32,
    pub position: Position,
    pub trajectory: Seq<Waypoint>,
    pub scores: Seq<ScoreSample>,
}

impl PlayerView {
    /// A ship with nothing on record.
    pub open spec fn blank() -> PlayerView {
        PlayerView {
            id: 0,
            angle: Heading::spec_east(),
            throttle: 0,
            position: Position { x: 0, y: 0 },
            trajectory: Seq::empty(),
            scores: Seq::empty(),
        }
    }

    /// A record holds at least one place and one score once a snapshot went
    /// into it.
    pub open spec fn wf(self) -> bool {
        self.trajectory.len() > 0 && self.scores.len() > 0
    }

    /// The ship after it was seen once more, in the state `state` with the
    /// score `score` at the time `time`.
    pub open spec fn seen_again(self, state: PlayerState, score: u32, time: u64) -> PlayerView {
        PlayerView {
            id: self.id,
            angle: state.angle,
            throttle: state.throttle,
            position: Position { x: state.x, y: state.y },
            trajectory: self.trajectory.push(
                Waypoint { position: Position { x: state.x, y: state.y }, time },
            ),
            scores: self.scores.push(ScoreSample { score, time }),
        }
    }

    /// A ship that was seen for the first time.
    pub open spec fn first_seen(state: PlayerState, score: u32, time: u64) -> PlayerView {
        (PlayerView { id: state.id, ..PlayerView::blank() }).seen_again(state, score, time)
    }

    /// The last score on record.
    pub open spec fn score(self) -> int {
        self.scores.last().score as int
    }
}

impl View for Player {
    type V = PlayerView;

    open spec fn view(&self) -> PlayerView {
        PlayerView {
            id: self.id,
            angle: self.angle,
            throttle: self.throttle,
            position: self.position,
            trajectory: self.trajectory@,
            scores: self.score_history@,
        }
    }
}

impl Default for Player {
    fn default() -> (p: Player)
        ensures
            p@ == PlayerView::blank(),
    {
        Player {
            id: 0,
            angle: Heading::east(),
            throttle: 0,
            position: Position { x: 0, y: 0 },
            trajectory: Trajectory::new(),
            score_history: ScoreHistory::new(),
        }
    }
}

/// The score that the table holds for `id`; zero where it has none.
fn score_in(scoreboard: &HashMap<u32, u32>, id: u32) -> (r: u32)
    ensures
        r == score_of(scoreboard@, id),
{
    match scoreboard.get(&id) {
        Some(score) => *score,
        None => 0,
    }
}

impl Player {
    /// The record of a ship that is seen for the first time, in the state
    /// `state` at the time `time`. Its score is the one that `scoreboard`
    /// holds for it, or zero.
    pub fn with_state(state: &PlayerState, scoreboard: &HashMap<u32, u32>, time: u64) -> (p: Player)
        ensures
            p@ == PlayerView::first_seen(*state, score_of(scoreboard@, state.id) as u32, time),
            p@.wf(),
    {
        let mut p = Player::default();
        p.id = state.id;
        p.push_state(state, scoreboard, time);
        p
    }

    /// Takes in the state in which the ship is seen at the time `time`.
    pub fn push_state(&mut self, state: &PlayerState, scoreboard: &HashMap<u32, u32>, time: u64)
        requires
            old(self).id == state.id,
        ensures
            final(self)@ == old(self)@.seen_again(
                *state,
                score_of(scoreboard@, state.id) as u32,
                time,
            ),
            final(self)@.wf(),
    {
        self.angle = state.angle;
        self.throttle = state.throttle;
        self.position = Position { x: state.x, y: state.y };
        self.trajectory.push(self.position, time);
        self.score_history.push(score_in(scoreboard, state.id), time);
    }

    /// The last score on record.
    pub fn score(&self) -> (r: u32)
        requires
            self@.wf(),
        ensures
            r == self@.score(),
    {
        self.score_history.last_score()
    }

    /// Whether the ship, where it is now, and `bullet` overlap once the
    /// bullet has flown for `interval` milliseconds.
    pub fn is_colliding_at(&self, bullet: &Bullet, interval: u64) -> (r: bool)
        ensures
            r == collides_at(self.position, *bullet, interval as int),
    {
        let reach: u128 = 144_000_000;
        assert((BULLET_RADIUS + PLAYER_RADIUS) * (BULLET_RADIUS + PLAYER_RADIUS) == 144_000_000)
            by (nonlinear_arith)
            requires
                BULLET_RADIUS == 2_000,
                PLAYER_RADIUS == 10_000,
        ;
        self.position.distance_squared(&bullet.project_position(interval)) < reach
    }

    /// Whether the ship, if it stays where it is, and `bullet` overlap at
    /// one of the moments, `ANALYSIS_INTERVAL` apart, of the next `interval`
    /// milliseconds.
    pub fn is_colliding_during(&self, bullet: &Bullet, interval: u64) -> (r: bool)
        ensures
            r == collides_during(self.position, *bullet, interval),
    {
        let moments: u64 = interval / ANALYSIS_INTERVAL;
        let mut k: u64 = 1;
        while k <= moments
            invariant
                1 <= k <= moments + 1,
                moments == interval / ANALYSIS_INTERVAL,
                forall|j: int|
                    1 <= j < k ==> !#[trigger] collides_at(
                        self.position,
                        *bullet,
                        j * ANALYSIS_INTERVAL,
                    ),
            decreases moments + 1 - k,
        {
            if self.is_colliding_at(bullet, ANALYSIS_INTERVAL * k) {
                proof {
                    assert(collides_at(self.position, *bullet, (k as int) * ANALYSIS_INTERVAL));
                }
                return true;
            }
            k += 1;
        }
        false
    }
}

} // verus!
