//! Behaviours: what a ship can be set to do, over one tick or over many.
//!
//! A behaviour is asked once in every tick for the next command. It answers
//! with one command, or with none when it has nothing left to do; what it
//! keeps in mind from tick to tick is part of its value. `Sequence` strings
//! behaviours together, and a `Target` names the ship that a behaviour is
//! about, to be looked up anew whenever the behaviour needs it.

pub mod laws;

use crate::analyzer::bullet::Bullet;
use crate::analyzer::player::{Player, PlayerView};
use crate::analyzer::{bullets_of, record, Analyzer, AnalyzerView};
use crate::geom::{
    Heading, Position, COS_10_DEGREES, COS_30_DEGREES, COS_5_DEGREES, COS_TENTH_DEGREE,
    HEADING_ONE,
};
use crate::models::{GameCommand, PLAYER_MAX_THROTTLE};
use std::collections::VecDeque;
use vstd::std_specs::vecdeque::VecDequeAdditionalSpecFns;
use vstd::prelude::*;

verus! {

/// A throttle this close to the one that is asked for, in thousandths, is
/// left as it is.
pub const THROTTLE_MARGIN: u32 = 50;

/// A ship this close to where it is sent, in grid steps, has arrived.
pub const ARRIVAL_DISTANCE: u32 = 10_000;

/// How far ahead a ship looks for bullets to step aside from, in
/// milliseconds.
pub const DODGE_HORIZON: u64 = 1_000;

/// The ship that a behaviour is about.
#[derive(Clone, Copy, Debug, PartialEq, Eq, Structural)]
pub enum Target {
    /// The ship with this id.
    Id(u32),
    /// The ship closest to one's own.
    Closest,
    /// The ship that moved the least so far.
    LeastMoving,
    /// The ship with the highest score so far.
    HighestScore,
    /// The ship that promises the highest score this many milliseconds from
    /// now.
    HighestScoreAfter(u64),
}

impl Target {
    /// The ship that the target names in the world `w`, if there is one.
    pub open spec fn resolve(self, w: AnalyzerView) -> Option<PlayerView> {
        match self {
            Target::Id(id) => w.player(id),
            Target::Closest => w.closest(),
            Target::LeastMoving => w.least_moving(),
            Target::HighestScore => w.highest_score(),
            Target::HighestScoreAfter(after) => w.highest_score_after(after),
        }
    }

    /// The ship that the target names, if there is one.
    pub fn get<'a>(&self, analyzer: &'a Analyzer) -> (r: Option<&'a Player>)
        ensures
            record(r) == self.resolve(analyzer@),
    {
        match self {
            Target::Id(id) => analyzer.player(*id),
            Target::Closest => analyzer.player_closest(),
            Target::LeastMoving => analyzer.player_least_moving(),
            Target::HighestScore => analyzer.player_highest_score(),
            Target::HighestScoreAfter(after) => analyzer.player_highest_score_after(*after),
        }
    }
}

/// Takes up a tick without effect: turns the ship to the heading it has.
#[derive(Clone, Copy, Debug, PartialEq, Eq, Structural)]
pub struct Noop;

/// Sets the throttle to `value`, unless it is within `THROTTLE_MARGIN` of it.
#[derive(Clone, Copy, Debug, PartialEq, Eq, Structural)]
pub struct Throttle {
    pub value: u32,
}

/// Goes at full throttle for a number of ticks.
#[derive(Clone, Copy, Debug, PartialEq, Eq, Structural)]
pub struct Forward {
    pub steps: u32,
}

/// Goes to `destination`, and may stop there.
#[derive(Clone, Copy, Debug, PartialEq, Eq, Structural)]
pub struct MoveTo {
    pub destination: Position,
    pub end_with_brake: bool,
}

/// Turns to `angle`, unless the ship faces it already within the angle whose
/// scaled cosine is `min_cos`.
#[derive(Clone, Copy, Debug, PartialEq, Eq, Structural)]
pub struct Rotate {
    pub angle: Heading,
    pub min_cos: i32,
}

/// Fires `times` times, once in each tick.
#[derive(Clone, Copy, Debug, PartialEq, Eq, Structural)]
pub struct Fire {
    pub times: u32,
}

/// Heads for the target until it is no further than `distance`.
#[derive(Clone, Copy, Debug, PartialEq, Eq, Structural)]
pub struct Chase {
    pub target: Target,
    pub distance: u32,
}

/// Steps aside from the first bullet that is about to hit.
#[derive(Clone, Copy, Debug, PartialEq, Eq, Structural)]
pub struct Dodge;

/// A row of behaviours. The first is asked until it has nothing left to do;
/// then it is dropped and the next is asked.
#[derive(Debug)]
pub struct Sequence {
    inner: VecDeque<Behavior>,
}

/// Turns to the target and fires, `times` times over, aiming anew each time.
#[derive(Debug)]
pub struct FireAt {
    target: Target,
    times: u32,
    next: Sequence,
}

/// Any behaviour.
#[derive(Debug)]
pub enum Behavior {
    Noop(Noop),
    Throttle(Throttle),
    Forward(Forward),
    MoveTo(MoveTo),
    Rotate(Rotate),
    Fire(Fire),
    FireAt(FireAt),
    Chase(Chase),
    Dodge(Dodge),
    Sequence(Sequence),
}

/// `FireAt` as contracts speak of it.
pub struct FireAtModel {
    pub target: Target,
    pub times: u32,
    pub next: Seq<BehaviorModel>,
}

/// Any behaviour, as contracts speak of it.
pub enum BehaviorModel {
    Noop,
    Throttle(Throttle),
    Forward(Forward),
    MoveTo(MoveTo),
    Rotate(Rotate),
    Fire(Fire),
    FireAt(FireAtModel),
    Chase(Chase),
    Dodge,
    Sequence(Seq<BehaviorModel>),
}

/// What one behaviour does in a tick: what it is afterwards, and the command
/// that it gives, if any.
pub struct Outcome {
    pub next: BehaviorModel,
    pub command: Option<GameCommand>,
}

/// What a row of behaviours does in a tick.
pub struct Outcomes {
    pub next: Seq<BehaviorModel>,
    pub command: Option<GameCommand>,
}

/// What `FireAt` does in a tick.
pub struct Volley {
    pub next: FireAtModel,
    pub command: Option<GameCommand>,
}

/// The behaviour `b` as contracts speak of it.
pub closed spec fn model_of(b: Behavior) -> BehaviorModel
    decreases b,
{
    match b {
        Behavior::Noop(_) => BehaviorModel::Noop,
        Behavior::Throttle(t) => BehaviorModel::Throttle(t),
        Behavior::Forward(f) => BehaviorModel::Forward(f),
        Behavior::MoveTo(m) => BehaviorModel::MoveTo(m),
        Behavior::Rotate(r) => BehaviorModel::Rotate(r),
        Behavior::Fire(f) => BehaviorModel::Fire(f),
        Behavior::FireAt(f) => BehaviorModel::FireAt(
            FireAtModel {
                target: f.target,
                times: f.times,
                next: Seq::new(
                    f.next.inner@.len(),
                    |i: int|
                        if 0 <= i < f.next.inner@.len() {
                            model_of(f.next.inner[i])
                        } else {
                            BehaviorModel::Noop
                        },
                ),
            },
        ),
        Behavior::Chase(c) => BehaviorModel::Chase(c),
        Behavior::Dodge(_) => BehaviorModel::Dodge,
        Behavior::Sequence(s) => BehaviorModel::Sequence(
            Seq::new(
                s.inner@.len(),
                |i: int|
                    if 0 <= i < s.inner@.len() {
                        model_of(s.inner[i])
                    } else {
                        BehaviorModel::Noop
                    },
            ),
        ),
    }
}

/// The behaviours of a row as contracts speak of them.
pub open spec fn models_of(row: Seq<Behavior>) -> Seq<BehaviorModel> {
    Seq::new(row.len(), |i: int| model_of(row[i]))
}

impl View for Sequence {
    type V = Seq<BehaviorModel>;

    closed spec fn view(&self) -> Seq<BehaviorModel> {
        models_of(self.inner@)
    }
}

impl View for FireAt {
    type V = FireAtModel;

    closed spec fn view(&self) -> FireAtModel {
        FireAtModel { target: self.target, times: self.times, next: self.next@ }
    }
}

impl View for Behavior {
    type V = BehaviorModel;

    closed spec fn view(&self) -> BehaviorModel {
        model_of(*self)
    }
}

/// What the view of a behaviour is, case by case.
pub proof fn lemma_model(b: Behavior)
    ensures
        b@ == model_of(b),
        b is Noop ==> b@ == BehaviorModel::Noop,
        b matches Behavior::Throttle(t) ==> b@ == BehaviorModel::Throttle(t),
        b matches Behavior::Forward(f) ==> b@ == BehaviorModel::Forward(f),
        b matches Behavior::MoveTo(m) ==> b@ == BehaviorModel::MoveTo(m),
        b matches Behavior::Rotate(r) ==> b@ == BehaviorModel::Rotate(r),
        b matches Behavior::Fire(f) ==> b@ == BehaviorModel::Fire(f),
        b matches Behavior::Chase(c) ==> b@ == BehaviorModel::Chase(c),
        b is Dodge ==> b@ == BehaviorModel::Dodge,
        b matches Behavior::Sequence(s) ==> b@ == BehaviorModel::Sequence(s@),
        b matches Behavior::FireAt(f) ==> b@ == BehaviorModel::FireAt(f@),
{
    match b {
        Behavior::Sequence(s) => {
            assert(model_of(b)->Sequence_0 =~= s@);
        },
        Behavior::FireAt(f) => {
            assert(model_of(b)->FireAt_0.next =~= f.next@);
        },
        _ => {},
    }
}

/// The first of two commands that is given.
pub open spec fn or_else(a: Option<GameCommand>, b: Option<GameCommand>) -> Option<GameCommand> {
    if a is Some {
        a
    } else {
        b
    }
}

/// The command of `Noop` in the world `w`: a turn to the heading that the
/// ship has. A ship that is not in the world is given no command.
pub open spec fn noop_command(w: AnalyzerView) -> Option<GameCommand> {
    match w.own() {
        Some(me) => Some(GameCommand::Rotate(me.angle)),
        None => None,
    }
}

/// The command of `Throttle` in the world `w`: the throttle `value`, unless
/// the ship's throttle is within `THROTTLE_MARGIN` of it.
pub open spec fn throttle_command(value: u32, w: AnalyzerView) -> Option<GameCommand> {
    match w.own() {
        Some(me) => if me.throttle + THROTTLE_MARGIN < value || value + THROTTLE_MARGIN
            < me.throttle {
            Some(GameCommand::Throttle(value))
        } else {
            None
        },
        None => None,
    }
}

/// The command of `Rotate` in the world `w`: a turn to `angle`, unless the
/// ship faces it already within the angle whose scaled cosine is `min_cos`.
pub open spec fn rotate_command(angle: Heading, min_cos: i32, w: AnalyzerView) -> Option<
    GameCommand,
> {
    match w.own() {
        Some(me) => if me.angle.dot_spec(angle) < min_cos * HEADING_ONE {
            Some(GameCommand::Rotate(angle))
        } else {
            None
        },
        None => None,
    }
}

/// The command that takes a ship along `angle`: first a turn to it, then
/// full throttle, then a command without effect.
pub open spec fn drive_command(angle: Heading, min_cos: i32, w: AnalyzerView) -> Option<
    GameCommand,
> {
    or_else(
        rotate_command(angle, min_cos, w),
        or_else(throttle_command(PLAYER_MAX_THROTTLE, w), noop_command(w)),
    )
}

/// What `MoveTo` does in a tick: within `ARRIVAL_DISTANCE` of the
/// destination it brakes once, if it is to, and is done; further off it
/// drives toward the destination.
pub open spec fn move_to_step(m: MoveTo, w: AnalyzerView) -> (MoveTo, Option<GameCommand>) {
    match w.own() {
        Some(me) => if me.position.dist2(m.destination) < ARRIVAL_DISTANCE * ARRIVAL_DISTANCE {
            if m.end_with_brake {
                (MoveTo { end_with_brake: false, ..m }, Some(GameCommand::Throttle(0)))
            } else {
                (m, None)
            }
        } else {
            (m, drive_command(me.position.bearing(m.destination), COS_5_DEGREES, w))
        },
        None => (m, None),
    }
}

/// The command of `Chase` in the world `w`: a drive toward the target
/// while it is further than `distance`, none once it is within, and none
/// where there is no target.
pub open spec fn chase_command(c: Chase, w: AnalyzerView) -> Option<GameCommand> {
    match (c.target.resolve(w), w.own()) {
        (Some(prey), Some(me)) => if me.position.dist2(prey.position) > c.distance * c.distance {
            drive_command(me.position.bearing(prey.position), COS_10_DEGREES, w)
        } else {
            None
        },
        _ => None,
    }
}

/// The command of `Dodge` in the world `w`: where a bullet is about to hit,
/// a turn a quarter to the left of the flight of the first such bullet, then
/// full throttle; none where no bullet is about to hit.
pub open spec fn dodge_command(w: AnalyzerView) -> Option<GameCommand> {
    let threats = w.colliding(DODGE_HORIZON);
    if threats.len() > 0 {
        or_else(
            rotate_command(threats[0].velocity.sidestep(), COS_30_DEGREES, w),
            throttle_command(PLAYER_MAX_THROTTLE, w),
        )
    } else {
        None
    }
}

/// What `FireAt` does in a tick, given what the rest of its last volley
/// does. While that gives a command, that is the command. Else, if a volley
/// is left and the target is there, it aims anew: it turns to the target
/// unless it faces it within five degrees, and then fires.
pub open spec fn volley(f: FireAtModel, pending: Outcomes, w: AnalyzerView) -> Volley {
    if pending.command is Some {
        Volley { next: FireAtModel { next: pending.next, ..f }, command: pending.command }
    } else {
        match (f.target.resolve(w), w.own()) {
            (Some(prey), Some(me)) => if f.times > 0 {
                let aim = Rotate { angle: me.position.bearing(prey.position), min_cos: COS_5_DEGREES };
                match rotate_command(aim.angle, aim.min_cos, w) {
                    Some(turn) => Volley {
                        next: FireAtModel {
                            times: (f.times - 1) as u32,
                            next: seq![
                                BehaviorModel::Rotate(aim),
                                BehaviorModel::Fire(Fire { times: 1 }),
                            ],
                            ..f
                        },
                        command: Some(turn),
                    },
                    None => Volley {
                        next: FireAtModel {
                            times: (f.times - 1) as u32,
                            next: seq![BehaviorModel::Fire(Fire { times: 0 })],
                            ..f
                        },
                        command: Some(GameCommand::Fire),
                    },
                }
            } else {
                Volley { next: FireAtModel { next: pending.next, ..f }, command: None }
            },
            _ => Volley { next: FireAtModel { next: pending.next, ..f }, command: None },
        }
    }
}

/// What the behaviour `b` does in a tick in the world `w`.
pub open spec fn step(b: BehaviorModel, w: AnalyzerView) -> Outcome
    decreases b, 0nat,
{
    match b {
        BehaviorModel::Noop => Outcome { next: b, command: noop_command(w) },
        BehaviorModel::Throttle(t) => Outcome { next: b, command: throttle_command(t.value, w) },
        BehaviorModel::Forward(f) => if f.steps > 0 {
            Outcome {
                next: BehaviorModel::Forward(Forward { steps: (f.steps - 1) as u32 }),
                command: Some(GameCommand::Throttle(PLAYER_MAX_THROTTLE)),
            }
        } else {
            Outcome { next: b, command: None }
        },
        BehaviorModel::MoveTo(m) => Outcome {
            next: BehaviorModel::MoveTo(move_to_step(m, w).0),
            command: move_to_step(m, w).1,
        },
        BehaviorModel::Rotate(r) => Outcome {
            next: b,
            command: rotate_command(r.angle, r.min_cos, w),
        },
        BehaviorModel::Fire(f) => if f.times > 0 {
            Outcome {
                next: BehaviorModel::Fire(Fire { times: (f.times - 1) as u32 }),
                command: Some(GameCommand::Fire),
            }
        } else {
            Outcome { next: b, command: None }
        },
        BehaviorModel::FireAt(f) => {
            let v = volley(f, step_all(f.next, w), w);
            Outcome { next: BehaviorModel::FireAt(v.next), command: v.command }
        },
        BehaviorModel::Chase(c) => Outcome { next: b, command: chase_command(c, w) },
        BehaviorModel::Dodge => Outcome { next: b, command: dodge_command(w) },
        BehaviorModel::Sequence(row) => {
            let r = step_all(row, w);
            Outcome { next: BehaviorModel::Sequence(r.next), command: r.command }
        },
    }
}

/// What a row of behaviours does in a tick in the world `w`: the first
/// behaviour that gives a command gives the row's command and stays at the
/// front; those before it had nothing left to do and are dropped. A row that
/// runs empty gives no command.
pub open spec fn step_all(row: Seq<BehaviorModel>, w: AnalyzerView) -> Outcomes
    decreases row, 1nat,
{
    if row.len() == 0 {
        Outcomes { next: row, command: None }
    } else {
        let first = step(row[0], w);
        if first.command is Some {
            Outcomes { next: row.update(0, first.next), command: first.command }
        } else {
            step_all(row.subrange(1, row.len() as int), w)
        }
    }
}

impl Noop {
    /// A turn to the heading that the ship has.
    pub fn next_command(&mut self, analyzer: &Analyzer) -> (r: Option<GameCommand>)
        ensures
            r == noop_command(analyzer@),
    {
        match analyzer.own_player() {
            Some(me) => Some(GameCommand::Rotate(me.angle)),
            None => None,
        }
    }
}

impl Throttle {
    /// The behaviour that brings the ship to rest.
    pub fn stop() -> (t: Throttle)
        ensures
            t.value == 0,
    {
        Throttle { value: 0 }
    }

    /// The behaviour that brings the ship to full throttle.
    pub fn max() -> (t: Throttle)
        ensures
            t.value == PLAYER_MAX_THROTTLE,
    {
        Throttle { value: PLAYER_MAX_THROTTLE }
    }

    /// The throttle `value`, unless the ship's throttle is within
    /// `THROTTLE_MARGIN` of it.
    pub fn next_command(&mut self, analyzer: &Analyzer) -> (r: Option<GameCommand>)
        ensures
            *final(self) == *old(self),
            r == throttle_command(old(self).value, analyzer@),
    {
        match analyzer.own_player() {
            Some(me) => {
                let have: u64 = me.throttle as u64;
                let want: u64 = self.value as u64;
                if have + (THROTTLE_MARGIN as u64) < want || want + (THROTTLE_MARGIN as u64)
                    < have {
                    Some(GameCommand::Throttle(self.value))
                } else {
                    None
                }
            },
            None => None,
        }
    }
}

impl Forward {
    /// The behaviour that goes at full throttle for `steps` ticks.
    pub fn with_steps(steps: u32) -> (f: Forward)
        ensures
            f.steps == steps,
    {
        Forward { steps }
    }

    /// Full throttle, while a step is left.
    pub fn next_command(&mut self, analyzer: &Analyzer) -> (r: Option<GameCommand>)
        ensures
            step(BehaviorModel::Forward(*old(self)), analyzer@) == (Outcome {
                next: BehaviorModel::Forward(*final(self)),
                command: r,
            }),
    {
        if self.steps > 0 {
            self.steps -= 1;
            Some(GameCommand::Throttle(PLAYER_MAX_THROTTLE))
        } else {
            None
        }
    }
}

impl Rotate {
    /// The behaviour that turns to `angle` within a tenth of a degree.
    pub fn new(angle: Heading) -> (r: Rotate)
        ensures
            r == (Rotate { angle, min_cos: COS_TENTH_DEGREE }),
    {
        Rotate { angle, min_cos: COS_TENTH_DEGREE }
    }

    /// The behaviour that turns to `angle` within the angle whose scaled
    /// cosine is `min_cos`.
    pub fn with_margin(angle: Heading, min_cos: i32) -> (r: Rotate)
        ensures
            r == (Rotate { angle, min_cos }),
    {
        Rotate { angle, min_cos }
    }

    /// A turn to `angle`, unless the ship faces it already.
    pub fn next_command(&mut self, analyzer: &Analyzer) -> (r: Option<GameCommand>)
        ensures
            *final(self) == *old(self),
            r == rotate_command(old(self).angle, old(self).min_cos, analyzer@),
    {
        match analyzer.own_player() {
            Some(me) => {
                if me.angle.within(&self.angle, self.min_cos) {
                    None
                } else {
                    Some(GameCommand::Rotate(self.angle))
                }
            },
            None => None,
        }
    }
}

impl Fire {
    /// The behaviour that fires once.
    pub fn new() -> (f: Fire)
        ensures
            f.times == 1,
    {
        Fire::with_times(1)
    }

    /// The behaviour that fires once.
    pub fn once() -> (f: Fire)
        ensures
            f.times == 1,
    {
        Fire { times: 1 }
    }

    /// The behaviour that fires `times` times.
    pub fn with_times(times: u32) -> (f: Fire)
        ensures
            f.times == times,
    {
        Fire { times }
    }

    /// A shot, while one is left.
    pub fn next_command(&mut self, analyzer: &Analyzer) -> (r: Option<GameCommand>)
        ensures
            step(BehaviorModel::Fire(*old(self)), analyzer@) == (Outcome {
                next: BehaviorModel::Fire(*final(self)),
                command: r,
            }),
    {
        if self.times > 0 {
            self.times -= 1;
            Some(GameCommand::Fire)
        } else {
            None
        }
    }
}

/// The command that takes a ship along `angle`.
fn drive(analyzer: &Analyzer, angle: Heading, min_cos: i32) -> (r: Option<GameCommand>)
    ensures
        r == drive_command(angle, min_cos, analyzer@),
{
    let mut turn = Rotate::with_margin(angle, min_cos);
    if let Some(command) = turn.next_command(analyzer) {
        return Some(command);
    }
    let mut go = Throttle::max();
    if let Some(command) = go.next_command(analyzer) {
        return Some(command);
    }
    let mut rest = Noop {  };
    rest.next_command(analyzer)
}

/// The square of a length.
fn square(length: u32) -> (r: u128)
    ensures
        r == length * length,
{
    let wide: u128 = length as u128;
    assert(wide * wide <= 0xffff_ffff * 0xffff_ffff) by (nonlinear_arith)
        requires
            0 <= wide <= 0xffff_ffff,
    ;
    wide * wide
}

impl MoveTo {
    /// A drive toward the destination; within `ARRIVAL_DISTANCE` of it, a
    /// stop if the ship is to stop, and then nothing.
    pub fn next_command(&mut self, analyzer: &Analyzer) -> (r: Option<GameCommand>)
        ensures
            (*final(self), r) == move_to_step(*old(self), analyzer@),
    {
        let me = match analyzer.own_player() {
            Some(me) => me,
            None => {
                return None;
            },
        };
        if me.position.distance_squared(&self.destination) < square(ARRIVAL_DISTANCE) {
            if self.end_with_brake {
                self.end_with_brake = false;
                Some(GameCommand::Throttle(0))
            } else {
                None
            }
        } else {
            drive(analyzer, me.position.angle_to(&self.destination), COS_5_DEGREES)
        }
    }
}

impl Chase {
    /// A drive toward the target, while it is further than `distance`.
    pub fn next_command(&mut self, analyzer: &Analyzer) -> (r: Option<GameCommand>)
        ensures
            *final(self) == *old(self),
            r == chase_command(*old(self), analyzer@),
    {
        let prey = match self.target.get(analyzer) {
            Some(prey) => prey,
            None => {
                return None;
            },
        };
        let me = match analyzer.own_player() {
            Some(me) => me,
            None => {
                return None;
            },
        };
        if me.position.distance_squared(&prey.position) > square(self.distance) {
            drive(analyzer, me.position.angle_to(&prey.position), COS_10_DEGREES)
        } else {
            None
        }
    }
}

impl Dodge {
    /// A step aside from the first bullet that is about to hit.
    pub fn next_command(&mut self, analyzer: &Analyzer) -> (r: Option<GameCommand>)
        ensures
            r == dodge_command(analyzer@),
    {
        let threats = analyzer.bullets_colliding(DODGE_HORIZON);
        if threats.len() > 0 {
            let bullet: &Bullet = threats[0];
            proof {
                assert(bullets_of(threats@)[0] == *bullet);
            }
            let mut turn = Rotate::with_margin(bullet.velocity.tangent(), COS_30_DEGREES);
            if let Some(command) = turn.next_command(analyzer) {
                return Some(command);
            }
            let mut go = Throttle::max();
            go.next_command(analyzer)
        } else {
            None
        }
    }
}

impl Sequence {
    /// The empty row.
    pub fn new() -> (s: Sequence)
        ensures
            s@ == Seq::<BehaviorModel>::empty(),
    {
        let s = Sequence { inner: VecDeque::new() };
        proof {
            assert(s@ =~= Seq::empty());
        }
        s
    }

    /// The row of the behaviours of `behaviors`, in their order.
    pub fn with_slice(behaviors: Vec<Behavior>) -> (s: Sequence)
        ensures
            s@ == models_of(behaviors@),
    {
        let ghost all = behaviors@;
        let mut behaviors = behaviors;
        let mut inner: VecDeque<Behavior> = VecDeque::new();
        while behaviors.len() > 0
            invariant
                behaviors@.len() <= all.len(),
                behaviors@ == all.take(behaviors@.len() as int),
                inner@ == all.skip(behaviors@.len() as int),
            decreases behaviors@.len(),
        {
            let ghost n = behaviors@.len();
            let last = behaviors.pop().unwrap();
            inner.push_front(last);
            proof {
                assert(behaviors@ =~= all.take(n - 1));
                assert(inner@ =~= all.skip(n - 1));
            }
        }
        let s = Sequence { inner };
        proof {
            assert(all.skip(0) =~= all);
        }
        s
    }

    /// A row of its own with the same behaviours, each as it is now.
    pub fn duplicate(&self) -> (s: Sequence)
        ensures
            s@ == self@,
        decreases *self, 1nat,
    {
        let mut copy: VecDeque<Behavior> = VecDeque::new();
        let mut i: usize = 0;
        while i < self.inner.len()
            invariant
                i <= self.inner@.len(),
                copy@.len() == i,
                forall|j: int| 0 <= j < i ==> (#[trigger] copy@[j])@ == self.inner@[j]@,
            decreases self.inner@.len() - i,
        {
            copy.push_back(self.inner[i].duplicate());
            i += 1;
        }
        let s = Sequence { inner: copy };
        proof {
            assert(s@ =~= self@);
        }
        s
    }

    /// How many behaviours are left in the row.
    pub fn len(&self) -> (n: usize)
        ensures
            n == self@.len(),
    {
        self.inner.len()
    }

    /// The command of the first behaviour of the row that gives one. The
    /// behaviours before it had nothing left to do: they are dropped.
    pub fn next_command(&mut self, analyzer: &Analyzer) -> (r: Option<GameCommand>)
        ensures
            step_all(old(self)@, analyzer@) == (Outcomes { next: final(self)@, command: r }),
        decreases *old(self), 1nat,
    {
        proof {
            assert(self.inner@ =~= old(self).inner@.subrange(0, old(self).inner@.len() as int));
        }
        while self.inner.len() > 0
            invariant
                step_all(old(self)@, analyzer@) == step_all(self@, analyzer@),
                exists|k: int|
                    0 <= k <= old(self).inner@.len() && self.inner@ == #[trigger] old(
                        self,
                    ).inner@.subrange(k, old(self).inner@.len() as int),
            decreases self.inner@.len(),
        {
            let ghost before = self.inner@;
            let mut front = self.inner.pop_front().unwrap();
            proof {
                assert(self@ =~= models_of(before).subrange(1, before.len() as int));
                let k = choose|k: int|
                    0 <= k <= old(self).inner@.len() && before == #[trigger] old(
                        self,
                    ).inner@.subrange(k, old(self).inner@.len() as int);
                assert(front == old(self).inner@[k]);
                assert(self.inner@ =~= old(self).inner@.subrange(
                    k + 1,
                    old(self).inner@.len() as int,
                ));
            }
            let command = front.next_command(analyzer);
            if command.is_some() {
                self.inner.push_front(front);
                proof {
                    assert(self@ =~= models_of(before).update(0, front@));
                }
                return command;
            }
        }
        proof {
            assert(self@ =~= Seq::empty());
        }
        None
    }
}

impl FireAt {
    /// The behaviour that turns to the target and fires once.
    pub fn new(target: Target) -> (f: FireAt)
        ensures
            f@ == (FireAtModel { target, times: 1, next: Seq::empty() }),
    {
        FireAt::with_times(target, 1)
    }

    /// The behaviour that turns to the target and fires, `times` times over.
    pub fn with_times(target: Target, times: u32) -> (f: FireAt)
        ensures
            f@ == (FireAtModel { target, times, next: Seq::empty() }),
    {
        FireAt { target, times, next: Sequence::new() }
    }

    /// A behaviour of its own that is as this one is now.
    pub fn duplicate(&self) -> (f: FireAt)
        ensures
            f@ == self@,
        decreases *self, 2nat,
    {
        FireAt { target: self.target, times: self.times, next: self.next.duplicate() }
    }

    /// The next command of the volley under way; once that is over, the
    /// first command of the next volley, aimed at where the target is now.
    pub fn next_command(&mut self, analyzer: &Analyzer) -> (r: Option<GameCommand>)
        ensures
            volley(old(self)@, step_all(old(self)@.next, analyzer@), analyzer@) == (Volley {
                next: final(self)@,
                command: r,
            }),
        decreases *old(self), 2nat,
    {
        if let Some(command) = self.next.next_command(analyzer) {
            return Some(command);
        }
        if self.times == 0 {
            return None;
        }
        let prey = match self.target.get(analyzer) {
            Some(prey) => prey,
            None => {
                return None;
            },
        };
        let me = match analyzer.own_player() {
            Some(me) => me,
            None => {
                return None;
            },
        };
        self.times -= 1;
        let mut aim = Rotate::with_margin(me.position.angle_to(&prey.position), COS_5_DEGREES);
        match aim.next_command(analyzer) {
            Some(turn) => {
                self.next = Sequence::with_slice(
                    vec![Behavior::Rotate(aim), Behavior::Fire(Fire::new())],
                );
                proof {
                    assert(self.next@ =~= seq![
                        BehaviorModel::Rotate(aim),
                        BehaviorModel::Fire(Fire { times: 1 }),
                    ]);
                }
                Some(turn)
            },
            None => {
                self.next = Sequence::with_slice(vec![Behavior::Fire(Fire::with_times(0))]);
                proof {
                    assert(self.next@ =~= seq![BehaviorModel::Fire(Fire { times: 0 })]);
                }
                Some(GameCommand::Fire)
            },
        }
    }
}

impl Default for Behavior {
    fn default() -> (b: Behavior)
        ensures
            b@ == BehaviorModel::Noop,
    {
        Behavior::Noop(Noop {  })
    }
}

impl Behavior {
    /// A behaviour of its own that is as this one is now.
    pub fn duplicate(&self) -> (b: Behavior)
        ensures
            b@ == self@,
        decreases *self, 0nat,
    {
        let b = match self {
            Behavior::Noop(x) => Behavior::Noop(*x),
            Behavior::Throttle(x) => Behavior::Throttle(*x),
            Behavior::Forward(x) => Behavior::Forward(*x),
            Behavior::MoveTo(x) => Behavior::MoveTo(*x),
            Behavior::Rotate(x) => Behavior::Rotate(*x),
            Behavior::Fire(x) => Behavior::Fire(*x),
            Behavior::FireAt(x) => Behavior::FireAt(x.duplicate()),
            Behavior::Chase(x) => Behavior::Chase(*x),
            Behavior::Dodge(x) => Behavior::Dodge(*x),
            Behavior::Sequence(x) => Behavior::Sequence(x.duplicate()),
        };
        proof {
            lemma_model(*self);
            lemma_model(b);
        }
        b
    }

    /// The next command of the behaviour; none when it has nothing left to
    /// do in this tick.
    pub fn next_command(&mut self, analyzer: &Analyzer) -> (r: Option<GameCommand>)
        ensures
            step(old(self)@, analyzer@) == (Outcome { next: final(self)@, command: r }),
        decreases *old(self), 0nat,
    {
        proof {
            lemma_model(*self);
        }
        let r = match self {
            Behavior::Noop(b) => b.next_command(analyzer),
            Behavior::Throttle(b) => b.next_command(analyzer),
            Behavior::Forward(b) => b.next_command(analyzer),
            Behavior::MoveTo(b) => b.next_command(analyzer),
            Behavior::Rotate(b) => b.next_command(analyzer),
            Behavior::Fire(b) => b.next_command(analyzer),
            Behavior::FireAt(b) => b.next_command(analyzer),
            Behavior::Chase(b) => b.next_command(analyzer),
            Behavior::Dodge(b) => b.next_command(analyzer),
            Behavior::Sequence(b) => b.next_command(analyzer),
        };
        proof {
            lemma_model(*self);
        }
        r
    }
}

} // verus!
