//! Conditions: what a ship can ask of its world before it takes up a
//! behaviour.

use crate::analyzer::{Analyzer, AnalyzerView};
use vstd::prelude::*;

verus! {

/// Holds always.
#[derive(Clone, Copy, Debug, PartialEq, Eq, Structural)]
pub struct Always;

/// Holds where both conditions hold. The second is asked only where the
/// first holds.
#[derive(Debug)]
pub struct And {
    pub lhs: Box<Condition>,
    pub rhs: Box<Condition>,
}

/// Holds where one of the conditions holds. The second is asked only where
/// the first does not hold.
#[derive(Debug)]
pub struct Or {
    pub lhs: Box<Condition>,
    pub rhs: Box<Condition>,
}

/// Holds where the condition does not.
#[derive(Debug)]
pub struct Not {
    pub inner: Box<Condition>,
}

/// Holds once the time `next` has come, and then not again before
/// `interval` milliseconds have passed.
#[derive(Clone, Copy, Debug, PartialEq, Eq, Structural)]
pub struct AtInterval {
    pub interval: u64,
    pub next: u64,
}

/// Holds where another ship is no further than `radius`.
#[derive(Clone, Copy, Debug, PartialEq, Eq, Structural)]
pub struct PlayerWithin {
    pub radius: u32,
}

/// Holds where another ship has a higher score than one's own.
#[derive(Clone, Copy, Debug, PartialEq, Eq, Structural)]
pub struct PlayerWithHigherScore;

/// Holds where a bullet of another ship is no further than `radius`.
#[derive(Clone, Copy, Debug, PartialEq, Eq, Structural)]
pub struct BulletWithin {
    pub radius: u32,
}

/// Any condition.
#[derive(Debug)]
pub enum Condition {
    Always(Always),
    And(And),
    Or(Or),
    Not(Not),
    AtInterval(AtInterval),
    PlayerWithin(PlayerWithin),
    PlayerWithHigherScore(PlayerWithHigherScore),
    BulletWithin(BulletWithin),
}

/// What asking a condition comes to: what the condition is afterwards, and
/// whether it holds.
pub struct Verdict {
    pub next: Condition,
    pub holds: bool,
}

/// The time at which `AtInterval` holds next, once it held at the time
/// `now`. Time stops at the largest that can be written down.
pub open spec fn next_after(now: u64, interval: u64) -> u64 {
    if now + interval > u64::MAX {
        u64::MAX
    } else {
        (now + interval) as u64
    }
}

/// What asking `AtInterval` comes to at the time `now`.
pub open spec fn timed(timer: AtInterval, now: u64) -> (AtInterval, bool) {
    if now >= timer.next {
        (AtInterval { next: next_after(now, timer.interval), ..timer }, true)
    } else {
        (timer, false)
    }
}

/// Whether another ship has a higher score than the client's own. It has
/// not where the client's own ship is not known.
pub open spec fn outscored(w: AnalyzerView) -> bool {
    match (w.own(), w.highest_score()) {
        (Some(me), Some(best)) => best.score() > me.score(),
        _ => false,
    }
}

/// What asking the condition `c` comes to in the world `w`, at the time of
/// its latest snapshot.
pub open spec fn judged(c: Condition, w: AnalyzerView) -> Verdict
    decreases c,
{
    match c {
        Condition::Always(_) => Verdict { next: c, holds: true },
        Condition::And(both) => {
            let first = judged(*both.lhs, w);
            if first.holds {
                let second = judged(*both.rhs, w);
                Verdict {
                    next: Condition::And(
                        And { lhs: Box::new(first.next), rhs: Box::new(second.next) },
                    ),
                    holds: second.holds,
                }
            } else {
                Verdict {
                    next: Condition::And(And { lhs: Box::new(first.next), rhs: both.rhs }),
                    holds: false,
                }
            }
        },
        Condition::Or(either) => {
            let first = judged(*either.lhs, w);
            if first.holds {
                Verdict {
                    next: Condition::Or(Or { lhs: Box::new(first.next), rhs: either.rhs }),
                    holds: true,
                }
            } else {
                let second = judged(*either.rhs, w);
                Verdict {
                    next: Condition::Or(
                        Or { lhs: Box::new(first.next), rhs: Box::new(second.next) },
                    ),
                    holds: second.holds,
                }
            }
        },
        Condition::Not(not) => {
            let inner = judged(*not.inner, w);
            Verdict {
                next: Condition::Not(Not { inner: Box::new(inner.next) }),
                holds: !inner.holds,
            }
        },
        Condition::AtInterval(timer) => Verdict {
            next: Condition::AtInterval(timed(timer, w.last_update).0),
            holds: timed(timer, w.last_update).1,
        },
        Condition::PlayerWithin(near) => Verdict {
            next: c,
            holds: w.within(near.radius).len() > 0,
        },
        Condition::PlayerWithHigherScore(_) => Verdict { next: c, holds: outscored(w) },
        Condition::BulletWithin(near) => Verdict {
            next: c,
            holds: w.bullets_near(near.radius).len() > 0,
        },
    }
}

impl AtInterval {
    /// The condition that holds from the time `now` on, once in every
    /// `interval` milliseconds.
    pub fn new(interval: u64, now: u64) -> (timer: AtInterval)
        ensures
            timer == (AtInterval { interval, next: now }),
    {
        AtInterval { interval, next: now }
    }

    /// Whether the time has come, at the time `now`.
    pub fn evaluate_at(&mut self, now: u64) -> (r: bool)
        ensures
            timed(*old(self), now) == (*final(self), r),
    {
        if now >= self.next {
            self.next = if now > u64::MAX - self.interval {
                u64::MAX
            } else {
                now + self.interval
            };
            true
        } else {
            false
        }
    }
}

impl Condition {
    /// The condition that holds where both `lhs` and `rhs` hold.
    pub fn and(lhs: Condition, rhs: Condition) -> (c: Condition)
        ensures
            c == Condition::And(And { lhs: Box::new(lhs), rhs: Box::new(rhs) }),
    {
        Condition::And(And { lhs: Box::new(lhs), rhs: Box::new(rhs) })
    }

    /// The condition that holds where `lhs` or `rhs` holds.
    pub fn or(lhs: Condition, rhs: Condition) -> (c: Condition)
        ensures
            c == Condition::Or(Or { lhs: Box::new(lhs), rhs: Box::new(rhs) }),
    {
        Condition::Or(Or { lhs: Box::new(lhs), rhs: Box::new(rhs) })
    }

    /// The condition that holds where `inner` does not.
    pub fn not(inner: Condition) -> (c: Condition)
        ensures
            c == Condition::Not(Not { inner: Box::new(inner) }),
    {
        Condition::Not(Not { inner: Box::new(inner) })
    }

    /// Whether the condition holds in the world of `analyzer`, at the time
    /// of its latest snapshot.
    pub fn evaluate(&mut self, analyzer: &Analyzer) -> (r: bool)
        ensures
            judged(*old(self), analyzer@) == (Verdict { next: *final(self), holds: r }),
        decreases *old(self),
    {
        match self {
            Condition::Always(_) => true,
            Condition::And(both) => {
                if both.lhs.evaluate(analyzer) {
                    both.rhs.evaluate(analyzer)
                } else {
                    false
                }
            },
            Condition::Or(either) => {
                if either.lhs.evaluate(analyzer) {
                    true
                } else {
                    either.rhs.evaluate(analyzer)
                }
            },
            Condition::Not(not) => {
                let holds = not.inner.evaluate(analyzer);
                !holds
            },
            Condition::AtInterval(timer) => timer.evaluate_at(analyzer.last_update()),
            Condition::PlayerWithin(near) => analyzer.players_within(near.radius).len() > 0,
            Condition::PlayerWithHigherScore(_) => {
                match (analyzer.own_player(), analyzer.player_highest_score()) {
                    (Some(me), Some(best)) => best.score() > me.score(),
                    _ => false,
                }
            },
            Condition::BulletWithin(near) => analyzer.bullets_within(near.radius).len() > 0,
        }
    }
}

/// Once `AtInterval` held, it does not hold again before its interval has
/// passed, as long as time can be written down.
pub proof fn lemma_interval_holds_once(timer: AtInterval, now: u64, later: u64)
    requires
        timed(timer, now).1,
        now <= later,
        later < now + timer.interval,
        now + timer.interval <= u64::MAX,
    ensures
        !timed(timed(timer, now).0, later).1,
{
}

} // verus!
