//! What holds of the questions a client asks of its world, and of the
//! behaviours that are built on them.

use crate::analyzer::AnalyzerView;
use crate::behavior::{
    rotate_command, step, step_all, volley, BehaviorModel, Fire, FireAtModel, Target, Volley,
};
use crate::models::GameCommand;
use crate::picking::{lemma_first_least, lemma_picked_none};
use vstd::prelude::*;

verus! {

/// Where the only ship that the client knows is its own, no question finds
/// another ship: there is no closest, no least moving and no highest
/// scoring ship, and no ship is near.
pub proof fn lemma_alone_finds_no_one(w: AnalyzerView, radius: u32, after: u64)
    requires
        forall|i: int|
            0 <= i < w.players.len() ==> (#[trigger] w.players[i]).id == w.own_player_id,
    ensures
        w.closest() is None,
        w.least_moving() is None,
        w.highest_score() is None,
        w.highest_score_after(after) is None,
        w.others() == Seq::<crate::analyzer::player::PlayerView>::empty(),
        w.within(radius) == Seq::<crate::analyzer::player::PlayerView>::empty(),
{
    let marks = w.is_other();
    assert forall|i: int| 0 <= i < marks.len() implies !#[trigger] marks[i] by {
        assert(w.players[i].id == w.own_player_id);
    }
    lemma_first_least(w.restlessness(), marks);
    lemma_first_least(w.shortfalls(), marks);
    lemma_first_least(w.shortfalls_after(after), marks);
    lemma_picked_none(w.players, marks);
    match w.own() {
        Some(me) => {
            lemma_first_least(w.distances(me.position), marks);
            let near = w.is_near(me.position, radius);
            assert forall|i: int| 0 <= i < near.len() implies !#[trigger] near[i] by {
                assert(w.players[i].id == w.own_player_id);
            }
            lemma_picked_none(w.players, near);
        },
        None => {},
    }
}

/// A row of behaviours gives no command only when it has run empty.
pub proof fn lemma_row_is_done_when_empty(row: Seq<BehaviorModel>, w: AnalyzerView)
    ensures
        step_all(row, w).command is None ==> step_all(row, w).next.len() == 0,
        step_all(row, w).next.len() <= row.len(),
    decreases row.len(),
{
    if row.len() > 0 && step(row[0], w).command is None {
        lemma_row_is_done_when_empty(row.subrange(1, row.len() as int), w);
    }
}

/// Whether `next` is what `FireAt` keeps of a volley: nothing, a turn with a
/// shot to follow, or a shot that is about to be fired or was.
pub open spec fn in_volley(next: Seq<BehaviorModel>) -> bool {
    ||| next.len() == 0
    ||| next.len() == 2 && next[0] is Rotate && next[1] == BehaviorModel::Fire(Fire { times: 1 })
    ||| next.len() == 1 && next[0] is Fire && next[0]->Fire_0.times <= 1
}

/// The shots that the rest of a volley will fire.
pub open spec fn pending_shots(next: Seq<BehaviorModel>) -> nat {
    if next.len() == 2 {
        1
    } else if next.len() == 1 && next[0] is Fire {
        next[0]->Fire_0.times as nat
    } else {
        0
    }
}

/// The shots that `FireAt` has yet to fire.
pub open spec fn shots_left(f: FireAtModel) -> nat {
    f.times as nat + pending_shots(f.next)
}

/// One for a shot, nothing for any other command or none.
pub open spec fn shot(command: Option<GameCommand>) -> nat {
    if command == Some(GameCommand::Fire) {
        1
    } else {
        0
    }
}

/// The shots among `commands`.
pub open spec fn shots(commands: Seq<Option<GameCommand>>) -> nat
    decreases commands.len(),
{
    if commands.len() == 0 {
        0
    } else {
        shots(commands.drop_last()) + shot(commands.last())
    }
}

/// What `FireAt` does in a tick in the world `w`.
pub open spec fn fire_at_step(f: FireAtModel, w: AnalyzerView) -> Volley {
    volley(f, step_all(f.next, w), w)
}

/// `FireAt` as it starts out, with `times` volleys to fire.
pub open spec fn fire_at(target: Target, times: u32) -> FireAtModel {
    FireAtModel { target, times, next: Seq::empty() }
}

/// Whether `FireAt` finds what it needs in the world `w`: its own ship and
/// its target.
pub open spec fn can_aim(target: Target, w: AnalyzerView) -> bool {
    target.resolve(w) is Some && w.own() is Some
}

/// What `FireAt` is after it went through the worlds `worlds`, one tick in
/// each, and the commands that it gave.
pub open spec fn run(f: FireAtModel, worlds: Seq<AnalyzerView>) -> (
    FireAtModel,
    Seq<Option<GameCommand>>,
)
    decreases worlds.len(),
{
    if worlds.len() == 0 {
        (f, Seq::empty())
    } else {
        let before = run(f, worlds.drop_last());
        let v = fire_at_step(before.0, worlds.last());
        (v.next, before.1.push(v.command))
    }
}

/// What the rest of a volley does in a tick: a turn stays while the ship has
/// to turn, and then the shot is fired.
proof fn lemma_volley_rest(next: Seq<BehaviorModel>, w: AnalyzerView)
    requires
        in_volley(next),
    ensures
        in_volley(step_all(next, w).next),
        pending_shots(step_all(next, w).next) + shot(step_all(next, w).command) == pending_shots(
            next,
        ),
        step_all(next, w).command is None || step_all(next, w).command == Some(GameCommand::Fire)
            || step_all(next, w).command matches Some(GameCommand::Rotate(_)),
        step_all(next, w).command is None ==> pending_shots(next) == 0 && step_all(
            next,
            w,
        ).next.len() == 0,
{
    if next.len() == 1 {
        let rest = next.subrange(1, 1);
        assert(step_all(rest, w).command is None && step_all(rest, w).next.len() == 0);
        assert(step(next[0], w).command is Some <==> next[0]->Fire_0.times == 1);
    } else if next.len() == 2 {
        let tail = next.subrange(1, 2);
        let rest = tail.subrange(1, 1);
        assert(step_all(rest, w).command is None);
        assert(tail[0] == BehaviorModel::Fire(Fire { times: 1 }));
        assert(step(tail[0], w).command == Some(GameCommand::Fire));
        assert(step_all(tail, w).command == Some(GameCommand::Fire));
        assert(step_all(tail, w).next =~= seq![BehaviorModel::Fire(Fire { times: 0 })]);
        let r = next[0]->Rotate_0;
        assert(step(next[0], w).command == rotate_command(r.angle, r.min_cos, w));
        if step(next[0], w).command is Some {
            assert(step_all(next, w).next =~= next);
        }
    }
}

/// In one tick `FireAt` gives a shot, a turn or nothing, and has one shot
/// less to fire exactly if it gave a shot. Where it finds its own ship and
/// its target and gives nothing, it has no shot left.
pub proof fn lemma_fire_at_step(f: FireAtModel, w: AnalyzerView)
    requires
        in_volley(f.next),
    ensures
        in_volley(fire_at_step(f, w).next.next),
        fire_at_step(f, w).next.target == f.target,
        shots_left(fire_at_step(f, w).next) + shot(fire_at_step(f, w).command) == shots_left(f),
        fire_at_step(f, w).command is None || fire_at_step(f, w).command == Some(
            GameCommand::Fire,
        ) || fire_at_step(f, w).command matches Some(GameCommand::Rotate(_)),
        fire_at_step(f, w).command is None && can_aim(f.target, w) ==> shots_left(f) == 0,
{
    lemma_volley_rest(f.next, w);
}

/// The commands of a run up to a tick are the commands of the run that ends
/// with that tick.
proof fn lemma_run_prefix(f: FireAtModel, worlds: Seq<AnalyzerView>, n: int)
    requires
        0 <= n <= worlds.len(),
    ensures
        run(f, worlds).1.len() == worlds.len(),
        run(f, worlds.take(n)).1 == run(f, worlds).1.take(n),
    decreases worlds.len(),
{
    if worlds.len() == 0 {
        assert(worlds.take(n) =~= worlds);
        assert(run(f, worlds).1.take(n) =~= run(f, worlds).1);
    } else if n == worlds.len() {
        lemma_run_prefix(f, worlds.drop_last(), n - 1);
        assert(worlds.take(n) =~= worlds);
        assert(run(f, worlds).1.take(n) =~= run(f, worlds).1);
    } else {
        lemma_run_prefix(f, worlds.drop_last(), n);
        assert(worlds.drop_last().take(n) =~= worlds.take(n));
        assert(run(f, worlds).1.take(n) =~= run(f, worlds.drop_last()).1.take(n));
    }
}

/// Through any run `FireAt` stays within its volleys, and the shots it gave
/// and the shots it has left make up the shots it set out with.
pub proof fn lemma_run_keeps_count(f: FireAtModel, worlds: Seq<AnalyzerView>)
    requires
        in_volley(f.next),
    ensures
        in_volley(run(f, worlds).0.next),
        run(f, worlds).0.target == f.target,
        run(f, worlds).1.len() == worlds.len(),
        shots(run(f, worlds).1) + shots_left(run(f, worlds).0) == shots_left(f),
    decreases worlds.len(),
{
    if worlds.len() > 0 {
        lemma_run_keeps_count(f, worlds.drop_last());
        let before = run(f, worlds.drop_last());
        lemma_fire_at_step(before.0, worlds.last());
        assert(run(f, worlds).1.drop_last() =~= before.1);
    }
}

/// `FireAt` with `times` volleys gives exactly `times` shots, with the turns
/// that it takes to aim in between, over however many ticks it takes, as
/// long as it finds its own ship and its target in every tick: it never
/// gives more than `times` shots, every command it gives is a shot or a
/// turn, and by the first tick in which it gives nothing it has given all
/// `times` shots.
pub proof fn lemma_fire_at_fires_exactly(
    target: Target,
    times: u32,
    worlds: Seq<AnalyzerView>,
    tick: int,
)
    requires
        0 <= tick < worlds.len(),
        forall|i: int| 0 <= i < worlds.len() ==> can_aim(target, #[trigger] worlds[i]),
    ensures
        run(fire_at(target, times), worlds).1.len() == worlds.len(),
        shots(run(fire_at(target, times), worlds).1) <= times,
        shots(run(fire_at(target, times), worlds).1) + shots_left(
            run(fire_at(target, times), worlds).0,
        ) == times,
        run(fire_at(target, times), worlds).1[tick] is None || run(
            fire_at(target, times),
            worlds,
        ).1[tick] == Some(GameCommand::Fire) || run(fire_at(target, times), worlds).1[tick] matches Some(
            GameCommand::Rotate(_),
        ),
        run(fire_at(target, times), worlds).1[tick] is None ==> shots(
            run(fire_at(target, times), worlds).1.take(tick),
        ) == times,
{
    let f = fire_at(target, times);
    lemma_run_keeps_count(f, worlds);
    lemma_run_prefix(f, worlds, tick);
    lemma_run_prefix(f, worlds, tick + 1);
    let upto = worlds.take(tick);
    let with = worlds.take(tick + 1);
    lemma_run_keeps_count(f, upto);
    assert(with.drop_last() =~= upto);
    assert(with.last() == worlds[tick]);
    let before = run(f, upto);
    lemma_fire_at_step(before.0, worlds[tick]);
    assert(run(f, with).1.last() == fire_at_step(before.0, worlds[tick]).command);
    assert(run(f, worlds).1.take(tick + 1)[tick] == run(f, worlds).1[tick]);
}

} // verus!
