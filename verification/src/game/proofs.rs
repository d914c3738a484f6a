//! The rules keep the arena as it should be.

use crate::game::{ARENA_HEIGHT, ARENA_WIDTH, Deadline, MAX_CONCURRENT_BULLETS, SURVIVAL_TIMEOUT};
use crate::game::rules::{
    all_in_arena, bullet_key, dead_key, deadline_key, due, flown, GameView, graves, hits, in_arena,
    inside, is_among, is_target, owner_key, player_key, registered, registered_all, sailed, ship_ok,
    sound_strikes, stood_and_fell, strikes, target_from, target_ship, unspent, victims,
};
use crate::geom::Position;
use crate::models::{BulletState, PLAYER_RADIUS, PlayerState};
use crate::picking::{
    count_key, distinct_by, has_key, lemma_picked_count, lemma_picked_distinct, lemma_picked_from,
    picked, turned,
};
use vstd::prelude::*;

verus! {

/// Among ships with distinct ids, the ship at `j` has the id `id` only if
/// no other has it.
pub proof fn lemma_sole_key(players: Seq<PlayerState>, id: u32, j: int)
    requires
        distinct_by(players, player_key()),
        0 <= j < players.len(),
    ensures
        players[j].id == id ==> forall|k: int|
            0 <= k < players.len() && k != j ==> (#[trigger] players[k]).id != id,
{
    if players[j].id == id {
        assert forall|k: int| 0 <= k < players.len() && k != j implies (
        #[trigger] players[k]).id != id by {
            if k < j {
                assert(player_key()(players[k]) != player_key()(players[j]));
            } else {
                assert(player_key()(players[j]) != player_key()(players[k]));
            }
        }
    }
}

/// An arena stays as it should be where its ships keep their ids and their
/// places and stay inside, its deadlines stay distinct, and nothing else
/// changes.
pub proof fn lemma_same_ids_wf(before: GameView, after: GameView)
    requires
        before.wf(),
        after.players.len() == before.players.len(),
        forall|i: int|
            0 <= i < before.players.len() ==> (#[trigger] after.players[i]).id
                == before.players[i].id && ship_ok(after.players[i]),
        after.dead == before.dead,
        after.bullets == before.bullets,
        after.bounds == before.bounds,
        after.next_bullet_id == before.next_bullet_id,
        distinct_by(after.deadlines, deadline_key()),
    ensures
        after.wf(),
{
    assert forall|a: int, b: int| 0 <= a < b < after.players.len() implies player_key()(
        #[trigger] after.players[a],
    ) != player_key()(#[trigger] after.players[b]) by {
        assert(player_key()(before.players[a]) != player_key()(before.players[b]));
    }
    assert forall|i: int, j: int|
        0 <= i < after.players.len() && 0 <= j < after.dead.len() implies (
    #[trigger] after.players[i]).id != (#[trigger] after.dead[j]).player.id by {
        assert(before.players[i].id != before.dead[j].player.id);
    }
}

/// An arena stays as it should be when a ship that may fire does.
pub proof fn lemma_fired_wf(before: GameView, after: GameView, bullet: BulletState)
    requires
        before.wf(),
        before.next_bullet_id < u32::MAX,
        bullet.id == before.next_bullet_id,
        count_key(before.bullets, owner_key(), bullet.player_id) < MAX_CONCURRENT_BULLETS,
        after == (GameView {
            bullets: before.bullets.push(bullet),
            next_bullet_id: (before.next_bullet_id + 1) as u32,
            ..before
        }),
    ensures
        after.wf(),
{
    assert(after.bullets.drop_last() =~= before.bullets);
    assert forall|a: int, b: int| 0 <= a < b < after.bullets.len() implies bullet_key()(
        #[trigger] after.bullets[a],
    ) != bullet_key()(#[trigger] after.bullets[b]) by {
        if b < before.bullets.len() {
            assert(bullet_key()(before.bullets[a]) != bullet_key()(before.bullets[b]));
        } else {
            assert(before.bullets[a].id < before.next_bullet_id);
        }
    }
    assert forall|i: int| 0 <= i < after.bullets.len() implies (#[trigger] after.bullets[i]).id
        < after.next_bullet_id by {
        if i < before.bullets.len() {
            assert(before.bullets[i].id < before.next_bullet_id);
        }
    }
    assert forall|id: u32| #[trigger]
        count_key(after.bullets, owner_key(), id) <= MAX_CONCURRENT_BULLETS by {
        assert(count_key(before.bullets, owner_key(), id) <= MAX_CONCURRENT_BULLETS);
    }
}

/// A revival leaves the arena as it should be.
pub proof fn lemma_revived_wf(v: GameView, now: u64)
    requires
        v.wf(),
    ensures
        v.revived(now).wf(),
{
    let marks = due(v.dead, now);
    let back = picked(v.dead, marks);
    let wait = picked(v.dead, turned(marks));
    let after = v.revived(now);
    lemma_picked_distinct(v.dead, marks, dead_key());
    lemma_picked_distinct(v.dead, turned(marks), dead_key());
    assert forall|i: int| 0 <= i < after.players.len() implies ship_ok(
        #[trigger] after.players[i],
    ) by {
        if i >= v.players.len() {
            let k = lemma_picked_from(v.dead, marks, i - v.players.len());
            assert(ship_ok(v.dead[k].player));
        }
    }
    assert forall|i: int| 0 <= i < after.dead.len() implies ship_ok(
        (#[trigger] after.dead[i]).player,
    ) by {
        let k = lemma_picked_from(v.dead, turned(marks), i);
        assert(ship_ok(v.dead[k].player));
    }
    assert forall|a: int, b: int| 0 <= a < b < after.players.len() implies player_key()(
        #[trigger] after.players[a],
    ) != player_key()(#[trigger] after.players[b]) by {
        if b < v.players.len() {
            assert(player_key()(v.players[a]) != player_key()(v.players[b]));
        } else if a < v.players.len() {
            let k = lemma_picked_from(v.dead, marks, b - v.players.len());
            assert(v.players[a].id != v.dead[k].player.id);
        } else {
            assert(dead_key()(back[a - v.players.len()]) != dead_key()(
                back[b - v.players.len()],
            ));
        }
    }
    assert forall|i: int, j: int|
        0 <= i < after.players.len() && 0 <= j < after.dead.len() implies (
    #[trigger] after.players[i]).id != (#[trigger] after.dead[j]).player.id by {
        let m = lemma_picked_from(v.dead, turned(marks), j);
        if i < v.players.len() {
            assert(v.players[i].id != v.dead[m].player.id);
        } else {
            let k = lemma_picked_from(v.dead, marks, i - v.players.len());
            assert(marks[k] && !marks[m]);
            if k < m {
                assert(dead_key()(v.dead[k]) != dead_key()(v.dead[m]));
            } else {
                assert(dead_key()(v.dead[m]) != dead_key()(v.dead[k]));
            }
        }
    }
}

/// Bullets that keep their ids and their owners keep their number by owner.
pub proof fn lemma_count_same_owners(a: Seq<BulletState>, b: Seq<BulletState>, id: u32)
    requires
        a.len() == b.len(),
        forall|i: int| 0 <= i < a.len() ==> (#[trigger] a[i]).player_id == b[i].player_id,
    ensures
        count_key(a, owner_key(), id) == count_key(b, owner_key(), id),
    decreases a.len(),
{
    if a.len() > 0 {
        assert forall|i: int| 0 <= i < a.drop_last().len() implies (#[trigger] a.drop_last()[i]).player_id
            == b.drop_last()[i].player_id by {
            assert(a[i].player_id == b[i].player_id);
        }
        lemma_count_same_owners(a.drop_last(), b.drop_last(), id);
        assert(a[a.len() - 1].player_id == b[a.len() - 1].player_id);
    }
}

/// The flight of the bullets leaves the arena as it should be.
pub proof fn lemma_shot_on_wf(v: GameView, dt: u32)
    requires
        v.wf(),
    ensures
        v.shot_on(dt).wf(),
{
    let moved = Seq::new(v.bullets.len(), |i: int| flown(v.bullets[i], dt));
    let after = v.shot_on(dt);
    assert forall|a: int, b: int| 0 <= a < b < moved.len() implies bullet_key()(
        #[trigger] moved[a],
    ) != bullet_key()(#[trigger] moved[b]) by {
        assert(bullet_key()(v.bullets[a]) != bullet_key()(v.bullets[b]));
    }
    lemma_picked_distinct(moved, inside(moved), bullet_key());
    assert forall|i: int| 0 <= i < after.bullets.len() implies (#[trigger] after.bullets[i]).id
        < after.next_bullet_id by {
        let k = lemma_picked_from(moved, inside(moved), i);
        assert(v.bullets[k].id < v.next_bullet_id);
    }
    assert forall|id: u32| #[trigger]
        count_key(after.bullets, owner_key(), id) <= MAX_CONCURRENT_BULLETS by {
        lemma_picked_count(moved, inside(moved), owner_key(), id);
        lemma_count_same_owners(moved, v.bullets, id);
        assert(count_key(v.bullets, owner_key(), id) <= MAX_CONCURRENT_BULLETS);
    }
}

/// A ship that sailed keeps its id, its heading and its throttle, and lies a
/// ship's radius inside the arena.
pub proof fn lemma_sailed_inside(p: PlayerState, dt: u32)
    ensures
        sailed(p, dt).id == p.id,
        sailed(p, dt).angle == p.angle,
        sailed(p, dt).throttle == p.throttle,
        PLAYER_RADIUS <= sailed(p, dt).x <= ARENA_WIDTH - PLAYER_RADIUS,
        PLAYER_RADIUS <= sailed(p, dt).y <= ARENA_HEIGHT - PLAYER_RADIUS,
{
}

/// The sailing of the ships leaves the arena as it should be.
pub proof fn lemma_sailed_on_wf(v: GameView, dt: u32)
    requires
        v.wf(),
    ensures
        v.sailed_on(dt).wf(),
{
    let after = v.sailed_on(dt);
    assert forall|i: int| 0 <= i < v.players.len() implies (#[trigger] after.players[i]).id
        == v.players[i].id && ship_ok(after.players[i]) by {
        lemma_sailed_inside(v.players[i], dt);
        assert(ship_ok(v.players[i]));
    }
    lemma_same_ids_wf(v, after);
}

/// The target that is found is a ship that stands, that the bullet hits, and
/// before which, from `from` on, there is no other such ship; none is found
/// only where there is no such ship.
pub proof fn lemma_target_from(
    b: BulletState,
    players: Seq<PlayerState>,
    fallen: Seq<bool>,
    from: int,
)
    requires
        fallen.len() == players.len(),
        0 <= from <= players.len(),
    ensures
        target_from(b, players, fallen, from) matches Some(k) ==> from <= k < players.len()
            && !fallen[k] && hits(b, players[k]) && forall|j: int|
            from <= j < k ==> #[trigger] fallen[j] || !hits(b, players[j]),
        target_from(b, players, fallen, from) is None ==> forall|j: int|
            from <= j < players.len() ==> #[trigger] fallen[j] || !hits(b, players[j]),
    decreases players.len() - from,
{
    if from < players.len() && !(!fallen[from] && hits(b, players[from])) {
        lemma_target_from(b, players, fallen, from + 1);
    }
}

/// The strikes of bullets on ships are sound.
pub proof fn lemma_strikes(bullets: Seq<BulletState>, players: Seq<PlayerState>)
    ensures
        sound_strikes(bullets, players, strikes(bullets, players)),
    decreases bullets.len(),
{
    let s = strikes(bullets, players);
    if bullets.len() > 0 {
        let init = bullets.drop_last();
        let prev = strikes(init, players);
        lemma_strikes(init, players);
        lemma_target_from(bullets.last(), players, prev.fallen, 0);
        let last = bullets.len() - 1;
        assert forall|i: int| 0 <= i < bullets.len() implies (#[trigger] s.targets[i] matches Some(
            k,
        ) ==> 0 <= k < players.len() && s.fallen[k] && hits(bullets[i], players[k])) by {
            if i < last {
                assert(s.targets[i] == prev.targets[i]);
                assert(bullets[i] == init[i]);
            }
        }
        assert forall|i: int, j: int|
            0 <= i < j < bullets.len() && s.targets[i] is Some implies #[trigger] s.targets[i]
            != #[trigger] s.targets[j] by {
            assert(s.targets[i] == prev.targets[i]);
            if j < last {
                assert(s.targets[j] == prev.targets[j]);
            }
        }
        assert forall|k: int| 0 <= k < players.len() && #[trigger] s.fallen[k] implies exists|
            i: int,
        |
            0 <= i < bullets.len() && #[trigger] s.targets[i] == Some(k) by {
            if prev.fallen[k] {
                let i = choose|i: int| 0 <= i < init.len() && #[trigger] prev.targets[i] == Some(k);
                assert(s.targets[i] == Some(k));
            } else {
                assert(s.targets[last] == Some(k));
            }
        }
    }
}

/// Every ship that fell is the target of a bullet.
pub proof fn lemma_victims_are_targets(targets: Seq<Option<int>>, players: Seq<PlayerState>, j: int)
    requires
        0 <= j < victims(targets, players).len(),
    ensures
        is_target(targets, players, victims(targets, players)[j]),
        victims(targets, players).len() <= targets.len(),
    decreases targets.len(),
{
    let fell = victims(targets, players);
    let init = targets.drop_last();
    let prev = victims(init, players);
    let last = targets.len() - 1;
    if j < prev.len() {
        lemma_victims_are_targets(init, players, j);
        let i = choose|i: int|
            0 <= i < init.len() && #[trigger] target_ship(init, players, i) == Some(prev[j]);
        assert(init[i] == targets[i]);
        assert(target_ship(targets, players, i) == Some(fell[j]));
    } else {
        assert(target_ship(targets, players, last) == Some(fell[j]));
        if prev.len() > 0 {
            lemma_victims_are_targets(init, players, 0);
        }
    }
}

/// Every target of a bullet is among the ships that fell.
pub proof fn lemma_targets_are_victims(targets: Seq<Option<int>>, players: Seq<PlayerState>, i: int)
    requires
        0 <= i < targets.len(),
        targets[i] is Some,
    ensures
        is_among(victims(targets, players), target_ship(targets, players, i).unwrap()),
    decreases targets.len(),
{
    let fell = victims(targets, players);
    let init = targets.drop_last();
    let prev = victims(init, players);
    let last = targets.len() - 1;
    if i < last {
        assert(init[i] == targets[i]);
        lemma_targets_are_victims(init, players, i);
        let p = target_ship(init, players, i).unwrap();
        let j = choose|j: int| 0 <= j < prev.len() && #[trigger] prev[j] == p;
        assert(fell[j] == p);
    } else {
        let j = fell.len() - 1;
        assert(fell[j] == target_ship(targets, players, i).unwrap());
    }
}

/// No two of the ships that fell share an id, where no two ships in play do
/// and no ship is the target of two bullets.
pub proof fn lemma_victims(targets: Seq<Option<int>>, players: Seq<PlayerState>)
    requires
        distinct_by(players, player_key()),
        forall|i: int|
            0 <= i < targets.len() ==> (#[trigger] targets[i] matches Some(k) ==> 0 <= k
                < players.len()),
        forall|i: int, j: int|
            0 <= i < j < targets.len() && targets[i] is Some ==> #[trigger] targets[i]
                != #[trigger] targets[j],
    ensures
        distinct_by(victims(targets, players), player_key()),
    decreases targets.len(),
{
    let fell = victims(targets, players);
    if targets.len() > 0 {
        let init = targets.drop_last();
        let prev = victims(init, players);
        let last = targets.len() - 1;
        assert forall|i: int| 0 <= i < init.len() implies (#[trigger] init[i] matches Some(k) ==> 0
            <= k < players.len()) by {
            assert(init[i] == targets[i]);
        }
        assert forall|i: int, j: int|
            0 <= i < j < init.len() && init[i] is Some implies #[trigger] init[i]
            != #[trigger] init[j] by {
            assert(init[i] == targets[i] && init[j] == targets[j]);
        }
        lemma_victims(init, players);
        if let Some(k) = targets.last() {
            assert forall|a: int, b: int| 0 <= a < b < fell.len() implies player_key()(
                #[trigger] fell[a],
            ) != player_key()(#[trigger] fell[b]) by {
                if b < prev.len() {
                    assert(player_key()(prev[a]) != player_key()(prev[b]));
                } else {
                    lemma_victims_are_targets(init, players, a);
                    let i = choose|i: int|
                        0 <= i < init.len() && #[trigger] target_ship(init, players, i) == Some(
                            prev[a],
                        );
                    assert(init[i] == targets[i]);
                    assert(targets[i] != targets[last]);
                    let m = targets[i].unwrap();
                    assert(m != k);
                    if m < k {
                        assert(player_key()(players[m]) != player_key()(players[k]));
                    } else {
                        assert(player_key()(players[k]) != player_key()(players[m]));
                    }
                }
            }
        }
    }
}

/// Setting deadlines keeps them distinct.
pub proof fn lemma_registered_distinct(deadlines: Seq<Deadline>, id: u32, at: u64)
    requires
        distinct_by(deadlines, deadline_key()),
    ensures
        distinct_by(registered(deadlines, id, at), deadline_key()),
{
    let after = registered(deadlines, id, at);
    if has_key(deadlines, deadline_key(), id) {
        assert forall|a: int, b: int| 0 <= a < b < after.len() implies deadline_key()(
            #[trigger] after[a],
        ) != deadline_key()(#[trigger] after[b]) by {
            assert(deadline_key()(deadlines[a]) != deadline_key()(deadlines[b]));
        }
    } else {
        assert forall|a: int, b: int| 0 <= a < b < after.len() implies deadline_key()(
            #[trigger] after[a],
        ) != deadline_key()(#[trigger] after[b]) by {
            if b < deadlines.len() {
                assert(deadline_key()(deadlines[a]) != deadline_key()(deadlines[b]));
            } else {
                assert(deadline_key()(deadlines[a]) != id);
            }
        }
    }
}

/// Setting the deadlines of several ships keeps the deadlines distinct.
pub proof fn lemma_registered_all_distinct(deadlines: Seq<Deadline>, ships: Seq<PlayerState>, at: u64)
    requires
        distinct_by(deadlines, deadline_key()),
    ensures
        distinct_by(registered_all(deadlines, ships, at), deadline_key()),
    decreases ships.len(),
{
    if ships.len() > 0 {
        lemma_registered_all_distinct(deadlines, ships.drop_last(), at);
        lemma_registered_distinct(
            registered_all(deadlines, ships.drop_last(), at),
            ships.last().id,
            at,
        );
    }
}

/// The strikes of the bullets leave the arena as it should be.
pub proof fn lemma_struck_wf(v: GameView, now: u64, spawns: Seq<Position>)
    requires
        v.wf(),
        spawns.len() == v.losses(),
        all_in_arena(spawns),
    ensures
        v.struck(now, spawns).wf(),
{
    let s = strikes(v.bullets, v.players);
    let fell = victims(s.targets, v.players);
    let after = v.struck(now, spawns);
    let lost = graves(fell, spawns, now);
    lemma_strikes(v.bullets, v.players);
    lemma_victims(s.targets, v.players);
    lemma_picked_distinct(v.players, turned(s.fallen), player_key());
    lemma_picked_distinct(v.bullets, unspent(s.targets), bullet_key());
    lemma_registered_all_distinct(v.deadlines, fell, (now + SURVIVAL_TIMEOUT) as u64);
    // Every ship that fell stood in play at a place that is marked as fallen.
    assert forall|j: int| 0 <= j < fell.len() implies stood_and_fell(
        v.players,
        s.fallen,
        #[trigger] fell[j],
    ) by {
        lemma_victims_are_targets(s.targets, v.players, j);
        let i = choose|i: int|
            0 <= i < s.targets.len() && #[trigger] target_ship(s.targets, v.players, i) == Some(
                fell[j],
            );
        let k = s.targets[i].unwrap();
        assert(s.fallen[k] && v.players[k] == fell[j]);
    }
    assert forall|i: int| 0 <= i < after.players.len() implies ship_ok(
        #[trigger] after.players[i],
    ) by {
        let k = lemma_picked_from(v.players, turned(s.fallen), i);
        assert(ship_ok(v.players[k]));
    }
    assert forall|i: int| 0 <= i < after.dead.len() implies ship_ok(
        (#[trigger] after.dead[i]).player,
    ) by {
        if i < v.dead.len() {
            assert(ship_ok(v.dead[i].player));
        } else {
            let j = i - v.dead.len();
            let k = choose|k: int|
                0 <= k < v.players.len() && s.fallen[k] && #[trigger] v.players[k] == fell[j];
            assert(ship_ok(v.players[k]));
            assert(in_arena(spawns[j].x as int, spawns[j].y as int));
        }
    }
    assert forall|a: int, b: int| 0 <= a < b < after.dead.len() implies dead_key()(
        #[trigger] after.dead[a],
    ) != dead_key()(#[trigger] after.dead[b]) by {
        if b < v.dead.len() {
            assert(dead_key()(v.dead[a]) != dead_key()(v.dead[b]));
        } else {
            let jb = b - v.dead.len();
            let kb = choose|k: int|
                0 <= k < v.players.len() && s.fallen[k] && #[trigger] v.players[k] == fell[jb];
            if a < v.dead.len() {
                assert(v.players[kb].id != v.dead[a].player.id);
            } else {
                let ja = a - v.dead.len();
                assert(player_key()(fell[ja]) != player_key()(fell[jb]));
            }
        }
    }
    assert forall|i: int, j: int|
        0 <= i < after.players.len() && 0 <= j < after.dead.len() implies (
    #[trigger] after.players[i]).id != (#[trigger] after.dead[j]).player.id by {
        let k = lemma_picked_from(v.players, turned(s.fallen), i);
        if j < v.dead.len() {
            assert(v.players[k].id != v.dead[j].player.id);
        } else {
            let jj = j - v.dead.len();
            let m = choose|m: int|
                0 <= m < v.players.len() && s.fallen[m] && #[trigger] v.players[m] == fell[jj];
            assert(m != k);
            if m < k {
                assert(player_key()(v.players[m]) != player_key()(v.players[k]));
            } else {
                assert(player_key()(v.players[k]) != player_key()(v.players[m]));
            }
        }
    }
    assert forall|i: int| 0 <= i < after.bullets.len() implies (#[trigger] after.bullets[i]).id
        < after.next_bullet_id by {
        let k = lemma_picked_from(v.bullets, unspent(s.targets), i);
        assert(v.bullets[k].id < v.next_bullet_id);
    }
    assert forall|id: u32| #[trigger]
        count_key(after.bullets, owner_key(), id) <= MAX_CONCURRENT_BULLETS by {
        lemma_picked_count(v.bullets, unspent(s.targets), owner_key(), id);
        assert(count_key(v.bullets, owner_key(), id) <= MAX_CONCURRENT_BULLETS);
    }
}

/// The rewards for surviving leave the arena as it should be.
pub proof fn lemma_rewarded_wf(v: GameView, now: u64)
    requires
        v.wf(),
    ensures
        v.rewarded(now).wf(),
{
    let after = v.rewarded(now);
    assert forall|a: int, b: int| 0 <= a < b < after.deadlines.len() implies deadline_key()(
        #[trigger] after.deadlines[a],
    ) != deadline_key()(#[trigger] after.deadlines[b]) by {
        assert(deadline_key()(v.deadlines[a]) != deadline_key()(v.deadlines[b]));
    }
}

} // verus!
