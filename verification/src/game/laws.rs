//! What holds of the arena through every tick.

use crate::game::{ARENA_HEIGHT, ARENA_WIDTH, DEAD_PUNISH, MAX_CONCURRENT_BULLETS, MAX_TIME};
use crate::game::proofs::{
    lemma_revived_wf, lemma_rewarded_wf, lemma_sailed_inside, lemma_sailed_on_wf, lemma_shot_on_wf,
    lemma_strikes, lemma_struck_wf, lemma_target_from, lemma_targets_are_victims,
};
use crate::game::rules::{
    all_in_arena, bonus_ids, credited, credited_all, due, flown, GameView, graves, hits, in_arena,
    inside, killers, owner_key, player_key, sailed, score_of, ship_ok, ships_of, strikes, travel, unspent,
    victims,
};
use crate::geom::{Heading, HEADING_ONE, lemma_east, Position, trunc_div};
use crate::models::{
    BulletState, DeadPlayer, GameCommand, PLAYER_MAX_THROTTLE, PLAYER_RADIUS, PlayerState,
};
use crate::picking::{
    count_key, has_key, lemma_first_with_key, lemma_picked_from, lemma_picked_has, picked, turned,
};
use vstd::prelude::*;

verus! {

/// The arena as the bullets find it in a tick is as it should be.
pub proof fn lemma_moved_on_wf(v: GameView, dt: u32, now: u64)
    requires
        v.wf(),
    ensures
        v.moved_on(dt, now).wf(),
{
    lemma_revived_wf(v, now);
    lemma_shot_on_wf(v.revived(now), dt);
    lemma_sailed_on_wf(v.revived(now).shot_on(dt), dt);
}

/// A tick leaves the arena as it should be: no id occurs twice among the
/// ships in play and those that are out, no bullet id occurs twice, and no
/// ship has more bullets in flight than it may.
pub proof fn lemma_ticked_wf(v: GameView, dt: u32, now: u64, spawns: Seq<Position>)
    requires
        v.wf(),
        spawns.len() == v.moved_on(dt, now).losses(),
        all_in_arena(spawns),
    ensures
        v.ticked(dt, now, spawns).wf(),
{
    lemma_moved_on_wf(v, dt, now);
    lemma_struck_wf(v.moved_on(dt, now), now, spawns);
    lemma_rewarded_wf(v.moved_on(dt, now).struck(now, spawns), now);
}

/// In an arena that is as it should be, every ship in play has a throttle
/// from nothing to full and lies inside the arena.
pub proof fn lemma_ships_inside(v: GameView, i: int)
    requires
        v.wf(),
        0 <= i < v.players.len(),
    ensures
        v.players[i].throttle <= PLAYER_MAX_THROTTLE,
        in_arena(v.players[i].x as int, v.players[i].y as int),
{
    assert(ship_ok(v.players[i]));
}

/// After a tick every ship in play lies at least a ship's radius inside the
/// arena, with a throttle from nothing to full.
pub proof fn lemma_tick_keeps_ships_inside(
    v: GameView,
    dt: u32,
    now: u64,
    spawns: Seq<Position>,
    i: int,
)
    requires
        v.wf(),
        0 <= i < v.ticked(dt, now, spawns).players.len(),
    ensures
        v.ticked(dt, now, spawns).players[i].throttle <= PLAYER_MAX_THROTTLE,
        PLAYER_RADIUS <= v.ticked(dt, now, spawns).players[i].x <= ARENA_WIDTH - PLAYER_RADIUS,
        PLAYER_RADIUS <= v.ticked(dt, now, spawns).players[i].y <= ARENA_HEIGHT - PLAYER_RADIUS,
{
    lemma_revived_wf(v, now);
    lemma_shot_on_wf(v.revived(now), dt);
    let r = v.revived(now).shot_on(dt);
    let m = v.moved_on(dt, now);
    let s = strikes(m.bullets, m.players);
    let k = lemma_picked_from(m.players, turned(s.fallen), i);
    assert(m.players[k] == sailed(r.players[k], dt));
    lemma_sailed_inside(r.players[k], dt);
    assert(ship_ok(r.players[k]));
}

/// After a tick every bullet that is left lies inside the arena.
pub proof fn lemma_tick_keeps_bullets_inside(
    v: GameView,
    dt: u32,
    now: u64,
    spawns: Seq<Position>,
    i: int,
)
    requires
        0 <= i < v.ticked(dt, now, spawns).bullets.len(),
    ensures
        in_arena(
            v.ticked(dt, now, spawns).bullets[i].x as int,
            v.ticked(dt, now, spawns).bullets[i].y as int,
        ),
{
    let r = v.revived(now);
    let moved = Seq::new(r.bullets.len(), |j: int| flown(r.bullets[j], dt));
    let m = v.moved_on(dt, now);
    let s = strikes(m.bullets, m.players);
    let k = lemma_picked_from(m.bullets, unspent(s.targets), i);
    let j = lemma_picked_from(moved, inside(moved), k);
    assert(inside(moved)[j]);
}

/// No bullet brings down the ship that fired it, however the ships and the
/// bullets lie.
pub proof fn lemma_no_self_kill(bullets: Seq<BulletState>, players: Seq<PlayerState>, i: int)
    requires
        0 <= i < bullets.len(),
    ensures
        strikes(bullets, players).targets[i] matches Some(k) ==> 0 <= k < players.len()
            && players[k].id != bullets[i].player_id,
{
    lemma_strikes(bullets, players);
    let s = strikes(bullets, players);
    assert(s.targets[i] matches Some(k) ==> hits(bullets[i], players[k]));
}

/// A ship that is in play before a tick and not after it is out after it,
/// until `DEAD_PUNISH` after the time of the tick.
pub proof fn lemma_tick_removed_ship_is_out(
    v: GameView,
    dt: u32,
    now: u64,
    spawns: Seq<Position>,
    id: u32,
)
    requires
        v.wf(),
        now <= MAX_TIME,
        has_key(v.players, player_key(), id),
        !has_key(v.ticked(dt, now, spawns).players, player_key(), id),
    ensures
        exists|j: int|
            0 <= j < v.ticked(dt, now, spawns).dead.len() && (#[trigger] v.ticked(
                dt,
                now,
                spawns,
            ).dead[j]) == (DeadPlayer {
                respawn: (now + DEAD_PUNISH) as u64,
                player: v.ticked(dt, now, spawns).dead[j].player,
            }) && v.ticked(dt, now, spawns).dead[j].player.id == id,
        now + DEAD_PUNISH > now,
{
    let i = choose|i: int| 0 <= i < v.players.len() && player_key()(#[trigger] v.players[i]) == id;
    let m = v.moved_on(dt, now);
    assert(v.revived(now).players[i] == v.players[i]);
    assert(m.players[i].id == id);
    lemma_fate(v, dt, now, spawns, i);
}

/// A ship that is out before a tick, and whose time has not come, is out
/// after it as before, and is not in play.
pub proof fn lemma_tick_out_waits(v: GameView, dt: u32, now: u64, spawns: Seq<Position>, j: int)
    requires
        v.wf(),
        spawns.len() == v.moved_on(dt, now).losses(),
        all_in_arena(spawns),
        0 <= j < v.dead.len(),
        v.dead[j].respawn > now,
    ensures
        exists|m: int|
            0 <= m < v.ticked(dt, now, spawns).dead.len() && #[trigger] v.ticked(
                dt,
                now,
                spawns,
            ).dead[m] == v.dead[j],
        !has_key(v.ticked(dt, now, spawns).players, player_key(), v.dead[j].player.id),
{
    let after = v.ticked(dt, now, spawns);
    let marks = turned(due(v.dead, now));
    let m = lemma_picked_has(v.dead, marks, j);
    assert(after.dead[m] == v.dead[j]);
    lemma_ticked_wf(v, dt, now, spawns);
    if has_key(after.players, player_key(), v.dead[j].player.id) {
        let i = choose|i: int|
            0 <= i < after.players.len() && player_key()(#[trigger] after.players[i])
                == v.dead[j].player.id;
        assert(after.players[i].id != after.dead[m].player.id);
    }
}

/// A ship that is out before a tick, and whose time has come, is in play
/// after it, unless a bullet brought it down in the same tick: then it is
/// out until `DEAD_PUNISH` after the time of the tick.
pub proof fn lemma_tick_out_returns(v: GameView, dt: u32, now: u64, spawns: Seq<Position>, j: int)
    requires
        v.wf(),
        now <= MAX_TIME,
        0 <= j < v.dead.len(),
        v.dead[j].respawn <= now,
    ensures
        has_key(v.ticked(dt, now, spawns).players, player_key(), v.dead[j].player.id) || exists|
            m: int,
        |
            0 <= m < v.ticked(dt, now, spawns).dead.len() && (#[trigger] v.ticked(
                dt,
                now,
                spawns,
            ).dead[m]) == (DeadPlayer {
                respawn: (now + DEAD_PUNISH) as u64,
                player: v.ticked(dt, now, spawns).dead[m].player,
            }) && v.ticked(dt, now, spawns).dead[m].player.id == v.dead[j].player.id,
{
    let back = picked(v.dead, due(v.dead, now));
    let k = lemma_picked_has(v.dead, due(v.dead, now), j);
    let i = v.players.len() + k;
    assert(v.revived(now).players[i] == ships_of(back)[k]);
    assert(v.moved_on(dt, now).players[i].id == v.dead[j].player.id);
    let after = v.ticked(dt, now, spawns);
    if !has_key(after.players, player_key(), v.dead[j].player.id) {
        lemma_fate(v, dt, now, spawns, i);
    }
}

/// A ship that the bullets find in play is in play after they struck, or is
/// out until `DEAD_PUNISH` after the time of the strikes.
proof fn lemma_struck_fate(m: GameView, now: u64, spawns: Seq<Position>, i: int)
    requires
        m.wf(),
        0 <= i < m.players.len(),
        !has_key(m.struck(now, spawns).players, player_key(), m.players[i].id),
    ensures
        exists|j: int|
            0 <= j < m.struck(now, spawns).dead.len() && (#[trigger] m.struck(
                now,
                spawns,
            ).dead[j]) == (DeadPlayer {
                respawn: (now + DEAD_PUNISH) as u64,
                player: m.struck(now, spawns).dead[j].player,
            }) && m.struck(now, spawns).dead[j].player.id == m.players[i].id,
{
    let after = m.struck(now, spawns);
    let s = strikes(m.bullets, m.players);
    let fell = victims(s.targets, m.players);
    lemma_strikes(m.bullets, m.players);
    if !s.fallen[i] {
        let j = lemma_picked_has(m.players, turned(s.fallen), i);
        assert(player_key()(after.players[j]) == m.players[i].id);
    } else {
        let b = choose|b: int| 0 <= b < m.bullets.len() && #[trigger] s.targets[b] == Some(i);
        lemma_targets_are_victims(s.targets, m.players, b);
        let j = choose|j: int| 0 <= j < fell.len() && #[trigger] fell[j] == m.players[i];
        let lost = graves(fell, spawns, now);
        assert(after.dead[m.dead.len() + j] == lost[j]);
    }
}

/// A ship that the bullets find in play is in play after the tick, or is out
/// until `DEAD_PUNISH` after the time of the tick.
proof fn lemma_fate(v: GameView, dt: u32, now: u64, spawns: Seq<Position>, i: int)
    requires
        v.wf(),
        now <= MAX_TIME,
        0 <= i < v.moved_on(dt, now).players.len(),
        !has_key(
            v.ticked(dt, now, spawns).players,
            player_key(),
            v.moved_on(dt, now).players[i].id,
        ),
    ensures
        exists|j: int|
            0 <= j < v.ticked(dt, now, spawns).dead.len() && (#[trigger] v.ticked(
                dt,
                now,
                spawns,
            ).dead[j]) == (DeadPlayer {
                respawn: (now + DEAD_PUNISH) as u64,
                player: v.ticked(dt, now, spawns).dead[j].player,
            }) && v.ticked(dt, now, spawns).dead[j].player.id == v.moved_on(
                dt,
                now,
            ).players[i].id,
{
    let m = v.moved_on(dt, now);
    lemma_moved_on_wf(v, dt, now);
    assert(v.ticked(dt, now, spawns).players == m.struck(now, spawns).players);
    assert(v.ticked(dt, now, spawns).dead == m.struck(now, spawns).dead);
    lemma_struck_fate(m, now, spawns, i);
    let j = choose|j: int|
        0 <= j < m.struck(now, spawns).dead.len() && (#[trigger] m.struck(now, spawns).dead[j])
            == (DeadPlayer {
            respawn: (now + DEAD_PUNISH) as u64,
            player: m.struck(now, spawns).dead[j].player,
        }) && m.struck(now, spawns).dead[j].player.id == m.players[i].id;
    assert(v.ticked(dt, now, spawns).dead[j] == m.struck(now, spawns).dead[j]);
}

/// The square of a quotient rounded toward zero, times the square of the
/// divisor, is no more than the square of the dividend.
proof fn lemma_trunc_div_square(a: int, d: int)
    requires
        d > 0,
    ensures
        trunc_div(a, d) * trunc_div(a, d) * (d * d) <= a * a,
{
    let m = if a >= 0 {
        a
    } else {
        -a
    };
    let q = m / d;
    assert(0 <= q * d <= m) by (nonlinear_arith)
        requires
            q == m / d,
            m >= 0,
            d > 0,
    ;
    assert((q * d) * (q * d) <= m * m) by (nonlinear_arith)
        requires
            0 <= q * d <= m,
    ;
    assert(q * q * (d * d) == (q * d) * (q * d)) by (nonlinear_arith);
    assert(m * m == a * a) by (nonlinear_arith)
        requires
            m == a || m == -a,
    ;
    assert(trunc_div(a, d) * trunc_div(a, d) == q * q) by (nonlinear_arith)
        requires
            trunc_div(a, d) == q || trunc_div(a, d) == -q,
    ;
}

/// No body covers more ground in a tick than its full speed allows: the
/// square of the way it makes in `dt` milliseconds is no more than the
/// square of `speed * dt / 1000`, whatever its heading and its throttle.
pub proof fn lemma_speed_limit(h: Heading, speed: int, throttle: int, dt: int)
    requires
        h.wf(),
        speed >= 0,
        0 <= throttle <= PLAYER_MAX_THROTTLE,
        dt >= 0,
    ensures
        (travel(h.x(), speed, throttle, dt) * travel(h.x(), speed, throttle, dt) + travel(
            h.y(),
            speed,
            throttle,
            dt,
        ) * travel(h.y(), speed, throttle, dt)) * 1_000_000 <= (speed * dt) * (speed * dt),
{
    let one: int = HEADING_ONE as int;
    let d: int = one * 1000 * 1000;
    let k: int = speed * throttle * dt;
    let tx = travel(h.x(), speed, throttle, dt);
    let ty = travel(h.y(), speed, throttle, dt);
    assert(h.x() * speed * throttle * dt == h.x() * k) by (nonlinear_arith)
        requires
            k == speed * throttle * dt,
    ;
    assert(h.y() * speed * throttle * dt == h.y() * k) by (nonlinear_arith)
        requires
            k == speed * throttle * dt,
    ;
    lemma_trunc_div_square(h.x() * k, d);
    lemma_trunc_div_square(h.y() * k, d);
    let n2 = h.x() * h.x() + h.y() * h.y();
    assert((h.x() * k) * (h.x() * k) + (h.y() * k) * (h.y() * k) == n2 * (k * k))
        by (nonlinear_arith)
        requires
            n2 == h.x() * h.x() + h.y() * h.y(),
    ;
    assert(n2 * (k * k) <= (one * one) * (k * k)) by (nonlinear_arith)
        requires
            n2 <= one * one,
    ;
    let t2 = tx * tx + ty * ty;
    assert(t2 * (d * d) <= (one * one) * (k * k)) by (nonlinear_arith)
        requires
            tx * tx * (d * d) <= (h.x() * k) * (h.x() * k),
            ty * ty * (d * d) <= (h.y() * k) * (h.y() * k),
            (h.x() * k) * (h.x() * k) + (h.y() * k) * (h.y() * k) <= (one * one) * (k * k),
            t2 == tx * tx + ty * ty,
    ;
    assert(d * d == (one * one) * 1_000_000_000_000) by (nonlinear_arith)
        requires
            d == one * 1000 * 1000,
    ;
    assert(t2 * 1_000_000_000_000 <= k * k) by (nonlinear_arith)
        requires
            t2 * ((one * one) * 1_000_000_000_000) <= (one * one) * (k * k),
            one > 0,
    ;
    let full: int = speed * dt;
    assert(k == full * throttle) by (nonlinear_arith)
        requires
            k == speed * throttle * dt,
            full == speed * dt,
    ;
    assert(k * k <= (full * full) * 1_000_000) by (nonlinear_arith)
        requires
            k == full * throttle,
            0 <= throttle <= 1000,
            full >= 0,
    ;
    assert(t2 * 1_000_000 <= full * full) by (nonlinear_arith)
        requires
            t2 * 1_000_000_000_000 <= k * k,
            k * k <= (full * full) * 1_000_000,
    ;
}

/// A ship that joins rests at the point it was given, facing east.
pub proof fn lemma_joined_ship_rests(v: GameView, id: u32, x: i32, y: i32, now: u64)
    requires
        !v.knows(id),
        in_arena(x as int, y as int),
    ensures
        v.joined(id, x, y, now).players.len() == v.players.len() + 1,
        v.joined(id, x, y, now).players.last().id == id,
        v.joined(id, x, y, now).players.last().x == x,
        v.joined(id, x, y, now).players.last().y == y,
        v.joined(id, x, y, now).players.last().throttle == 0,
        v.joined(id, x, y, now).players.last().angle.x() == HEADING_ONE,
        v.joined(id, x, y, now).players.last().angle.y() == 0,
{
    lemma_east();
}

/// The strikes of the first bullets are those that these bullets make among
/// all the bullets: what a bullet does depends on the bullets before it
/// only.
pub proof fn lemma_strikes_prefix(bullets: Seq<BulletState>, players: Seq<PlayerState>, n: int)
    requires
        0 <= n <= bullets.len(),
    ensures
        strikes(bullets, players).targets.len() == bullets.len(),
        strikes(bullets.take(n), players).targets == strikes(bullets, players).targets.take(n),
    decreases bullets.len(),
{
    lemma_strikes(bullets, players);
    if n == bullets.len() {
        assert(bullets.take(n) =~= bullets);
        assert(strikes(bullets, players).targets.take(n) =~= strikes(bullets, players).targets);
    } else {
        lemma_strikes_prefix(bullets.drop_last(), players, n);
        assert(bullets.drop_last().take(n) =~= bullets.take(n));
        assert(strikes(bullets, players).targets.take(n) =~= strikes(
            bullets.drop_last(),
            players,
        ).targets.take(n));
    }
}

/// The first match wins: a ship that a bullet hits, and that stands before
/// the ship that the bullet brings down, or that the bullet hits without
/// bringing any ship down, fell to an earlier bullet.
pub proof fn lemma_first_match_wins(
    bullets: Seq<BulletState>,
    players: Seq<PlayerState>,
    i: int,
    j: int,
)
    requires
        0 <= i < bullets.len(),
        0 <= j < players.len(),
        hits(bullets[i], players[j]),
        strikes(bullets, players).targets[i] matches Some(k) ==> j < k,
    ensures
        exists|earlier: int|
            0 <= earlier < i && #[trigger] strikes(bullets, players).targets[earlier] == Some(j),
{
    let upto = bullets.take(i);
    let with = bullets.take(i + 1);
    lemma_strikes_prefix(bullets, players, i);
    lemma_strikes_prefix(bullets, players, i + 1);
    assert(with.drop_last() =~= upto);
    assert(with.last() == bullets[i]);
    let prev = strikes(upto, players);
    lemma_strikes(upto, players);
    lemma_target_from(bullets[i], players, prev.fallen, 0);
    assert(strikes(with, players).targets[i] == strikes(bullets, players).targets.take(i + 1)[i]);
    assert(prev.fallen[j]);
    let earlier = choose|earlier: int|
        0 <= earlier < upto.len() && #[trigger] prev.targets[earlier] == Some(j);
    assert(strikes(bullets, players).targets.take(i)[earlier] == strikes(
        bullets,
        players,
    ).targets[earlier]);
}

/// The points that a table gives an id are its points before and one for
/// each time the id occurs among those that score, up to the largest score
/// that can be written down.
pub proof fn lemma_credited_all_counts(board: Map<u32, u32>, ids: Seq<u32>, id: u32)
    ensures
        score_of(credited_all(board, ids), id) == if score_of(board, id) + count_key(
            ids,
            |x: u32| x,
            id,
        ) > u32::MAX {
            u32::MAX as int
        } else {
            score_of(board, id) + count_key(ids, |x: u32| x, id)
        },
    decreases ids.len(),
{
    if ids.len() > 0 {
        lemma_credited_all_counts(board, ids.drop_last(), id);
    }
}

/// The bullets of a ship in flight, counted.
pub open spec fn in_flight(v: GameView, id: u32) -> nat {
    count_key(v.bullets, owner_key(), id)
}

/// Below the cap a shot adds one bullet: where a ship in play has fewer than
/// `MAX_CONCURRENT_BULLETS` bullets in flight, a shot adds exactly one
/// bullet, which the ship owns, and changes no ship, no score and no other
/// bullet. This holds as long as an id is left for the new bullet.
pub proof fn lemma_shot_below_the_cap(v: GameView, id: u32)
    requires
        has_key(v.players, player_key(), id),
        in_flight(v, id) < MAX_CONCURRENT_BULLETS,
        v.next_bullet_id < u32::MAX,
    ensures
        v.commanded(id, GameCommand::Fire).bullets.len() == v.bullets.len() + 1,
        v.commanded(id, GameCommand::Fire).bullets.drop_last() == v.bullets,
        v.commanded(id, GameCommand::Fire).bullets.last().player_id == id,
        v.commanded(id, GameCommand::Fire).bullets.last().id == v.next_bullet_id,
        in_flight(v.commanded(id, GameCommand::Fire), id) == in_flight(v, id) + 1,
        v.commanded(id, GameCommand::Fire).players == v.players,
        v.commanded(id, GameCommand::Fire).dead == v.dead,
        v.commanded(id, GameCommand::Fire).scoreboard == v.scoreboard,
{
    lemma_first_with_key(v.players, player_key(), id);
    let after = v.commanded(id, GameCommand::Fire);
    assert(after.bullets.drop_last() =~= v.bullets);
}

/// At the cap a shot is dropped: where a ship has `MAX_CONCURRENT_BULLETS`
/// bullets in flight or more, or is not in play, a shot changes nothing.
pub proof fn lemma_shot_at_the_cap(v: GameView, id: u32)
    requires
        in_flight(v, id) >= MAX_CONCURRENT_BULLETS || !has_key(v.players, player_key(), id),
    ensures
        v.commanded(id, GameCommand::Fire) == v,
{
}

/// The bullets of other ships never count: a shot leaves the number of
/// bullets of every other ship as it is, and where no ship had more than
/// `MAX_CONCURRENT_BULLETS` bullets in flight before a shot, none has after
/// it.
pub proof fn lemma_shots_keep_the_cap(v: GameView, id: u32, owner: u32)
    requires
        forall|o: u32| #[trigger] in_flight(v, o) <= MAX_CONCURRENT_BULLETS,
    ensures
        owner != id ==> in_flight(v.commanded(id, GameCommand::Fire), owner) == in_flight(
            v,
            owner,
        ),
        in_flight(v.commanded(id, GameCommand::Fire), owner) <= MAX_CONCURRENT_BULLETS,
{
    let after = v.commanded(id, GameCommand::Fire);
    assert(in_flight(v, owner) <= MAX_CONCURRENT_BULLETS);
    if v.may_fire(id) {
        lemma_first_with_key(v.players, player_key(), id);
        assert(after.bullets.drop_last() =~= v.bullets);
    }
}

/// The arena after the ship `id` sent `n` shots in a row.
pub open spec fn fired(v: GameView, id: u32, n: nat) -> GameView
    decreases n,
{
    if n == 0 {
        v
    } else {
        fired(v, id, (n - 1) as nat).commanded(id, GameCommand::Fire)
    }
}

/// Shots in a row fill the cap and no more: after `n` shots a ship in play
/// has the bullets it had and `n` more in flight, but no more than
/// `MAX_CONCURRENT_BULLETS`; the shots beyond the cap are dropped. This
/// holds as long as ids are left for the new bullets.
pub proof fn lemma_rapid_fire(v: GameView, id: u32, n: nat)
    requires
        has_key(v.players, player_key(), id),
        in_flight(v, id) <= MAX_CONCURRENT_BULLETS,
        v.next_bullet_id + n <= u32::MAX,
    ensures
        in_flight(fired(v, id, n), id) == if in_flight(v, id) + n <= MAX_CONCURRENT_BULLETS {
            in_flight(v, id) + n
        } else {
            MAX_CONCURRENT_BULLETS as nat
        },
        fired(v, id, n).players == v.players,
        fired(v, id, n).next_bullet_id <= v.next_bullet_id + n,
    decreases n,
{
    if n > 0 {
        let before = fired(v, id, (n - 1) as nat);
        lemma_rapid_fire(v, id, (n - 1) as nat);
        if in_flight(before, id) < MAX_CONCURRENT_BULLETS {
            lemma_shot_below_the_cap(before, id);
        } else {
            lemma_shot_at_the_cap(before, id);
        }
    }
}

/// One point more never lowers a score.
pub proof fn lemma_credited_never_drops(board: Map<u32, u32>, to: u32, id: u32)
    ensures
        score_of(credited(board, to), id) >= score_of(board, id),
{
}

/// Points given in turn never lower a score.
pub proof fn lemma_credited_all_never_drops(board: Map<u32, u32>, ids: Seq<u32>, id: u32)
    ensures
        score_of(credited_all(board, ids), id) >= score_of(board, id),
    decreases ids.len(),
{
    if ids.len() > 0 {
        lemma_credited_all_never_drops(board, ids.drop_last(), id);
        lemma_credited_never_drops(credited_all(board, ids.drop_last()), ids.last(), id);
    }
}

/// No score is lower after a tick than before it.
pub proof fn lemma_tick_scores_never_drop(
    v: GameView,
    dt: u32,
    now: u64,
    spawns: Seq<Position>,
    id: u32,
)
    ensures
        score_of(v.ticked(dt, now, spawns).scoreboard, id) >= score_of(v.scoreboard, id),
{
    let m = v.moved_on(dt, now);
    let s = strikes(m.bullets, m.players);
    let hit = m.struck(now, spawns);
    lemma_credited_all_never_drops(m.scoreboard, killers(s.targets, m.bullets), id);
    lemma_credited_all_never_drops(hit.scoreboard, bonus_ids(hit.deadlines, now), id);
}

/// No score changes when a ship joins, leaves or sends a command.
pub proof fn lemma_commands_keep_scores(
    v: GameView,
    id: u32,
    x: i32,
    y: i32,
    now: u64,
    cmd: GameCommand,
)
    ensures
        v.joined(id, x, y, now).scoreboard == v.scoreboard,
        v.left(id).scoreboard == v.scoreboard,
        v.commanded(id, cmd).scoreboard == v.scoreboard,
{
}

} // verus!
