//! The world as a client knows it: the ships and bullets of the latest
//! snapshot, with the record of each ship, and the questions that behaviours
//! ask of them.

pub mod bullet;
pub mod player;

use crate::analyzer::bullet::Bullet;
use crate::analyzer::player::{
    collides_during, mean_speed, projected_score, Player, PlayerView, ScoreSample, Waypoint,
};
use crate::geom::Position;
use crate::game::rules::{player_key, score_of};
use crate::models::{BulletState, ClientState, PlayerState};
use crate::picking::{
    distinct_by, first_least, first_with_key, has_key, lemma_picked_step, lemma_place_of_key,
    lemma_place_of_key_at, picked, place_of_key,
};
use vstd::prelude::*;

verus! {

/// Milliseconds between the moments at which a flight is looked at.
pub const ANALYSIS_INTERVAL: u64 = 10;

/// The key of a ship on record: its id.
pub open spec fn record_key() -> spec_fn(PlayerView) -> u32 {
    |p: PlayerView| p.id
}

/// The records of the ships of a roster, as contracts speak of them.
pub open spec fn records_of(players: Seq<Player>) -> Seq<PlayerView> {
    Seq::new(players.len(), |i: int| players[i]@)
}

/// The records of the ships that a list points to.
pub open spec fn records(list: Seq<&Player>) -> Seq<PlayerView> {
    Seq::new(list.len(), |i: int| list[i]@)
}

/// The bullets that a list points to.
pub open spec fn bullets_of(list: Seq<&Bullet>) -> Seq<Bullet> {
    Seq::new(list.len(), |i: int| *list[i])
}

/// The record of the ship that is pointed to, if one is.
pub open spec fn record(found: Option<&Player>) -> Option<PlayerView> {
    match found {
        Some(p) => Some(p@),
        None => None,
    }
}

/// The ship at the place `place` of `players`, if there is a place.
pub open spec fn ship_at(players: Seq<PlayerView>, place: Option<int>) -> Option<PlayerView> {
    match place {
        Some(i) => Some(players[i]),
        None => None,
    }
}

/// The records while a snapshot is taken in: those of the old roster that no
/// ship of the snapshot has claimed yet, and the new roster so far.
pub struct Roster {
    pub unclaimed: Seq<PlayerView>,
    pub next: Seq<PlayerView>,
}

/// The roster after `record` was entered: it takes the place of the record
/// of the same id where the roster has one, and stands at the end where it
/// has none. So the roster never holds two records of one id.
pub open spec fn entered(roster: Seq<PlayerView>, record: PlayerView) -> Seq<PlayerView> {
    let place = place_of_key(roster, record_key(), record.id);
    if place < roster.len() {
        roster.update(place, record)
    } else {
        roster.push(record)
    }
}

/// The records after one more ship of a snapshot was taken in.
pub open spec fn carried_step(
    so_far: Roster,
    ship: PlayerState,
    board: Map<u32, u32>,
    time: u64,
) -> Roster {
    let score = score_of(board, ship.id) as u32;
    let place = place_of_key(so_far.unclaimed, record_key(), ship.id);
    if place < so_far.unclaimed.len() {
        Roster {
            unclaimed: so_far.unclaimed.remove(place),
            next: entered(so_far.next, so_far.unclaimed[place].seen_again(ship, score, time)),
        }
    } else {
        Roster {
            unclaimed: so_far.unclaimed,
            next: entered(so_far.next, PlayerView::first_seen(ship, score, time)),
        }
    }
}

/// The records after the ships `ships` of a snapshot were taken in, in their
/// order. A ship that is on record goes on with its record, which no later
/// ship of the snapshot can claim; any other starts a new one. Where the
/// snapshot lists an id more than once, the last of them is the one on
/// record.
pub open spec fn carried(
    old: Seq<PlayerView>,
    ships: Seq<PlayerState>,
    board: Map<u32, u32>,
    time: u64,
) -> Roster
    decreases ships.len(),
{
    if ships.len() == 0 {
        Roster { unclaimed: old, next: Seq::empty() }
    } else {
        carried_step(carried(old, ships.drop_last(), board, time), ships.last(), board, time)
    }
}

/// Entering a record keeps the ids of a roster distinct.
pub proof fn lemma_entered_distinct(roster: Seq<PlayerView>, record: PlayerView)
    requires
        distinct_by(roster, record_key()),
    ensures
        distinct_by(entered(roster, record), record_key()),
        has_key(entered(roster, record), record_key(), record.id),
{
    lemma_place_of_key(roster, record_key(), record.id);
    let place = place_of_key(roster, record_key(), record.id);
    let after = entered(roster, record);
    assert forall|a: int, b: int| 0 <= a < b < after.len() implies record_key()(
        #[trigger] after[a],
    ) != record_key()(#[trigger] after[b]) by {
        if place < roster.len() {
            assert(record_key()(roster[a]) != record_key()(roster[b]));
            assert(record_key()(roster[place]) == record.id);
        } else if b < roster.len() {
            assert(record_key()(roster[a]) != record_key()(roster[b]));
        } else {
            assert(record_key()(roster[a]) != record.id);
        }
    }
    if place < roster.len() {
        assert(record_key()(after[place]) == record.id);
    } else {
        assert(record_key()(after[roster.len() as int]) == record.id);
    }
}

/// What the record of a ship of the snapshot is: the record that the ship
/// went on with, or a new one.
pub open spec fn record_for(
    so_far: Roster,
    ship: PlayerState,
    board: Map<u32, u32>,
    time: u64,
) -> PlayerView {
    let place = place_of_key(so_far.unclaimed, record_key(), ship.id);
    if place < so_far.unclaimed.len() {
        so_far.unclaimed[place].seen_again(ship, score_of(board, ship.id) as u32, time)
    } else {
        PlayerView::first_seen(ship, score_of(board, ship.id) as u32, time)
    }
}

/// The record of a ship of the snapshot has the id of the ship, and what
/// the snapshot says of the ship.
pub proof fn lemma_record_for(so_far: Roster, ship: PlayerState, board: Map<u32, u32>, time: u64)
    ensures
        record_for(so_far, ship, board, time).id == ship.id,
        record_for(so_far, ship, board, time).angle == ship.angle,
        record_for(so_far, ship, board, time).throttle == ship.throttle,
        record_for(so_far, ship, board, time).position == (Position { x: ship.x, y: ship.y }),
        record_for(so_far, ship, board, time).wf(),
        record_for(so_far, ship, board, time).trajectory.last() == (Waypoint {
            position: Position { x: ship.x, y: ship.y },
            time,
        }),
        record_for(so_far, ship, board, time).scores.last() == (ScoreSample {
            score: score_of(board, ship.id) as u32,
            time,
        }),
        carried_step(so_far, ship, board, time).next == entered(
            so_far.next,
            record_for(so_far, ship, board, time),
        ),
{
    lemma_place_of_key(so_far.unclaimed, record_key(), ship.id);
}

/// After a snapshot was taken in, no id is on record twice, whatever the
/// snapshot and the roster before it were; every ship on record was seen at
/// least once; and the ids on record are the ids of the snapshot.
pub proof fn lemma_carried_distinct(
    old: Seq<PlayerView>,
    ships: Seq<PlayerState>,
    board: Map<u32, u32>,
    time: u64,
)
    ensures
        distinct_by(carried(old, ships, board, time).next, record_key()),
        carried(old, ships, board, time).next.len() <= ships.len(),
        forall|j: int|
            0 <= j < carried(old, ships, board, time).next.len() ==> (#[trigger] carried(
                old,
                ships,
                board,
                time,
            ).next[j]).wf() && has_key(
                ships,
                player_key(),
                carried(old, ships, board, time).next[j].id,
            ),
        forall|i: int|
            0 <= i < ships.len() ==> has_key(
                carried(old, ships, board, time).next,
                record_key(),
                (#[trigger] ships[i]).id,
            ),
    decreases ships.len(),
{
    let roster = carried(old, ships, board, time).next;
    if ships.len() > 0 {
        let init = ships.drop_last();
        let so_far = carried(old, init, board, time);
        let ship = ships.last();
        lemma_carried_distinct(old, init, board, time);
        lemma_record_for(so_far, ship, board, time);
        let record = record_for(so_far, ship, board, time);
        lemma_entered_distinct(so_far.next, record);
        lemma_place_of_key(so_far.next, record_key(), record.id);
        let place = place_of_key(so_far.next, record_key(), record.id);
        assert forall|j: int| 0 <= j < roster.len() implies (#[trigger] roster[j]).wf() && has_key(
            ships,
            player_key(),
            roster[j].id,
        ) by {
            if j < so_far.next.len() && j != place {
                assert(roster[j] == so_far.next[j]);
                let i = choose|i: int|
                    0 <= i < init.len() && player_key()(#[trigger] init[i]) == so_far.next[j].id;
                assert(player_key()(ships[i]) == roster[j].id);
            } else {
                assert(roster[j] == record);
                assert(player_key()(ships[ships.len() - 1]) == roster[j].id);
            }
        }
        assert forall|i: int| 0 <= i < ships.len() implies has_key(
            roster,
            record_key(),
            (#[trigger] ships[i]).id,
        ) by {
            if i < init.len() {
                assert(init[i] == ships[i]);
                let j = choose|j: int|
                    0 <= j < so_far.next.len() && record_key()(#[trigger] so_far.next[j])
                        == init[i].id;
                if j == place && place < so_far.next.len() {
                    assert(record_key()(roster[j]) == ships[i].id);
                } else {
                    assert(roster[j] == so_far.next[j]);
                    assert(record_key()(roster[j]) == ships[i].id);
                }
            }
        }
    }
}

/// After a snapshot without a double id was taken in, the roster holds the
/// ships of the snapshot, in their order, and no other; each is where the
/// snapshot has it, and its record ends with what the snapshot says of it.
pub proof fn lemma_carried_roster(
    old: Seq<PlayerView>,
    ships: Seq<PlayerState>,
    board: Map<u32, u32>,
    time: u64,
    i: int,
)
    requires
        distinct_by(ships, player_key()),
        0 <= i < ships.len(),
    ensures
        carried(old, ships, board, time).next.len() == ships.len(),
        carried(old, ships, board, time).next[i].id == ships[i].id,
        carried(old, ships, board, time).next[i].angle == ships[i].angle,
        carried(old, ships, board, time).next[i].throttle == ships[i].throttle,
        carried(old, ships, board, time).next[i].position == (Position {
            x: ships[i].x,
            y: ships[i].y,
        }),
        carried(old, ships, board, time).next[i].wf(),
        carried(old, ships, board, time).next[i].trajectory.last() == (Waypoint {
            position: Position { x: ships[i].x, y: ships[i].y },
            time,
        }),
        carried(old, ships, board, time).next[i].scores.last() == (ScoreSample {
            score: score_of(board, ships[i].id) as u32,
            time,
        }),
    decreases ships.len(),
{
    let init = ships.drop_last();
    let so_far = carried(old, init, board, time);
    let ship = ships.last();
    assert(distinct_by(init, player_key())) by {
        assert forall|a: int, b: int| 0 <= a < b < init.len() implies player_key()(
            #[trigger] init[a],
        ) != player_key()(#[trigger] init[b]) by {
            assert(player_key()(ships[a]) != player_key()(ships[b]));
        }
    }
    lemma_record_for(so_far, ship, board, time);
    lemma_carried_distinct(old, init, board, time);
    lemma_place_of_key(so_far.next, record_key(), ship.id);
    let place = place_of_key(so_far.next, record_key(), ship.id);
    if place < so_far.next.len() {
        let k = choose|k: int|
            0 <= k < init.len() && player_key()(#[trigger] init[k]) == so_far.next[place].id;
        assert(player_key()(ships[k]) != player_key()(ships[ships.len() - 1]));
    }
    if init.len() > 0 {
        lemma_carried_roster(old, init, board, time, 0);
    }
    if i < ships.len() - 1 {
        lemma_carried_roster(old, init, board, time, i);
        assert(init[i] == ships[i]);
    }
}

/// A ship that is seen for the first time starts a record of one place and
/// one score.
pub proof fn lemma_first_seen_is_fresh(ship: PlayerState, score: u32, time: u64)
    ensures
        PlayerView::first_seen(ship, score, time).id == ship.id,
        PlayerView::first_seen(ship, score, time).trajectory.len() == 1,
        PlayerView::first_seen(ship, score, time).scores.len() == 1,
{
}

/// The world as the client knows it, as contracts speak of it.
pub struct AnalyzerView {
    pub own_player_id: u32,
    pub players: Seq<PlayerView>,
    pub bullets: Seq<Bullet>,
    pub last_update: u64,
}

impl AnalyzerView {
    /// Every ship on record was seen at least once, and no id is on record
    /// twice.
    pub open spec fn wf(self) -> bool {
        &&& forall|i: int| 0 <= i < self.players.len() ==> (#[trigger] self.players[i]).wf()
        &&& distinct_by(self.players, record_key())
    }

    /// The world before any snapshot.
    pub open spec fn blank() -> AnalyzerView {
        AnalyzerView {
            own_player_id: 0,
            players: Seq::empty(),
            bullets: Seq::empty(),
            last_update: 0,
        }
    }

    /// The world after the snapshot `ships`, `shots`, `board` reached the
    /// ship `own` at the time `time`. Ships that are not in the snapshot are
    /// forgotten with their records; the bullets are those of the snapshot.
    pub open spec fn pushed(
        self,
        own: u32,
        ships: Seq<PlayerState>,
        shots: Seq<BulletState>,
        board: Map<u32, u32>,
        time: u64,
    ) -> AnalyzerView {
        AnalyzerView {
            own_player_id: own,
            players: carried(self.players, ships, board, time).next,
            bullets: Seq::new(shots.len(), |i: int| Bullet::of(shots[i])),
            last_update: time,
        }
    }

    /// The first ship with the id `id`.
    pub open spec fn player(self, id: u32) -> Option<PlayerView> {
        first_with_key(self.players, record_key(), id)
    }

    /// The client's own ship, if the latest snapshot has it.
    pub open spec fn own(self) -> Option<PlayerView> {
        self.player(self.own_player_id)
    }

    /// For each ship, whether it is another than the client's own.
    pub open spec fn is_other(self) -> Seq<bool> {
        Seq::new(self.players.len(), |i: int| self.players[i].id != self.own_player_id)
    }

    /// The ships other than the client's own, in their order.
    pub open spec fn others(self) -> Seq<PlayerView> {
        picked(self.players, self.is_other())
    }

    /// For each ship, the square of its distance from the point `from`.
    pub open spec fn distances(self, from: Position) -> Seq<int> {
        Seq::new(self.players.len(), |i: int| from.dist2(self.players[i].position))
    }

    /// For each ship, the square of its mean speed.
    pub open spec fn restlessness(self) -> Seq<int> {
        Seq::new(self.players.len(), |i: int| mean_speed(self.players[i].trajectory).norm2())
    }

    /// For each ship, what its score lacks of the largest that can be
    /// written down.
    pub open spec fn shortfalls(self) -> Seq<int> {
        Seq::new(self.players.len(), |i: int| u32::MAX - self.players[i].score())
    }

    /// For each ship, what the score that it promises for `after`
    /// milliseconds from now lacks of the largest that can be written down.
    pub open spec fn shortfalls_after(self, after: u64) -> Seq<int> {
        Seq::new(
            self.players.len(),
            |i: int| u32::MAX - projected_score(self.players[i].scores, self.last_update, after),
        )
    }

    /// The other ship that is closest to the client's own; of several, the
    /// first. None where the client's own ship is not known, or no other.
    pub open spec fn closest(self) -> Option<PlayerView> {
        match self.own() {
            Some(me) => ship_at(
                self.players,
                first_least(self.distances(me.position), self.is_other()),
            ),
            None => None,
        }
    }

    /// The other ship that moved the least; of several, the first.
    pub open spec fn least_moving(self) -> Option<PlayerView> {
        ship_at(self.players, first_least(self.restlessness(), self.is_other()))
    }

    /// The other ship with the highest score; of several, the first.
    pub open spec fn highest_score(self) -> Option<PlayerView> {
        ship_at(self.players, first_least(self.shortfalls(), self.is_other()))
    }

    /// The other ship that promises the highest score for `after`
    /// milliseconds from now; of several, the first.
    pub open spec fn highest_score_after(self, after: u64) -> Option<PlayerView> {
        ship_at(self.players, first_least(self.shortfalls_after(after), self.is_other()))
    }

    /// For each ship, whether it is another than the client's own and no
    /// further than `radius` from the point `from`.
    pub open spec fn is_near(self, from: Position, radius: u32) -> Seq<bool> {
        Seq::new(
            self.players.len(),
            |i: int|
                self.players[i].id != self.own_player_id && from.dist2(self.players[i].position)
                    <= radius * radius,
        )
    }

    /// The other ships no further than `radius` from the client's own; none
    /// where the client's own ship is not known.
    pub open spec fn within(self, radius: u32) -> Seq<PlayerView> {
        match self.own() {
            Some(me) => picked(self.players, self.is_near(me.position, radius)),
            None => Seq::empty(),
        }
    }

    /// For each bullet, whether the client's own ship fired it.
    pub open spec fn is_own_bullet(self) -> Seq<bool> {
        Seq::new(self.bullets.len(), |i: int| self.bullets[i].player_id == self.own_player_id)
    }

    /// The bullets that the client's own ship fired.
    pub open spec fn own_bullets(self) -> Seq<Bullet> {
        picked(self.bullets, self.is_own_bullet())
    }

    /// For each bullet, whether another ship than the client's own fired it.
    pub open spec fn is_other_bullet(self) -> Seq<bool> {
        Seq::new(self.bullets.len(), |i: int| self.bullets[i].player_id != self.own_player_id)
    }

    /// The bullets that other ships fired.
    pub open spec fn other_bullets(self) -> Seq<Bullet> {
        picked(self.bullets, self.is_other_bullet())
    }

    /// For each bullet, whether another ship fired it and it hits a ship
    /// that stays at the point `at` within `during` milliseconds.
    pub open spec fn is_threat(self, at: Position, during: u64) -> Seq<bool> {
        Seq::new(
            self.bullets.len(),
            |i: int|
                self.bullets[i].player_id != self.own_player_id && collides_during(
                    at,
                    self.bullets[i],
                    during,
                ),
        )
    }

    /// The bullets of other ships that hit the client's own ship within
    /// `during` milliseconds if it stays where it is; none where the
    /// client's own ship is not known.
    pub open spec fn colliding(self, during: u64) -> Seq<Bullet> {
        match self.own() {
            Some(me) => picked(self.bullets, self.is_threat(me.position, during)),
            None => Seq::empty(),
        }
    }

    /// For each bullet, whether another ship fired it and it is no further
    /// than `radius` from the point `from`.
    pub open spec fn is_near_bullet(self, from: Position, radius: u32) -> Seq<bool> {
        Seq::new(
            self.bullets.len(),
            |i: int|
                self.bullets[i].player_id != self.own_player_id && from.dist2(
                    self.bullets[i].position,
                ) <= radius * radius,
        )
    }

    /// The bullets of other ships no further than `radius` from the
    /// client's own ship; none where the client's own ship is not known.
    pub open spec fn bullets_near(self, radius: u32) -> Seq<Bullet> {
        match self.own() {
            Some(me) => picked(self.bullets, self.is_near_bullet(me.position, radius)),
            None => Seq::empty(),
        }
    }
}

/// The world as a client knows it.
#[derive(Debug)]
pub struct Analyzer {
    own_player_id: u32,
    players: Vec<Player>,
    bullets: Vec<Bullet>,
    last_update: u64,
}

impl View for Analyzer {
    type V = AnalyzerView;

    closed spec fn view(&self) -> AnalyzerView {
        AnalyzerView {
            own_player_id: self.own_player_id,
            players: records_of(self.players@),
            bullets: self.bullets@,
            last_update: self.last_update,
        }
    }
}

impl Default for Analyzer {
    fn default() -> (a: Analyzer)
        ensures
            a@ == AnalyzerView::blank(),
            a.wf(),
    {
        let a = Analyzer {
            own_player_id: 0,
            players: Vec::new(),
            bullets: Vec::new(),
            last_update: 0,
        };
        proof {
            assert(a@.players =~= Seq::empty());
        }
        a
    }
}

/// The place of the first ship of `players` with the id `id`; the length of
/// `players` where there is none.
fn find_record(players: &Vec<Player>, id: u32) -> (place: usize)
    ensures
        place == place_of_key(records_of(players@), record_key(), id),
        place <= players@.len(),
{
    let ghost views = records_of(players@);
    let mut i: usize = 0;
    while i < players.len()
        invariant
            i <= players@.len(),
            views == records_of(players@),
            forall|j: int| 0 <= j < i ==> record_key()(#[trigger] views[j]) != id,
        decreases players@.len() - i,
    {
        if players[i].id == id {
            proof {
                assert(record_key()(views[i as int]) == id);
                lemma_place_of_key_at(views, record_key(), id, i as int);
            }
            return i;
        }
        i += 1;
    }
    proof {
        lemma_place_of_key_at(views, record_key(), id, i as int);
    }
    i
}

/// Enters `record` in the roster.
fn enter(roster: &mut Vec<Player>, record: Player)
    requires
        record@.wf(),
        forall|j: int| 0 <= j < old(roster)@.len() ==> (#[trigger] old(roster)@[j])@.wf(),
        distinct_by(records_of(old(roster)@), record_key()),
    ensures
        records_of(final(roster)@) == entered(records_of(old(roster)@), record@),
        forall|j: int| 0 <= j < final(roster)@.len() ==> (#[trigger] final(roster)@[j])@.wf(),
        distinct_by(records_of(final(roster)@), record_key()),
{
    let ghost before = roster@;
    let ghost views = records_of(roster@);
    let place = find_record(roster, record.id);
    proof {
        lemma_entered_distinct(views, record@);
    }
    if place < roster.len() {
        roster.set(place, record);
        proof {
            assert(records_of(roster@) =~= views.update(place as int, record@));
            assert forall|j: int| 0 <= j < roster@.len() implies (#[trigger] roster@[j])@.wf() by {
                if j != place {
                    assert(roster@[j] == before[j]);
                }
            }
        }
    } else {
        roster.push(record);
        proof {
            assert(records_of(roster@) =~= views.push(record@));
            assert forall|j: int| 0 <= j < roster@.len() implies (#[trigger] roster@[j])@.wf() by {
                if j < before.len() {
                    assert(roster@[j] == before[j]);
                }
            }
        }
    }
}

/// The place of the first of the marked items whose key is the least.
fn argmin(keys: &Vec<u128>, marks: &Vec<bool>) -> (r: Option<usize>)
    requires
        marks@.len() == keys@.len(),
    ensures
        r matches Some(b) ==> first_least(keys@.map_values(|k: u128| k as int), marks@) == Some(
            b as int,
        ) && b < keys@.len(),
        r is None ==> first_least(keys@.map_values(|k: u128| k as int), marks@) is None,
{
    let ghost ints = keys@.map_values(|k: u128| k as int);
    let mut best: Option<usize> = None;
    let mut i: usize = 0;
    while i < keys.len()
        invariant
            i <= keys@.len(),
            marks@.len() == keys@.len(),
            ints == keys@.map_values(|k: u128| k as int),
            best matches Some(b) ==> b < i && first_least(
                ints.take(i as int),
                marks@.take(i as int),
            ) == Some(b as int),
            best is None ==> first_least(ints.take(i as int), marks@.take(i as int)) is None,
        decreases keys@.len() - i,
    {
        proof {
            assert(ints.take(i + 1).drop_last() =~= ints.take(i as int));
            assert(marks@.take(i + 1).drop_last() =~= marks@.take(i as int));
            assert(ints.take(i + 1).last() == keys@[i as int] as int);
            if let Some(b) = best {
                assert(ints.take(i + 1)[b as int] == keys@[b as int] as int);
            }
        }
        if marks[i] {
            match best {
                None => {
                    best = Some(i);
                },
                Some(b) => {
                    if keys[i] < keys[b] {
                        best = Some(i);
                    }
                },
            }
        }
        i += 1;
    }
    proof {
        assert(ints.take(keys@.len() as int) =~= ints);
        assert(marks@.take(keys@.len() as int) =~= marks@);
    }
    best
}

impl Analyzer {
    /// Every ship on record was seen at least once, and no id is on record
    /// twice.
    pub open spec fn wf(&self) -> bool {
        self@.wf()
    }

    #[verifier::type_invariant]
    spec fn inv(self) -> bool {
        &&& forall|i: int| 0 <= i < self.players@.len() ==> (#[trigger] self.players@[i])@.wf()
        &&& distinct_by(records_of(self.players@), record_key())
    }

    /// Every ship on the record of an analyzer was seen at least once, and
    /// no id is on its record twice.
    fn seen(&self)
        ensures
            self.wf(),
            forall|i: int| 0 <= i < self.players@.len() ==> (#[trigger] self.players@[i])@.wf(),
    {
        proof {
            use_type_invariant(self);
            assert forall|i: int| 0 <= i < self@.players.len() implies (
            #[trigger] self@.players[i]).wf() by {
                assert(self.players@[i]@.wf());
            }
        }
    }

    /// Takes in the snapshot that reached the client at the time `time`.
    /// This is to be called at every tick of the client.
    pub fn push_state(&mut self, state: &ClientState, time: u64)
        ensures
            final(self).wf(),
            final(self)@ == old(self)@.pushed(
                state.id,
                state.game_state.players@,
                state.game_state.bullets@,
                state.game_state.scoreboard@,
                time,
            ),
    {
        let ghost before = self@;
        let ghost ships = state.game_state.players@;
        let ghost board = state.game_state.scoreboard@;
        self.seen();
        let mut unclaimed: Vec<Player> = Vec::new();
        std::mem::swap(&mut self.players, &mut unclaimed);
        let mut next: Vec<Player> = Vec::new();
        let mut i: usize = 0;
        proof {
            assert(records_of(next@) =~= Seq::empty());
        }
        while i < state.game_state.players.len()
            invariant
                i <= ships.len(),
                ships == state.game_state.players@,
                board == state.game_state.scoreboard@,
                carried(before.players, ships.take(i as int), board, time) == (Roster {
                    unclaimed: records_of(unclaimed@),
                    next: records_of(next@),
                }),
                forall|j: int| 0 <= j < unclaimed@.len() ==> (#[trigger] unclaimed@[j])@.wf(),
                forall|j: int| 0 <= j < next@.len() ==> (#[trigger] next@[j])@.wf(),
                distinct_by(records_of(next@), record_key()),
            decreases ships.len() - i,
        {
            let ship = &state.game_state.players[i];
            proof {
                assert(ships.take(i + 1).drop_last() =~= ships.take(i as int));
                assert(ships.take(i + 1).last() == *ship);
                lemma_place_of_key(records_of(unclaimed@), record_key(), ship.id);
            }
            let ghost waiting = unclaimed@;
            let ghost so_far = next@;
            let place = find_record(&unclaimed, ship.id);
            if place < unclaimed.len() {
                let mut known = unclaimed.remove(place);
                known.push_state(ship, &state.game_state.scoreboard, time);
                enter(&mut next, known);
                proof {
                    assert(records_of(unclaimed@) =~= records_of(waiting).remove(place as int));
                    assert forall|j: int| 0 <= j < unclaimed@.len() implies (
                    #[trigger] unclaimed@[j])@.wf() by {
                        if j < place {
                            assert(unclaimed@[j] == waiting[j]);
                        } else {
                            assert(unclaimed@[j] == waiting[j + 1]);
                        }
                    }
                }
            } else {
                let fresh = Player::with_state(ship, &state.game_state.scoreboard, time);
                enter(&mut next, fresh);
            }
            i += 1;
        }
        proof {
            assert(ships.take(ships.len() as int) =~= ships);
        }
        let mut shots: Vec<Bullet> = Vec::new();
        let mut k: usize = 0;
        while k < state.game_state.bullets.len()
            invariant
                k <= state.game_state.bullets@.len(),
                shots@ == Seq::new(k as nat, |j: int| Bullet::of(state.game_state.bullets@[j])),
            decreases state.game_state.bullets@.len() - k,
        {
            shots.push(Bullet::new(&state.game_state.bullets[k]));
            proof {
                assert(shots@ =~= Seq::new(
                    (k + 1) as nat,
                    |j: int| Bullet::of(state.game_state.bullets@[j]),
                ));
            }
            k += 1;
        }
        self.own_player_id = state.id;
        self.players = next;
        self.bullets = shots;
        self.last_update = time;
        self.seen();
    }

    /// The time of the latest snapshot.
    pub fn last_update(&self) -> (t: u64)
        ensures
            t == self@.last_update,
    {
        self.last_update
    }

    /// The id of the client's own ship.
    pub fn own_player_id(&self) -> (id: u32)
        ensures
            id == self@.own_player_id,
    {
        self.own_player_id
    }

    /// The first ship with the id `id`.
    pub fn player(&self, id: u32) -> (r: Option<&Player>)
        ensures
            record(r) == self@.player(id),
            r matches Some(p) ==> p@.wf(),
    {
        self.seen();
        let place = find_record(&self.players, id);
        proof {
            lemma_place_of_key(records_of(self.players@), record_key(), id);
        }
        if place < self.players.len() {
            proof {
                assert(self@.players[place as int] == self.players@[place as int]@);
            }
            Some(&self.players[place])
        } else {
            None
        }
    }

    /// The client's own ship. It is missing while the ship is out: then the
    /// client has nothing to decide.
    pub fn own_player(&self) -> (r: Option<&Player>)
        ensures
            record(r) == self@.own(),
            r matches Some(p) ==> p@.wf(),
    {
        self.player(self.own_player_id)
    }

    /// For each ship, whether it is another than the client's own.
    fn mark_others(&self) -> (marks: Vec<bool>)
        ensures
            marks@ == self@.is_other(),
    {
        let mut marks: Vec<bool> = Vec::new();
        let mut i: usize = 0;
        while i < self.players.len()
            invariant
                i <= self.players@.len(),
                marks@ == self@.is_other().take(i as int),
            decreases self.players@.len() - i,
        {
            marks.push(self.players[i].id != self.own_player_id);
            proof {
                assert(marks@ =~= self@.is_other().take(i + 1));
            }
            i += 1;
        }
        proof {
            assert(self@.is_other().take(self.players@.len() as int) =~= self@.is_other());
        }
        marks
    }

    /// The ships whose mark is set, in their order.
    fn pick_players(&self, marks: &Vec<bool>) -> (list: Vec<&Player>)
        requires
            marks@.len() == self@.players.len(),
        ensures
            records(list@) == picked(self@.players, marks@),
    {
        let ghost views = self@.players;
        let mut list: Vec<&Player> = Vec::new();
        let mut i: usize = 0;
        proof {
            assert(records(list@) =~= Seq::empty());
        }
        while i < self.players.len()
            invariant
                i <= self.players@.len(),
                views == self@.players,
                marks@.len() == views.len(),
                records(list@) == picked(views.take(i as int), marks@.take(i as int)),
            decreases self.players@.len() - i,
        {
            proof {
                lemma_picked_step(views, marks@, i as int);
            }
            let ghost so_far = list@;
            if marks[i] {
                list.push(&self.players[i]);
                proof {
                    assert(records(list@) =~= records(so_far).push(views[i as int]));
                }
            }
            i += 1;
        }
        proof {
            assert(views.take(views.len() as int) =~= views);
            assert(marks@.take(views.len() as int) =~= marks@);
        }
        list
    }

    /// The bullets whose mark is set, in their order.
    fn pick_bullets(&self, marks: &Vec<bool>) -> (list: Vec<&Bullet>)
        requires
            marks@.len() == self@.bullets.len(),
        ensures
            bullets_of(list@) == picked(self@.bullets, marks@),
    {
        let ghost shots = self@.bullets;
        let mut list: Vec<&Bullet> = Vec::new();
        let mut i: usize = 0;
        proof {
            assert(bullets_of(list@) =~= Seq::empty());
        }
        while i < self.bullets.len()
            invariant
                i <= self.bullets@.len(),
                shots == self@.bullets,
                marks@.len() == shots.len(),
                bullets_of(list@) == picked(shots.take(i as int), marks@.take(i as int)),
            decreases self.bullets@.len() - i,
        {
            proof {
                lemma_picked_step(shots, marks@, i as int);
            }
            let ghost so_far = list@;
            if marks[i] {
                list.push(&self.bullets[i]);
                proof {
                    assert(bullets_of(list@) =~= bullets_of(so_far).push(shots[i as int]));
                }
            }
            i += 1;
        }
        proof {
            assert(shots.take(shots.len() as int) =~= shots);
            assert(marks@.take(shots.len() as int) =~= marks@);
        }
        list
    }

    /// The ship at the place of the first of the other ships whose key is
    /// the least.
    fn least_of(&self, keys: &Vec<u128>) -> (r: Option<&Player>)
        requires
            keys@.len() == self@.players.len(),
        ensures
            record(r) == ship_at(
                self@.players,
                first_least(keys@.map_values(|k: u128| k as int), self@.is_other()),
            ),
            r matches Some(p) ==> p@.wf(),
    {
        self.seen();
        let marks = self.mark_others();
        match argmin(keys, &marks) {
            Some(b) => {
                proof {
                    assert(self@.players[b as int] == self.players@[b as int]@);
                }
                Some(&self.players[b])
            },
            None => None,
        }
    }

    /// The ships other than the client's own, in their order.
    pub fn other_players(&self) -> (list: Vec<&Player>)
        ensures
            records(list@) == self@.others(),
    {
        let marks = self.mark_others();
        self.pick_players(&marks)
    }

    /// The other ship that is closest to the client's own; of several that
    /// are as close, the first. None where the client's own ship is the only
    /// one, or is not known.
    pub fn player_closest(&self) -> (r: Option<&Player>)
        ensures
            record(r) == self@.closest(),
            r matches Some(p) ==> p@.wf(),
    {
        let from = match self.own_player() {
            Some(me) => me.position,
            None => {
                return None;
            },
        };
        let mut keys: Vec<u128> = Vec::new();
        let mut i: usize = 0;
        while i < self.players.len()
            invariant
                i <= self.players@.len(),
                keys@.len() == i,
                forall|j: int|
                    0 <= j < i ==> #[trigger] keys@[j] == from.dist2(self.players@[j].position),
            decreases self.players@.len() - i,
        {
            keys.push(from.distance_squared(&self.players[i].position));
            i += 1;
        }
        proof {
            assert(keys@.map_values(|k: u128| k as int) =~= self@.distances(from));
        }
        self.least_of(&keys)
    }

    /// The other ship that moved the least, by the mean speed of the legs
    /// on its record; of several, the first. None where the client's own
    /// ship is the only one.
    pub fn player_least_moving(&self) -> (r: Option<&Player>)
        ensures
            record(r) == self@.least_moving(),
            r matches Some(p) ==> p@.wf(),
    {
        let mut keys: Vec<u128> = Vec::new();
        let mut i: usize = 0;
        while i < self.players.len()
            invariant
                i <= self.players@.len(),
                keys@.len() == i,
                forall|j: int|
                    0 <= j < i ==> #[trigger] keys@[j] == mean_speed(
                        self.players@[j].trajectory@,
                    ).norm2(),
            decreases self.players@.len() - i,
        {
            keys.push(self.players[i].trajectory.ave_abs_velocity().length_squared() as u128);
            i += 1;
        }
        proof {
            assert(keys@.map_values(|k: u128| k as int) =~= self@.restlessness());
        }
        self.least_of(&keys)
    }

    /// The other ship with the highest score; of several, the first. None
    /// where the client's own ship is the only one.
    pub fn player_highest_score(&self) -> (r: Option<&Player>)
        ensures
            record(r) == self@.highest_score(),
            r matches Some(p) ==> p@.wf(),
    {
        self.seen();
        let mut keys: Vec<u128> = Vec::new();
        let mut i: usize = 0;
        while i < self.players.len()
            invariant
                self.wf(),
                i <= self.players@.len(),
                keys@.len() == i,
                forall|j: int|
                    0 <= j < i ==> #[trigger] keys@[j] == u32::MAX - self.players@[j]@.score(),
            decreases self.players@.len() - i,
        {
            proof {
                assert(self@.players[i as int].wf());
            }
            keys.push((u32::MAX - self.players[i].score()) as u128);
            i += 1;
        }
        proof {
            assert(keys@.map_values(|k: u128| k as int) =~= self@.shortfalls());
        }
        self.least_of(&keys)
    }

    /// The other ship that promises the highest score for `duration`
    /// milliseconds from the latest snapshot, by what it gained of late; of
    /// several, the first. None where the client's own ship is the only one.
    pub fn player_highest_score_after(&self, duration: u64) -> (r: Option<&Player>)
        ensures
            record(r) == self@.highest_score_after(duration),
            r matches Some(p) ==> p@.wf(),
    {
        self.seen();
        let mut keys: Vec<u128> = Vec::new();
        let mut i: usize = 0;
        while i < self.players.len()
            invariant
                self.wf(),
                i <= self.players@.len(),
                keys@.len() == i,
                forall|j: int|
                    0 <= j < i ==> #[trigger] keys@[j] == u32::MAX - projected_score(
                        self.players@[j]@.scores,
                        self.last_update,
                        duration,
                    ),
            decreases self.players@.len() - i,
        {
            proof {
                assert(self@.players[i as int].wf());
            }
            let promised = self.players[i].score_history.project(self.last_update, duration);
            keys.push((u32::MAX - promised) as u128);
            i += 1;
        }
        proof {
            assert(keys@.map_values(|k: u128| k as int) =~= self@.shortfalls_after(duration));
        }
        self.least_of(&keys)
    }

    /// The other ships that are no further than `radius` from the client's
    /// own, in their order; none where the client's own ship is not known.
    pub fn players_within(&self, radius: u32) -> (list: Vec<&Player>)
        ensures
            records(list@) == self@.within(radius),
    {
        let from = match self.own_player() {
            Some(me) => me.position,
            None => {
                let none: Vec<&Player> = Vec::new();
                proof {
                    assert(records(none@) =~= Seq::empty());
                }
                return none;
            },
        };
        let reach: u128 = square(radius);
        let mut marks: Vec<bool> = Vec::new();
        let mut i: usize = 0;
        while i < self.players.len()
            invariant
                i <= self.players@.len(),
                reach == radius * radius,
                marks@ == self@.is_near(from, radius).take(i as int),
            decreases self.players@.len() - i,
        {
            let p = &self.players[i];
            marks.push(p.id != self.own_player_id && from.distance_squared(&p.position) <= reach);
            proof {
                assert(marks@ =~= self@.is_near(from, radius).take(i + 1));
            }
            i += 1;
        }
        proof {
            assert(self@.is_near(from, radius).take(self.players@.len() as int)
                =~= self@.is_near(from, radius));
        }
        self.pick_players(&marks)
    }

    /// The bullets that the client's own ship fired and that are in flight.
    pub fn own_bullets(&self) -> (list: Vec<&Bullet>)
        ensures
            bullets_of(list@) == self@.own_bullets(),
    {
        let mut marks: Vec<bool> = Vec::new();
        let mut i: usize = 0;
        while i < self.bullets.len()
            invariant
                i <= self.bullets@.len(),
                marks@ == self@.is_own_bullet().take(i as int),
            decreases self.bullets@.len() - i,
        {
            marks.push(self.bullets[i].player_id == self.own_player_id);
            proof {
                assert(marks@ =~= self@.is_own_bullet().take(i + 1));
            }
            i += 1;
        }
        proof {
            assert(self@.is_own_bullet().take(self.bullets@.len() as int)
                =~= self@.is_own_bullet());
        }
        self.pick_bullets(&marks)
    }

    /// The bullets that other ships fired and that are in flight.
    pub fn other_bullets(&self) -> (list: Vec<&Bullet>)
        ensures
            bullets_of(list@) == self@.other_bullets(),
    {
        let mut marks: Vec<bool> = Vec::new();
        let mut i: usize = 0;
        while i < self.bullets.len()
            invariant
                i <= self.bullets@.len(),
                marks@ == self@.is_other_bullet().take(i as int),
            decreases self.bullets@.len() - i,
        {
            marks.push(self.bullets[i].player_id != self.own_player_id);
            proof {
                assert(marks@ =~= self@.is_other_bullet().take(i + 1));
            }
            i += 1;
        }
        proof {
            assert(self@.is_other_bullet().take(self.bullets@.len() as int)
                =~= self@.is_other_bullet());
        }
        self.pick_bullets(&marks)
    }

    /// The bullets of other ships that hit the client's own ship within
    /// `during` milliseconds if it stays where it is; none where the
    /// client's own ship is not known.
    pub fn bullets_colliding(&self, during: u64) -> (list: Vec<&Bullet>)
        ensures
            bullets_of(list@) == self@.colliding(during),
    {
        let me = match self.own_player() {
            Some(me) => me,
            None => {
                let none: Vec<&Bullet> = Vec::new();
                proof {
                    assert(bullets_of(none@) =~= Seq::empty());
                }
                return none;
            },
        };
        let ghost at = me.position;
        let mut marks: Vec<bool> = Vec::new();
        let mut i: usize = 0;
        while i < self.bullets.len()
            invariant
                i <= self.bullets@.len(),
                at == me.position,
                marks@ == self@.is_threat(at, during).take(i as int),
            decreases self.bullets@.len() - i,
        {
            let b = &self.bullets[i];
            marks.push(b.player_id != self.own_player_id && me.is_colliding_during(b, during));
            proof {
                assert(marks@ =~= self@.is_threat(at, during).take(i + 1));
            }
            i += 1;
        }
        proof {
            assert(self@.is_threat(at, during).take(self.bullets@.len() as int)
                =~= self@.is_threat(at, during));
        }
        self.pick_bullets(&marks)
    }

    /// The bullets of other ships that are no further than `radius` from the
    /// client's own ship; none where the client's own ship is not known.
    pub fn bullets_within(&self, radius: u32) -> (list: Vec<&Bullet>)
        ensures
            bullets_of(list@) == self@.bullets_near(radius),
    {
        let from = match self.own_player() {
            Some(me) => me.position,
            None => {
                let none: Vec<&Bullet> = Vec::new();
                proof {
                    assert(bullets_of(none@) =~= Seq::empty());
                }
                return none;
            },
        };
        let reach: u128 = square(radius);
        let mut marks: Vec<bool> = Vec::new();
        let mut i: usize = 0;
        while i < self.bullets.len()
            invariant
                i <= self.bullets@.len(),
                reach == radius * radius,
                marks@ == self@.is_near_bullet(from, radius).take(i as int),
            decreases self.bullets@.len() - i,
        {
            let b = &self.bullets[i];
            marks.push(
                b.player_id != self.own_player_id && from.distance_squared(&b.position) <= reach,
            );
            proof {
                assert(marks@ =~= self@.is_near_bullet(from, radius).take(i + 1));
            }
            i += 1;
        }
        proof {
            assert(self@.is_near_bullet(from, radius).take(self.bullets@.len() as int)
                =~= self@.is_near_bullet(from, radius));
        }
        self.pick_bullets(&marks)
    }
}

/// The square of a length.
fn square(radius: u32) -> (r: u128)
    ensures
        r == radius * radius,
{
    let wide: u128 = radius as u128;
    assert(wide * wide <= 0xffff_ffff * 0xffff_ffff) by (nonlinear_arith)
        requires
            0 <= wide <= 0xffff_ffff,
    ;
    wide * wide
}

} // verus!
