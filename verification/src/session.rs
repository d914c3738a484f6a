//! Who is connected to the arena: which connection steers which ship, who
//! only watches, and what each of them is to be told. The connections
//! themselves are kept elsewhere; here they are numbers.

use crate::game::GameLoopCommand;
use crate::models::GameCommand;
use crate::picking::{
    distinct_by, has_key, lemma_picked_distinct, lemma_place_of_key, lemma_place_of_key_at,
    picked, place_of_key,
};
use vstd::prelude::*;
use vstd::string::StringExecFns;

verus! {

/// Connections that make this many commands a second are heard; what comes
/// faster is dropped.
pub const ACTIONS_PER_SECOND: u32 = 20;

/// The key under which those connect who only watch.
pub open spec fn spectator_key() -> Seq<char> {
    "SPECTATOR"@
}

/// The connection that steers with a key.
#[derive(Debug)]
pub struct Seat {
    pub key: String,
    pub connection: u64,
}

/// The ship that a key steers.
#[derive(Debug)]
pub struct Member {
    pub key: String,
    pub player_id: u32,
}

/// The name under which a ship is shown.
#[derive(Debug)]
pub struct TeamName {
    pub player_id: u32,
    pub name: String,
}

/// A seat, as contracts speak of it.
pub struct SeatView {
    pub key: Seq<char>,
    pub connection: u64,
}

/// A member, as contracts speak of it.
pub struct MemberView {
    pub key: Seq<char>,
    pub player_id: u32,
}

/// A team name, as contracts speak of it.
pub struct TeamNameView {
    pub player_id: u32,
    pub name: Seq<char>,
}

impl View for Seat {
    type V = SeatView;

    open spec fn view(&self) -> SeatView {
        SeatView { key: self.key@, connection: self.connection }
    }
}

impl View for Member {
    type V = MemberView;

    open spec fn view(&self) -> MemberView {
        MemberView { key: self.key@, player_id: self.player_id }
    }
}

impl View for TeamName {
    type V = TeamNameView;

    open spec fn view(&self) -> TeamNameView {
        TeamNameView { player_id: self.player_id, name: self.name@ }
    }
}

/// What is asked of a connection that is to go.
#[derive(Clone, Copy, Debug, PartialEq, Eq, Structural)]
pub struct ClientStop {}

/// A command as it comes in, under the key of who sent it.
#[derive(Debug)]
pub struct PlayerGameCommand {
    pub api_key: String,
    pub cmd: GameCommand,
}

/// What happens to a connection.
#[derive(Debug)]
pub enum SocketEvent {
    /// The connection opened, with a key and a team name.
    Join(String, String, u64),
    /// The connection that had opened with the key closed.
    Leave(String, u64),
}

/// What is to be done after an event.
#[derive(Clone, Copy, Debug, PartialEq, Eq, Structural)]
pub enum Notice {
    /// Close the connection: another took its place.
    Stop(u64, ClientStop),
    /// Tell the connection the id of its ship.
    Id { to: u64, player_id: u32 },
    /// Send the connection the names of all teams.
    TeamNames { to: u64 },
    /// Hand the command to the arena before its next tick.
    Game(GameLoopCommand),
}

/// The key of a seat.
pub open spec fn seat_key() -> spec_fn(SeatView) -> Seq<char> {
    |s: SeatView| s.key
}

/// The key of a member.
pub open spec fn member_key() -> spec_fn(MemberView) -> Seq<char> {
    |m: MemberView| m.key
}

/// The ship of a member.
pub open spec fn member_ship() -> spec_fn(MemberView) -> u32 {
    |m: MemberView| m.player_id
}

/// The key of a team name: the id of the ship.
pub open spec fn name_key() -> spec_fn(TeamNameView) -> u32 {
    |n: TeamNameView| n.player_id
}

/// The key of a spectator: the connection itself.
pub open spec fn watcher_key() -> spec_fn(u64) -> u64 {
    |c: u64| c
}

/// The seats as contracts speak of them.
pub open spec fn seat_views(seats: Seq<Seat>) -> Seq<SeatView> {
    Seq::new(seats.len(), |i: int| seats[i]@)
}

/// The members as contracts speak of them.
pub open spec fn member_views(members: Seq<Member>) -> Seq<MemberView> {
    Seq::new(members.len(), |i: int| members[i]@)
}

/// The team names as contracts speak of them.
pub open spec fn name_views(names: Seq<TeamName>) -> Seq<TeamNameView> {
    Seq::new(names.len(), |i: int| names[i]@)
}

/// For each of `spectators`, whether it is another than `connection`.
pub open spec fn others_than(spectators: Seq<u64>, connection: u64) -> Seq<bool> {
    Seq::new(spectators.len(), |i: int| spectators[i] != connection)
}

/// The connections that are sent what all are sent: those that steer, in
/// the order of their seats, and then those that watch.
pub open spec fn recipients_of(seats: Seq<SeatView>, spectators: Seq<u64>) -> Seq<u64> {
    Seq::new(seats.len(), |i: int| seats[i].connection) + spectators
}

/// The notices that send each of `to` the names of all teams.
pub open spec fn team_name_notices(to: Seq<u64>) -> Seq<Notice> {
    Seq::new(to.len(), |i: int| Notice::TeamNames { to: to[i] })
}

/// The team names after the ship `id` was given the name `name`.
pub open spec fn named(names: Seq<TeamNameView>, id: u32, name: Seq<char>) -> Seq<TeamNameView> {
    let place = place_of_key(names, name_key(), id);
    if place < names.len() {
        names.update(place, TeamNameView { player_id: id, name })
    } else {
        names.push(TeamNameView { player_id: id, name })
    }
}

/// What the session is after an event, and the notices that the event
/// calls for, in their order.
pub struct Handled {
    pub state: GameActorView,
    pub notices: Seq<Notice>,
}

/// The session, as contracts speak of it.
pub struct GameActorView {
    pub seats: Seq<SeatView>,
    pub spectators: Seq<u64>,
    pub team_names: Seq<TeamNameView>,
    pub members: Seq<MemberView>,
    pub next_player_id: u32,
}

impl GameActorView {
    /// The session that nobody has connected to.
    pub open spec fn empty() -> GameActorView {
        GameActorView {
            seats: Seq::empty(),
            spectators: Seq::empty(),
            team_names: Seq::empty(),
            members: Seq::empty(),
            next_player_id: 0,
        }
    }

    /// No key has two seats, no key steers two ships and no ship is steered
    /// by two keys, no connection watches twice, and no ship has two names.
    pub open spec fn wf(self) -> bool {
        &&& distinct_by(self.seats, seat_key())
        &&& distinct_by(self.members, member_key())
        &&& distinct_by(self.members, member_ship())
        &&& forall|m: int|
            0 <= m < self.members.len() ==> (#[trigger] self.members[m]).player_id
                < self.next_player_id
        &&& distinct_by(self.spectators, watcher_key())
        &&& distinct_by(self.team_names, name_key())
    }

    /// The session after a connection joined with a key and a team name.
    ///
    /// One that joins to watch is sent the team names and watches from then
    /// on. One that joins to steer takes the seat of its key; the
    /// connection that had the seat is closed. A key that joins for the
    /// first time is given the next ship, and the arena is told that the
    /// ship joined; a key that was there before steers the ship it had. The
    /// connection is told the id of its ship, the ship is given the team
    /// name, and the names of all teams are sent to all. Where no id is left
    /// for a new ship, the connection is closed.
    pub open spec fn joined(self, key: Seq<char>, name: Seq<char>, connection: u64) -> Handled {
        if key == spectator_key() {
            Handled {
                state: GameActorView {
                    spectators: if has_key(self.spectators, watcher_key(), connection) {
                        self.spectators
                    } else {
                        self.spectators.push(connection)
                    },
                    ..self
                },
                notices: seq![Notice::TeamNames { to: connection }],
            }
        } else {
            let member = place_of_key(self.members, member_key(), key);
            let known = member < self.members.len();
            if !known && self.next_player_id == u32::MAX {
                Handled { state: self, notices: seq![Notice::Stop(connection, ClientStop {  })] }
            } else {
                let seat = place_of_key(self.seats, seat_key(), key);
                let taken = seat < self.seats.len();
                let seats = if taken {
                    self.seats.update(seat, SeatView { key, connection })
                } else {
                    self.seats.push(SeatView { key, connection })
                };
                let id = if known {
                    self.members[member].player_id
                } else {
                    self.next_player_id
                };
                Handled {
                    state: GameActorView {
                        seats,
                        members: if known {
                            self.members
                        } else {
                            self.members.push(MemberView { key, player_id: id })
                        },
                        team_names: named(self.team_names, id, name),
                        next_player_id: if known {
                            self.next_player_id
                        } else {
                            (self.next_player_id + 1) as u32
                        },
                        ..self
                    },
                    notices: (if taken {
                        seq![Notice::Stop(self.seats[seat].connection, ClientStop {  })]
                    } else {
                        Seq::empty()
                    }) + (if known {
                        Seq::empty()
                    } else {
                        seq![Notice::Game(GameLoopCommand::PlayerJoined(id))]
                    }) + seq![Notice::Id { to: connection, player_id: id }] + team_name_notices(
                        recipients_of(seats, self.spectators),
                    ),
                }
            }
        }
    }

    /// The session after the connection that had joined with a key left.
    ///
    /// One that watched no longer watches. One that steered gives up its
    /// seat, and the arena is told that its ship left; but a connection
    /// whose seat another has taken since leaves nothing behind.
    pub open spec fn left(self, key: Seq<char>, connection: u64) -> Handled {
        if key == spectator_key() {
            Handled {
                state: GameActorView {
                    spectators: picked(self.spectators, others_than(self.spectators, connection)),
                    ..self
                },
                notices: Seq::empty(),
            }
        } else {
            let seat = place_of_key(self.seats, seat_key(), key);
            if seat < self.seats.len() && self.seats[seat].connection == connection {
                let member = place_of_key(self.members, member_key(), key);
                Handled {
                    state: GameActorView { seats: self.seats.remove(seat), ..self },
                    notices: if member < self.members.len() {
                        seq![
                            Notice::Game(
                                GameLoopCommand::PlayerLeft(self.members[member].player_id),
                            ),
                        ]
                    } else {
                        Seq::empty()
                    },
                }
            } else {
                Handled { state: self, notices: Seq::empty() }
            }
        }
    }

    /// What the arena is handed for the command `cmd` that came in under
    /// `key`: the command for the ship of the key, or nothing where the key
    /// steers no ship.
    pub open spec fn routed(self, key: Seq<char>, cmd: GameCommand) -> Option<GameLoopCommand> {
        let member = place_of_key(self.members, member_key(), key);
        if member < self.members.len() {
            Some(GameLoopCommand::GameCommand(self.members[member].player_id, cmd))
        } else {
            None
        }
    }
}

/// What becomes of a message that a connection sent under `api_key`: it is
/// passed on as a command where the rate limit admitted it and a command
/// could be read from it, and is dropped otherwise.
pub fn pass_on(api_key: &String, admitted: bool, parsed: Option<GameCommand>) -> (r: Option<
    PlayerGameCommand,
>)
    ensures
        r is Some <==> admitted && parsed is Some,
        r matches Some(msg) ==> msg.api_key@ == api_key@ && Some(msg.cmd) == parsed,
{
    match parsed {
        Some(cmd) => {
            if admitted {
                Some(PlayerGameCommand { api_key: api_key.clone(), cmd })
            } else {
                None
            }
        },
        None => None,
    }
}

/// The session: who steers, who watches, and the ships and names that go
/// with the keys.
#[derive(Debug)]
pub struct GameActor {
    connections: Vec<Seat>,
    spectators: Vec<u64>,
    team_names: Vec<TeamName>,
    player_id_counter: u32,
    api_key_to_player_id: Vec<Member>,
}

impl View for GameActor {
    type V = GameActorView;

    closed spec fn view(&self) -> GameActorView {
        GameActorView {
            seats: seat_views(self.connections@),
            spectators: self.spectators@,
            team_names: name_views(self.team_names@),
            members: member_views(self.api_key_to_player_id@),
            next_player_id: self.player_id_counter,
        }
    }
}

/// The place of the seat of `key`; the number of seats where it has none.
fn find_seat(seats: &Vec<Seat>, key: &String) -> (place: usize)
    ensures
        place == place_of_key(seat_views(seats@), seat_key(), key@),
        place <= seats@.len(),
{
    let ghost views = seat_views(seats@);
    let mut i: usize = 0;
    while i < seats.len()
        invariant
            i <= seats@.len(),
            views == seat_views(seats@),
            forall|j: int| 0 <= j < i ==> seat_key()(#[trigger] views[j]) != key@,
        decreases seats@.len() - i,
    {
        if seats[i].key == *key {
            proof {
                assert(seat_key()(views[i as int]) == key@);
                lemma_place_of_key_at(views, seat_key(), key@, i as int);
            }
            return i;
        }
        i += 1;
    }
    proof {
        lemma_place_of_key_at(views, seat_key(), key@, i as int);
    }
    i
}

/// The place of the member with `key`; the number of members where there
/// is none.
fn find_member(members: &Vec<Member>, key: &String) -> (place: usize)
    ensures
        place == place_of_key(member_views(members@), member_key(), key@),
        place <= members@.len(),
{
    let ghost views = member_views(members@);
    let mut i: usize = 0;
    while i < members.len()
        invariant
            i <= members@.len(),
            views == member_views(members@),
            forall|j: int| 0 <= j < i ==> member_key()(#[trigger] views[j]) != key@,
        decreases members@.len() - i,
    {
        if members[i].key == *key {
            proof {
                assert(member_key()(views[i as int]) == key@);
                lemma_place_of_key_at(views, member_key(), key@, i as int);
            }
            return i;
        }
        i += 1;
    }
    proof {
        lemma_place_of_key_at(views, member_key(), key@, i as int);
    }
    i
}

/// Gives the ship `id` the name `name`.
fn name_team(names: &mut Vec<TeamName>, id: u32, name: String)
    ensures
        name_views(final(names)@) == named(name_views(old(names)@), id, name@),
{
    let ghost views = name_views(names@);
    let mut i: usize = 0;
    while i < names.len()
        invariant
            i <= names@.len(),
            names@ == old(names)@,
            views == name_views(names@),
            forall|j: int| 0 <= j < i ==> name_key()(#[trigger] views[j]) != id,
        decreases names@.len() - i,
    {
        if names[i].player_id == id {
            proof {
                assert(name_key()(views[i as int]) == id);
                lemma_place_of_key_at(views, name_key(), id, i as int);
            }
            names.set(i, TeamName { player_id: id, name });
            proof {
                assert(name_views(names@) =~= views.update(
                    i as int,
                    TeamNameView { player_id: id, name: name@ },
                ));
            }
            return ;
        }
        i += 1;
    }
    proof {
        lemma_place_of_key_at(views, name_key(), id, i as int);
    }
    names.push(TeamName { player_id: id, name });
    proof {
        assert(name_views(names@) =~= views.push(TeamNameView { player_id: id, name: name@ }));
    }
}

/// Whether `connection` is among those that watch.
fn watches(spectators: &Vec<u64>, connection: u64) -> (r: bool)
    ensures
        r == has_key(spectators@, watcher_key(), connection),
{
    let mut i: usize = 0;
    while i < spectators.len()
        invariant
            i <= spectators@.len(),
            forall|j: int| 0 <= j < i ==> watcher_key()(#[trigger] spectators@[j]) != connection,
        decreases spectators@.len() - i,
    {
        if spectators[i] == connection {
            proof {
                assert(watcher_key()(spectators@[i as int]) == connection);
            }
            return true;
        }
        i += 1;
    }
    false
}

impl GameActor {
    /// No key has two seats, no key steers two ships and no ship is steered
    /// by two keys, no connection watches twice, and no ship has two names.
    pub open spec fn wf(&self) -> bool {
        self@.wf()
    }

    /// The session that nobody has connected to.
    pub fn new() -> (actor: GameActor)
        ensures
            actor@ == GameActorView::empty(),
            actor.wf(),
    {
        let actor = GameActor {
            connections: Vec::new(),
            spectators: Vec::new(),
            team_names: Vec::new(),
            player_id_counter: 0,
            api_key_to_player_id: Vec::new(),
        };
        proof {
            assert(actor@.seats =~= Seq::empty());
            assert(actor@.team_names =~= Seq::empty());
            assert(actor@.members =~= Seq::empty());
        }
        actor
    }

    /// The connections that every snapshot of the arena is sent to: those
    /// that steer, and then those that watch.
    pub fn recipients(&self) -> (to: Vec<u64>)
        ensures
            to@ == recipients_of(self@.seats, self@.spectators),
    {
        let mut to: Vec<u64> = Vec::new();
        let mut i: usize = 0;
        while i < self.connections.len()
            invariant
                i <= self.connections@.len(),
                to@ == Seq::new(i as nat, |j: int| self@.seats[j].connection),
            decreases self.connections@.len() - i,
        {
            to.push(self.connections[i].connection);
            proof {
                assert(to@ =~= Seq::new((i + 1) as nat, |j: int| self@.seats[j].connection));
            }
            i += 1;
        }
        let ghost steering = to@;
        let mut k: usize = 0;
        while k < self.spectators.len()
            invariant
                k <= self.spectators@.len(),
                to@ == steering + self.spectators@.take(k as int),
            decreases self.spectators@.len() - k,
        {
            to.push(self.spectators[k]);
            proof {
                assert(to@ =~= steering + self.spectators@.take(k + 1));
            }
            k += 1;
        }
        proof {
            assert(self.spectators@.take(self.spectators@.len() as int) =~= self.spectators@);
            assert(steering =~= Seq::new(self@.seats.len(), |j: int| self@.seats[j].connection));
        }
        to
    }

    /// The name of each ship.
    pub fn team_names(&self) -> (names: &Vec<TeamName>)
        ensures
            name_views(names@) == self@.team_names,
    {
        &self.team_names
    }

    /// What the arena is handed for a command that came in.
    pub fn handle_command(&self, msg: &PlayerGameCommand) -> (r: Option<GameLoopCommand>)
        ensures
            r == self@.routed(msg.api_key@, msg.cmd),
    {
        let member = find_member(&self.api_key_to_player_id, &msg.api_key);
        if member < self.api_key_to_player_id.len() {
            Some(GameLoopCommand::GameCommand(self.api_key_to_player_id[member].player_id, msg.cmd))
        } else {
            None
        }
    }

    /// Takes in what happened to a connection, and says what is to be done
    /// about it.
    pub fn handle(&mut self, msg: SocketEvent) -> (notices: Vec<Notice>)
        ensures
            msg matches SocketEvent::Join(key, name, connection) ==> (Handled {
                state: final(self)@,
                notices: notices@,
            }) == old(self)@.joined(key@, name@, connection),
            msg matches SocketEvent::Leave(key, connection) ==> (Handled {
                state: final(self)@,
                notices: notices@,
            }) == old(self)@.left(key@, connection),
            old(self).wf() ==> final(self).wf(),
    {
        match msg {
            SocketEvent::Join(key, name, connection) => self.join(key, name, connection),
            SocketEvent::Leave(key, connection) => self.leave(&key, connection),
        }
    }

    /// Takes in that a connection joined.
    fn join(&mut self, key: String, name: String, connection: u64) -> (notices: Vec<Notice>)
        ensures
            (Handled { state: final(self)@, notices: notices@ }) == old(self)@.joined(
                key@,
                name@,
                connection,
            ),
            old(self).wf() ==> final(self).wf(),
    {
        let ghost before = self@;
        proof {
            if before.wf() {
                lemma_joined_wf(before, key@, name@, connection);
            }
        }
        let mut notices: Vec<Notice> = Vec::new();
        let spectator = String::from_str("SPECTATOR");
        if key == spectator {
            if !watches(&self.spectators, connection) {
                self.spectators.push(connection);
            }
            notices.push(Notice::TeamNames { to: connection });
            proof {
                assert(notices@ =~= seq![Notice::TeamNames { to: connection }]);
            }
            return notices;
        }
        let member = find_member(&self.api_key_to_player_id, &key);
        let known = member < self.api_key_to_player_id.len();
        if !known && self.player_id_counter == u32::MAX {
            notices.push(Notice::Stop(connection, ClientStop {  }));
            proof {
                assert(notices@ =~= seq![Notice::Stop(connection, ClientStop {  })]);
            }
            return notices;
        }
        let seat = find_seat(&self.connections, &key);
        if seat < self.connections.len() {
            notices.push(Notice::Stop(self.connections[seat].connection, ClientStop {  }));
            self.connections.set(seat, Seat { key: key.clone(), connection });
            proof {
                assert(self@.seats =~= before.seats.update(
                    seat as int,
                    SeatView { key: key@, connection },
                ));
            }
        } else {
            self.connections.push(Seat { key: key.clone(), connection });
            proof {
                assert(self@.seats =~= before.seats.push(SeatView { key: key@, connection }));
            }
        }
        let id = if known {
            self.api_key_to_player_id[member].player_id
        } else {
            let id = self.player_id_counter;
            self.player_id_counter += 1;
            self.api_key_to_player_id.push(Member { key, player_id: id });
            notices.push(Notice::Game(GameLoopCommand::PlayerJoined(id)));
            proof {
                assert(self@.members =~= before.members.push(
                    MemberView { key: key@, player_id: id },
                ));
            }
            id
        };
        notices.push(Notice::Id { to: connection, player_id: id });
        name_team(&mut self.team_names, id, name);
        let ghost first = notices@;
        let to = self.recipients();
        let mut i: usize = 0;
        while i < to.len()
            invariant
                i <= to@.len(),
                notices@ == first + team_name_notices(to@.take(i as int)),
            decreases to@.len() - i,
        {
            notices.push(Notice::TeamNames { to: to[i] });
            proof {
                assert(notices@ =~= first + team_name_notices(to@.take(i + 1)));
            }
            i += 1;
        }
        proof {
            assert(to@.take(to@.len() as int) =~= to@);
            let expected = before.joined(key@, name@, connection);
            assert(self@.seats == expected.state.seats);
            assert(self@.members =~= expected.state.members);
            assert(notices@ =~= expected.notices);
        }
        notices
    }

    /// Takes in that a connection left.
    fn leave(&mut self, key: &String, connection: u64) -> (notices: Vec<Notice>)
        ensures
            (Handled { state: final(self)@, notices: notices@ }) == old(self)@.left(
                key@,
                connection,
            ),
            old(self).wf() ==> final(self).wf(),
    {
        let ghost before = self@;
        proof {
            if before.wf() {
                lemma_left_wf(before, key@, connection);
            }
        }
        let mut notices: Vec<Notice> = Vec::new();
        let spectator = String::from_str("SPECTATOR");
        if *key == spectator {
            let ghost marks = others_than(self.spectators@, connection);
            let mut kept: Vec<u64> = Vec::new();
            let mut i: usize = 0;
            while i < self.spectators.len()
                invariant
                    i <= self.spectators@.len(),
                    self@ == before,
                    marks == others_than(self.spectators@, connection),
                    kept@ == picked(self.spectators@.take(i as int), marks.take(i as int)),
                decreases self.spectators@.len() - i,
            {
                proof {
                    crate::picking::lemma_picked_step(self.spectators@, marks, i as int);
                }
                if self.spectators[i] != connection {
                    kept.push(self.spectators[i]);
                }
                i += 1;
            }
            proof {
                assert(self.spectators@.take(self.spectators@.len() as int) =~= self.spectators@);
                assert(marks.take(self.spectators@.len() as int) =~= marks);
            }
            self.spectators = kept;
            proof {
                assert(notices@ =~= Seq::empty());
            }
            return notices;
        }
        let seat = find_seat(&self.connections, key);
        if seat < self.connections.len() && self.connections[seat].connection == connection {
            let member = find_member(&self.api_key_to_player_id, key);
            if member < self.api_key_to_player_id.len() {
                notices.push(
                    Notice::Game(
                        GameLoopCommand::PlayerLeft(self.api_key_to_player_id[member].player_id),
                    ),
                );
            }
            let _ = self.connections.remove(seat);
            proof {
                assert(self@.seats =~= before.seats.remove(seat as int));
                assert(notices@ =~= before.left(key@, connection).notices);
            }
        }
        notices
    }
}

/// A key steers the same ship for good: whatever joins or leaves, a key that
/// steers a ship steers that ship afterwards.
pub proof fn lemma_ship_of_a_key_stays(
    v: GameActorView,
    key: Seq<char>,
    name: Seq<char>,
    connection: u64,
    m: int,
)
    requires
        0 <= m < v.members.len(),
    ensures
        m < v.joined(key, name, connection).state.members.len(),
        v.joined(key, name, connection).state.members[m] == v.members[m],
        v.left(key, connection).state.members == v.members,
{
}

/// An event leaves the session as it should be: with one seat and one ship
/// for a key at most, one key for a ship, each connection watching once at
/// most, and one name for a ship.
pub proof fn lemma_handled_wf(
    v: GameActorView,
    key: Seq<char>,
    name: Seq<char>,
    connection: u64,
)
    requires
        v.wf(),
    ensures
        v.joined(key, name, connection).state.wf(),
        v.left(key, connection).state.wf(),
{
    lemma_joined_wf(v, key, name, connection);
    lemma_left_wf(v, key, connection);
}

/// Naming a ship leaves one name for a ship.
proof fn lemma_named_distinct(names: Seq<TeamNameView>, id: u32, name: Seq<char>)
    requires
        distinct_by(names, name_key()),
    ensures
        distinct_by(named(names, id, name), name_key()),
{
    lemma_place_of_key(names, name_key(), id);
    let place = place_of_key(names, name_key(), id);
    let after = named(names, id, name);
    assert forall|a: int, b: int| 0 <= a < b < after.len() implies name_key()(
        #[trigger] after[a],
    ) != name_key()(#[trigger] after[b]) by {
        if place < names.len() {
            assert(name_key()(names[a]) != name_key()(names[b]));
            assert(name_key()(names[place]) == id);
        } else if b < names.len() {
            assert(name_key()(names[a]) != name_key()(names[b]));
        } else {
            assert(name_key()(names[a]) != id);
        }
    }
}

/// A connection that joins leaves the session as it should be.
proof fn lemma_joined_wf(v: GameActorView, key: Seq<char>, name: Seq<char>, connection: u64)
    requires
        v.wf(),
    ensures
        v.joined(key, name, connection).state.wf(),
{
    lemma_place_of_key(v.seats, seat_key(), key);
    lemma_place_of_key(v.members, member_key(), key);
    let after = v.joined(key, name, connection).state;
    assert forall|a: int, b: int| 0 <= a < b < after.seats.len() implies seat_key()(
        #[trigger] after.seats[a],
    ) != seat_key()(#[trigger] after.seats[b]) by {
        if b < v.seats.len() {
            assert(seat_key()(v.seats[a]) != seat_key()(v.seats[b]));
        } else {
            assert(seat_key()(v.seats[a]) != key);
        }
    }
    assert forall|a: int, b: int| 0 <= a < b < after.members.len() implies member_key()(
        #[trigger] after.members[a],
    ) != member_key()(#[trigger] after.members[b]) by {
        if b < v.members.len() {
            assert(member_key()(v.members[a]) != member_key()(v.members[b]));
        } else {
            assert(member_key()(v.members[a]) != key);
        }
    }
    assert forall|a: int, b: int| 0 <= a < b < after.members.len() implies member_ship()(
        #[trigger] after.members[a],
    ) != member_ship()(#[trigger] after.members[b]) by {
        if b < v.members.len() {
            assert(member_ship()(v.members[a]) != member_ship()(v.members[b]));
        } else {
            assert(v.members[a].player_id < v.next_player_id);
        }
    }
    assert forall|m: int| 0 <= m < after.members.len() implies (
    #[trigger] after.members[m]).player_id < after.next_player_id by {
        if m < v.members.len() {
            assert(v.members[m].player_id < v.next_player_id);
        }
    }
    assert forall|a: int, b: int| 0 <= a < b < after.spectators.len() implies watcher_key()(
        #[trigger] after.spectators[a],
    ) != watcher_key()(#[trigger] after.spectators[b]) by {
        if b < v.spectators.len() {
            assert(watcher_key()(v.spectators[a]) != watcher_key()(v.spectators[b]));
        } else {
            assert(watcher_key()(v.spectators[a]) != connection);
        }
    }
    if key != spectator_key() {
        let member = place_of_key(v.members, member_key(), key);
        let id = if member < v.members.len() {
            v.members[member].player_id
        } else {
            v.next_player_id
        };
        lemma_named_distinct(v.team_names, id, name);
    }
}

/// A connection that leaves leaves the session as it should be.
proof fn lemma_left_wf(v: GameActorView, key: Seq<char>, connection: u64)
    requires
        v.wf(),
    ensures
        v.left(key, connection).state.wf(),
{
    lemma_place_of_key(v.seats, seat_key(), key);
    let seat = place_of_key(v.seats, seat_key(), key);
    let gone = v.left(key, connection).state;
    assert forall|a: int, b: int| 0 <= a < b < gone.seats.len() implies seat_key()(
        #[trigger] gone.seats[a],
    ) != seat_key()(#[trigger] gone.seats[b]) by {
        if gone.seats.len() == v.seats.len() {
            assert(seat_key()(v.seats[a]) != seat_key()(v.seats[b]));
        } else {
            let x = if a < seat {
                a
            } else {
                a + 1
            };
            let y = if b < seat {
                b
            } else {
                b + 1
            };
            assert(gone.seats[a] == v.seats[x] && gone.seats[b] == v.seats[y]);
            assert(seat_key()(v.seats[x]) != seat_key()(v.seats[y]));
        }
    }
    lemma_picked_distinct(v.spectators, others_than(v.spectators, connection), watcher_key());
}

} // verus!
