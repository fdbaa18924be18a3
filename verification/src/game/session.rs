//! Connections: the handshake that binds a client to a team or to the
//! graphical protocol, the slots each team has left, and players leaving.
use vstd::prelude::*;

use std::collections::HashMap;

use crate::data::entity::{dummy_view, EntityView, MAX_QUEUED_ACTIONS};
use crate::data::parser::{parse, parse_spec};
use crate::data::EntityId;
use crate::server::{ClientHandler, ClientReply};
use crate::text::{dec, lines, push_dec, split_lines, str_eq, text_bytes, texts_of};

use super::actions::{team_index, with_player};
use super::gui::{gui_command_spec, initial_state_text, lemma_id_truncation, player_line};
use super::incantation::{clear_queues, ids_contain, start_spec};
use super::{
    game_wf, send_gui, session_bound, tick_spec, EggView, Game, GameView, Session, SessionState,
    SessionStateView, SessionView,
};

verus! {

/// The place of the session of connection `fd`, if there is one.
pub open spec fn fd_index(sessions: Seq<SessionView>, fd: u64) -> Option<int> {
    if exists|k: int| 0 <= k < sessions.len() && #[trigger] sessions[k].fd == fd {
        Some(choose|k: int| 0 <= k < sessions.len() && #[trigger] sessions[k].fd == fd)
    } else {
        None
    }
}

/// The sessions without that of connection `fd`.
pub open spec fn sessions_remove(sessions: Seq<SessionView>, fd: u64) -> Seq<SessionView> {
    match fd_index(sessions, fd) {
        Some(k) => sessions.remove(k),
        None => sessions,
    }
}

/// The sessions with connection `fd` now in state `state`: its session is
/// replaced in place, or a new one is added at the end.
pub open spec fn sessions_put(sessions: Seq<SessionView>, fd: u64, state: SessionStateView) -> Seq<
    SessionView,
> {
    match fd_index(sessions, fd) {
        Some(k) => sessions.update(k, SessionView { fd, state }),
        None => sessions.push(SessionView { fd, state }),
    }
}

/// One when the session is a ready player of team `t`, else zero.
pub open spec fn ready_of(s: SessionView, t: Seq<char>) -> nat {
    match s.state {
        SessionStateView::Ready { team, .. } => if team == t {
            1nat
        } else {
            0nat
        },
        _ => 0nat,
    }
}

/// How many sessions are ready players of team `t`.
pub open spec fn ready_on(sessions: Seq<SessionView>, t: Seq<char>) -> nat
    decreases sessions.len(),
{
    if sessions.len() == 0 {
        0
    } else {
        ready_on(sessions.drop_last(), t) + ready_of(sessions.last(), t)
    }
}

/// Changing one session changes the count by what that session counted.
proof fn lemma_ready_on_update(sessions: Seq<SessionView>, k: int, v: SessionView, t: Seq<char>)
    requires
        0 <= k < sessions.len(),
    ensures
        ready_on(sessions.update(k, v), t) + ready_of(sessions[k], t) == ready_on(sessions, t) + ready_of(v, t),
    decreases sessions.len(),
{
    if k < sessions.len() - 1 {
        lemma_ready_on_update(sessions.drop_last(), k, v, t);
        assert(sessions.update(k, v).drop_last() =~= sessions.drop_last().update(k, v));
    } else {
        assert(sessions.update(k, v).drop_last() =~= sessions.drop_last());
    }
}

/// A client still in its handshake that names a team with a slot left is
/// accepted and takes one of the team's slots: the team has one more
/// connected player, and one slot fewer.
pub proof fn lemma_join_takes_slot(g: GameView, fd: u64, name: Seq<char>)
    requires
        game_wf(g),
        fd_index(g.sessions, fd) is Some,
        g.sessions[fd_index(g.sessions, fd)->0].state is AwaitingTeamName,
        name != "GRAPHIC"@,
        team_index(g.teams, name) is Some,
        slots_spec(g, name) >= 1,
    ensures
        message_spec(g, fd, name).1 matches Some((_, close)) && !close,
        ready_on(message_spec(g, fd, name).0.sessions, name) == ready_on(g.sessions, name) + 1,
        slots_spec(message_spec(g, fd, name).0, name) + 1 == slots_spec(g, name),
{
    let k = fd_index(g.sessions, fd)->0;
    let n = g.players.len();
    let v = SessionView { fd, state: SessionStateView::Ready { player_id: n as u8, team: name } };
    assert(sessions_put(g.sessions, fd, v.state) == g.sessions.update(k, v));
    lemma_ready_on_update(g.sessions, k, v, name);
}

/// The slots team `t` has left: its slots less its connected players, not
/// below zero; none for a name that is not a team.
pub open spec fn slots_spec(g: GameView, t: Seq<char>) -> nat {
    match team_index(g.teams, t) {
        Some(k) => if g.capacity[k] >= ready_on(g.sessions, t) {
            (g.capacity[k] - ready_on(g.sessions, t)) as nat
        } else {
            0
        },
        None => 0,
    }
}

/// The place of the first egg of team `t`.
pub open spec fn first_egg_of(eggs: Seq<EggView>, t: Seq<char>) -> Option<int>
    decreases eggs.len(),
{
    if eggs.len() == 0 {
        None
    } else {
        match first_egg_of(eggs.drop_last(), t) {
            Some(k) => Some(k),
            None => if eggs.last().team == t {
                Some(eggs.len() - 1)
            } else {
                None
            },
        }
    }
}

/// A client of connection `fd` names team `name`. Refused, with its session
/// forgotten and the connection closed after `ko`, when no team has that
/// name or the team has no slot left. Otherwise a player joins the team:
/// it is added at the end of the list (and the player that the new
/// number designates as an `EntityId` gets the connection and the team);
/// when the team's starting slots are all taken by connected players, the
/// team's first egg hatches and gives it its position (announced with
/// `ebo #id`); the session becomes ready; the graphical clients get the
/// `pnw` line; and the answer is the slots left, then the map's size.
/// The result is the state after, the answer, and whether to close.
pub open spec fn accept_spec(g: GameView, fd: u64, name: Seq<char>) -> (GameView, Seq<char>, bool) {
    if team_index(g.teams, name) is None || slots_spec(g, name) < 1 {
        (GameView { sessions: sessions_remove(g.sessions, fd), ..g }, "ko\n"@, true)
    } else {
        let n = g.players.len();
        let pid = n as u8;
        let players1 = g.players.push(EntityView { id: n as usize, ..dummy_view() });
        let q = players1[pid as int];
        let q1 = EntityView { raw_fd: fd as i32, team: name, ..q };
        let egg = if ready_on(g.sessions, name) >= g.clients_per_team {
            first_egg_of(g.eggs, name)
        } else {
            None
        };
        let (q2, eggs, hatch) = match egg {
            Some(k) => (
                EntityView { pos: g.eggs[k].position, ..q1 },
                g.eggs.remove(k),
                "ebo #"@ + dec(g.eggs[k].id as nat) + "\n"@,
            ),
            None => (q1, g.eggs, Seq::empty()),
        };
        let g1 = GameView {
            players: players1.update(pid as int, q2),
            eggs,
            sessions: sessions_put(g.sessions, fd, SessionStateView::Ready { player_id: pid, team: name }),
            ..g
        };
        (
            send_gui(g1, hatch + player_line(g1, "pnw"@, pid as nat)),
            dec(slots_spec(g, name)) + "\n"@ + dec(g.map.width) + " "@ + dec(g.map.height) + "\n"@,
            false,
        )
    }
}

proof fn lemma_first_egg_extend(eggs: Seq<EggView>, t: Seq<char>, k: int)
    requires
        0 <= k <= eggs.len(),
        first_egg_of(eggs.take(k), t) is Some,
    ensures
        first_egg_of(eggs, t) == first_egg_of(eggs.take(k), t),
    decreases eggs.len() - k,
{
    if k < eggs.len() {
        assert(eggs.take(k + 1).drop_last() =~= eggs.take(k));
        lemma_first_egg_extend(eggs, t, k + 1);
    } else {
        assert(eggs.take(k) =~= eggs);
    }
}

/// The ids in `frozen` once the player numbered `removed` left: that id
/// drops out, and larger ids move down by one.
pub open spec fn shift_frozen(frozen: Seq<EntityId>, removed: EntityId) -> Seq<EntityId>
    decreases frozen.len(),
{
    if frozen.len() == 0 {
        frozen
    } else {
        let prev = shift_frozen(frozen.drop_last(), removed);
        let id = frozen.last();
        if id < removed {
            prev.push(id)
        } else if id == removed {
            prev
        } else {
            prev.push((id - 1) as u8)
        }
    }
}

/// The sessions once the player numbered `removed` left: its ready session
/// is dropped, and ready sessions of larger numbers move down by one.
pub open spec fn shift_sessions(sessions: Seq<SessionView>, removed: EntityId) -> Seq<SessionView>
    decreases sessions.len(),
{
    if sessions.len() == 0 {
        sessions
    } else {
        let prev = shift_sessions(sessions.drop_last(), removed);
        let s = sessions.last();
        match s.state {
            SessionStateView::Ready { player_id, team } => if player_id == removed {
                prev
            } else if player_id > removed {
                prev.push(
                    SessionView {
                        fd: s.fd,
                        state: SessionStateView::Ready { player_id: (player_id - 1) as u8, team },
                    },
                )
            } else {
                prev.push(s)
            },
            _ => prev.push(s),
        }
    }
}

/// The players numbered again by their places.
pub open spec fn renumber(players: Seq<EntityView>) -> Seq<EntityView> {
    Seq::new(players.len(), |j: int| EntityView { id: j as usize, ..players[j] })
}

/// Player `i` leaves the game: it is taken out of the list, the others are
/// numbered again by their places, and the sessions and frozen ids follow
/// (its number taken as an `EntityId`).
pub open spec fn remove_spec(g: GameView, i: int) -> GameView {
    let removed = g.players[i].id as u8;
    GameView {
        players: renumber(g.players.remove(i)),
        sessions: shift_sessions(g.sessions, removed),
        frozen: shift_frozen(g.frozen, removed),
        ..g
    }
}

/// Shifting the sessions keeps each connection at most once, and keeps
/// ready sessions bound to the remaining players.
proof fn lemma_shift_sessions(sessions: Seq<SessionView>, removed: EntityId, n: nat)
    requires
        (removed as nat) < n,
        forall|i: int, j: int|
            0 <= i < sessions.len() && 0 <= j < sessions.len() && i != j ==> #[trigger] sessions[i].fd
                != #[trigger] sessions[j].fd,
        forall|i: int| 0 <= i < sessions.len() ==> session_bound(#[trigger] sessions[i], n),
    ensures
        forall|k: int|
            0 <= k < shift_sessions(sessions, removed).len() ==> exists|j: int|
                0 <= j < sessions.len() && #[trigger] shift_sessions(sessions, removed)[k].fd
                    == sessions[j].fd,
        forall|i: int, j: int|
            0 <= i < shift_sessions(sessions, removed).len() && 0 <= j < shift_sessions(
                sessions,
                removed,
            ).len() && i != j ==> #[trigger] shift_sessions(sessions, removed)[i].fd
                != #[trigger] shift_sessions(sessions, removed)[j].fd,
        forall|k: int|
            0 <= k < shift_sessions(sessions, removed).len() ==> session_bound(
                #[trigger] shift_sessions(sessions, removed)[k],
                (n - 1) as nat,
            ),
    decreases sessions.len(),
{
    if sessions.len() > 0 {
        let init = sessions.drop_last();
        lemma_shift_sessions(init, removed, n);
        let prev = shift_sessions(init, removed);
        let res = shift_sessions(sessions, removed);
        let last = sessions.last();
        assert(session_bound(sessions[sessions.len() - 1], n));
        assert forall|k: int| 0 <= k < prev.len() implies exists|j: int|
            0 <= j < sessions.len() && #[trigger] prev[k].fd == sessions[j].fd by {
            let j = choose|j: int| 0 <= j < init.len() && #[trigger] prev[k].fd == init[j].fd;
            assert(init[j] == sessions[j]);
        }
        if res.len() > prev.len() {
            assert(res.len() == prev.len() + 1);
            assert forall|k: int| 0 <= k < res.len() implies exists|j: int|
                0 <= j < sessions.len() && #[trigger] res[k].fd == sessions[j].fd by {
                if k < prev.len() {
                    assert(res[k] == prev[k]);
                } else {
                    assert(res[k].fd == sessions[sessions.len() - 1].fd);
                }
            }
            assert forall|i: int, j: int|
                0 <= i < res.len() && 0 <= j < res.len() && i != j implies #[trigger] res[i].fd
                != #[trigger] res[j].fd by {
                if i < prev.len() && j < prev.len() {
                    assert(res[i] == prev[i]);
                    assert(res[j] == prev[j]);
                } else if i < prev.len() {
                    assert(res[i] == prev[i]);
                    let j0 = choose|j0: int| 0 <= j0 < init.len() && #[trigger] prev[i].fd == init[j0].fd;
                    assert(init[j0] == sessions[j0]);
                    assert(sessions[j0].fd != sessions[sessions.len() - 1].fd);
                } else {
                    assert(res[j] == prev[j]);
                    let j0 = choose|j0: int| 0 <= j0 < init.len() && #[trigger] prev[j].fd == init[j0].fd;
                    assert(init[j0] == sessions[j0]);
                    assert(sessions[j0].fd != sessions[sessions.len() - 1].fd);
                }
            }
            assert forall|k: int| 0 <= k < res.len() implies session_bound(
                #[trigger] res[k],
                (n - 1) as nat,
            ) by {
                if k < prev.len() {
                    assert(res[k] == prev[k]);
                }
            }
        } else {
            assert(res == prev);
        }
    }
}

/// A client of connection `fd` goes away: its session is forgotten; when
/// it was a player's, that player loses its connection and the graphical
/// clients get `pdi #id`.
pub open spec fn disconnect_spec(g: GameView, fd: u64) -> GameView {
    match fd_index(g.sessions, fd) {
        None => g,
        Some(k) => {
            let g1 = GameView { sessions: g.sessions.remove(k), ..g };
            match g.sessions[k].state {
                SessionStateView::Ready { player_id, .. } => {
                    let p = g1.players[player_id as int];
                    send_gui(
                        with_player(g1, player_id as int, EntityView { raw_fd: -1i32, ..p }),
                        "pdi #"@ + dec(player_id as nat) + "\n"@,
                    )
                },
                _ => g1,
            }
        },
    }
}

/// A client of connection `fd` sends the line `data`: the state after,
/// and what to answer at once (the text, and whether to close), if
/// anything. An unknown connection gets `ko`. Before the handshake,
/// `GRAPHIC` makes it a graphical client, which gets the whole state;
/// any other line names a team (see `accept_spec`). A graphical client's
/// line is a command of its protocol. A player's `Connect_nbr` is answered
/// with its team's slots left; any other line is parsed as a command: a
/// bad one, one from a player with ten queued actions, and one from a
/// frozen player get `ko`; `Incantation` starts an elevation at once (or
/// gets `ko`); any other command is queued, with no answer.
pub open spec fn message_spec(g: GameView, fd: u64, data: Seq<char>) -> (
    GameView,
    Option<(Seq<char>, bool)>,
) {
    let ko = Some(("ko\n"@, false));
    match fd_index(g.sessions, fd) {
        None => (g, ko),
        Some(k) => match g.sessions[k].state {
            SessionStateView::AwaitingTeamName => if data == "GRAPHIC"@ {
                let g1 = GameView {
                    sessions: sessions_put(g.sessions, fd, SessionStateView::Gui),
                    ..g
                };
                (g1, Some((initial_state_text(g1), false)))
            } else {
                let (g1, text, close) = accept_spec(g, fd, data);
                (g1, Some((text, close)))
            },
            SessionStateView::Gui => {
                let (g1, text) = gui_command_spec(g, data);
                (g1, Some((text, false)))
            },
            SessionStateView::Ready { player_id, team } => if data == "Connect_nbr"@ {
                (g, Some((dec(slots_spec(g, team)) + "\n"@, false)))
            } else {
                match parse_spec(data) {
                    Err(_) => (g, ko),
                    Ok(a) => {
                        let p = g.players[player_id as int];
                        if p.actions.len() >= 10 || g.frozen.contains(player_id) {
                            (g, ko)
                        } else if data == "Incantation"@ {
                            match start_spec(g, player_id as int) {
                                (g1, Some(text)) => (g1, Some((text, false))),
                                (g1, None) => (g1, ko),
                            }
                        } else {
                            (
                                with_player(
                                    g,
                                    player_id as int,
                                    EntityView { actions: p.actions.push(a), ..p },
                                ),
                                None,
                            )
                        }
                    },
                }
            },
        },
    }
}

/// A reply carries `text`, with `close` telling whether to close after.
pub open spec fn reply_is(r: Option<ClientReply>, expected: Option<(Seq<char>, bool)>) -> bool {
    match (r, expected) {
        (Some(reply), Some((text, close))) => reply.data@ == vstd::utf8::encode_utf8(text)
            && reply.disconnect == close,
        (None, None) => true,
        _ => false,
    }
}

/// A chunk of a client's input: each of its lines, in order, is handled as
/// `message_spec` says, until one closes the connection; the later lines
/// are ignored. The result is the state after, the answers put end to end
/// as bytes, and whether to close the connection.
pub open spec fn chunk_spec(g: GameView, fd: u64, ls: Seq<Seq<char>>) -> (GameView, Seq<u8>, bool)
    decreases ls.len(),
{
    if ls.len() == 0 {
        (g, Seq::empty(), false)
    } else {
        let (g1, out, closed) = chunk_spec(g, fd, ls.drop_last());
        if closed {
            (g1, out, true)
        } else {
            let (g2, reply) = message_spec(g1, fd, ls.last());
            match reply {
                None => (g2, out, false),
                Some((text, close)) => (g2, out + vstd::utf8::encode_utf8(text), close),
            }
        }
    }
}

/// At most one ready player per session.
proof fn lemma_ready_on_bound(sessions: Seq<SessionView>, t: Seq<char>)
    ensures
        ready_on(sessions, t) <= sessions.len(),
    decreases sessions.len(),
{
    if sessions.len() > 0 {
        lemma_ready_on_bound(sessions.drop_last(), t);
    }
}

impl Game {
    /// The place of the session of connection `fd` (see `fd_index`).
    fn session_index(&self, fd: u64) -> (r: Option<usize>)
        requires
            self.wf(),
        ensures
            match r {
                Some(k) => fd_index(self@.sessions, fd) == Some(k as int) && k < self@.sessions.len(),
                None => fd_index(self@.sessions, fd) is None,
            },
    {
        let ghost s = self@.sessions;
        let mut i: usize = 0;
        while i < self.sessions.len()
            invariant
                self.wf(),
                s == self@.sessions,
                i <= s.len(),
                forall|k: int| 0 <= k < i ==> #[trigger] s[k].fd != fd,
            decreases s.len() - i,
        {
            assert(s[i as int] == self.sessions@[i as int].view());
            if self.sessions[i].fd == fd {
                proof {
                    assert(s[i as int].fd == fd);
                    let c = choose|k: int| 0 <= k < s.len() && #[trigger] s[k].fd == fd;
                    assert(s[c].fd == fd);
                    if c != i {
                        assert(s[c].fd != s[i as int].fd);
                    }
                }
                return Some(i);
            }
            i = i + 1;
        }
        None
    }

    /// Forgets the session of connection `fd`, if there is one.
    fn drop_session(&mut self, fd: u64)
        requires
            old(self).wf(),
        ensures
            final(self).wf(),
            final(self)@ == (GameView { sessions: sessions_remove(old(self)@.sessions, fd), ..old(self)@ }),
    {
        let ghost g = self@;
        match self.session_index(fd) {
            Some(k) => {
                self.sessions.remove(k);
                proof {
                    let s = self@.sessions;
                    assert(s =~= g.sessions.remove(k as int));
                    assert forall|i: int, j: int|
                        0 <= i < s.len() && 0 <= j < s.len() && i != j implies #[trigger] s[i].fd
                        != #[trigger] s[j].fd by {
                        let i0 = if i < k { i } else { i + 1 };
                        let j0 = if j < k { j } else { j + 1 };
                        assert(s[i] == g.sessions[i0]);
                        assert(s[j] == g.sessions[j0]);
                    }
                    assert forall|i: int| 0 <= i < s.len() implies session_bound(
                        #[trigger] s[i],
                        self@.players.len(),
                    ) by {
                        let i0 = if i < k { i } else { i + 1 };
                        assert(s[i] == g.sessions[i0]);
                        assert(session_bound(g.sessions[i0], g.players.len()));
                    }
                }
            },
            None => {},
        }
    }

    /// Puts connection `fd` in state `state` (see `sessions_put`).
    fn put_session(&mut self, fd: u64, state: SessionState)
        requires
            old(self).wf(),
            session_bound(SessionView { fd, state: state.view() }, old(self)@.players.len()),
        ensures
            final(self).wf(),
            final(self)@ == (GameView {
                sessions: sessions_put(old(self)@.sessions, fd, state.view()),
                ..old(self)@
            }),
    {
        let ghost g = self@;
        let ghost v = SessionView { fd, state: state.view() };
        match self.session_index(fd) {
            Some(k) => {
                self.sessions.set(k, Session { fd, state });
                proof {
                    let s = self@.sessions;
                    assert(s =~= g.sessions.update(k as int, v));
                    assert forall|i: int, j: int|
                        0 <= i < s.len() && 0 <= j < s.len() && i != j implies #[trigger] s[i].fd
                        != #[trigger] s[j].fd by {
                        if i != k && j != k {
                            assert(s[i] == g.sessions[i]);
                            assert(s[j] == g.sessions[j]);
                        } else if i == k {
                            assert(s[j] == g.sessions[j]);
                            assert(g.sessions[k as int].fd == fd);
                        } else {
                            assert(s[i] == g.sessions[i]);
                            assert(g.sessions[k as int].fd == fd);
                        }
                    }
                    assert forall|i: int| 0 <= i < s.len() implies session_bound(
                        #[trigger] s[i],
                        self@.players.len(),
                    ) by {
                        if i != k {
                            assert(session_bound(g.sessions[i], g.players.len()));
                        }
                    }
                }
            },
            None => {
                self.sessions.push(Session { fd, state });
                proof {
                    let s = self@.sessions;
                    assert(s =~= g.sessions.push(v));
                    assert forall|i: int, j: int|
                        0 <= i < s.len() && 0 <= j < s.len() && i != j implies #[trigger] s[i].fd
                        != #[trigger] s[j].fd by {
                        if i < g.sessions.len() && j < g.sessions.len() {
                        } else if i < g.sessions.len() {
                            assert(g.sessions[i].fd != fd);
                        } else {
                            assert(g.sessions[j].fd != fd);
                        }
                    }
                    assert forall|i: int| 0 <= i < s.len() implies session_bound(
                        #[trigger] s[i],
                        self@.players.len(),
                    ) by {
                        if i < g.sessions.len() {
                            assert(session_bound(g.sessions[i], g.players.len()));
                        }
                    }
                }
            },
        }
    }

    /// How many connected players team `team` has.
    fn connected_on_team(&self, team: &str) -> (n: usize)
        requires
            self.wf(),
        ensures
            n == ready_on(self@.sessions, team@),
    {
        let ghost s = self@.sessions;
        let mut n: usize = 0;
        let mut i: usize = 0;
        assert(s.take(0) =~= Seq::<SessionView>::empty());
        while i < self.sessions.len()
            invariant
                self.wf(),
                s == self@.sessions,
                i <= s.len(),
                n == ready_on(s.take(i as int), team@),
                n <= i,
            decreases s.len() - i,
        {
            assert(s.take(i + 1).drop_last() =~= s.take(i as int));
            assert(s[i as int] == self.sessions@[i as int].view());
            match &self.sessions[i].state {
                SessionState::Ready { team: name, .. } => {
                    if str_eq(name.as_str(), team) {
                        n = n + 1;
                    }
                },
                _ => {},
            }
            i = i + 1;
        }
        assert(s.take(s.len() as int) =~= s);
        n
    }

    /// The slots team `team` has left (see `slots_spec`).
    fn available_slots(&self, team: &str) -> (n: usize)
        requires
            self.wf(),
        ensures
            n == slots_spec(self@, team@),
    {
        match self.team_slot(team) {
            Some(k) => self.team_capacity[k].saturating_sub(self.connected_on_team(team)),
            None => 0,
        }
    }
}


impl Game {
    /// The place of the first egg of team `team` (see `first_egg_of`).
    fn egg_of_team(&self, team: &str) -> (r: Option<usize>)
        ensures
            match r {
                Some(k) => first_egg_of(self@.eggs, team@) == Some(k as int) && k < self@.eggs.len(),
                None => first_egg_of(self@.eggs, team@) is None,
            },
    {
        let ghost e = self@.eggs;
        let mut i: usize = 0;
        assert(e.take(0) =~= Seq::<EggView>::empty());
        while i < self.eggs.len()
            invariant
                e == self@.eggs,
                i <= e.len(),
                first_egg_of(e.take(i as int), team@) is None,
            decreases e.len() - i,
        {
            assert(e.take(i + 1).drop_last() =~= e.take(i as int));
            assert(e[i as int] == self.eggs@[i as int].view());
            if str_eq(self.eggs[i].team.as_str(), team) {
                proof {
                    lemma_first_egg_extend(e, team@, i + 1);
                }
                return Some(i);
            }
            i = i + 1;
        }
        assert(e.take(e.len() as int) =~= e);
        None
    }

    /// A client of connection `client_fd` names a team (see `accept_spec`).
    fn accept_team_name(&mut self, client_fd: u64, team_name: &str) -> (r: ClientReply)
        requires
            old(self).wf(),
        ensures
            final(self).wf(),
            final(self)@ == accept_spec(old(self)@, client_fd, team_name@).0,
            r.data@ == vstd::utf8::encode_utf8(accept_spec(old(self)@, client_fd, team_name@).1),
            r.disconnect == accept_spec(old(self)@, client_fd, team_name@).2,
    {
        let ghost g = self@;
        if self.team_slot(team_name).is_none() {
            self.drop_session(client_fd);
            return ClientReply::data_then_close(text_bytes("ko\n"));
        }
        let connected = self.connected_on_team(team_name);
        let available = self.available_slots(team_name);
        if available < 1 {
            self.drop_session(client_fd);
            return ClientReply::data_then_close(text_bytes("ko\n"));
        }
        let player_id = self.add_players();
        let idx = player_id as usize;
        proof {
            lemma_id_truncation(g.players.len() as usize);
        }
        let ghost g0 = self@;
        assert(self.players@[idx as int]@ == g0.players[idx as int]);
        self.players[idx].set_raw_fd(#[verifier::truncate] (client_fd as i32));
        self.players[idx].set_team(&team_name.to_owned());
        let ghost q1 = EntityView { raw_fd: client_fd as i32, team: team_name@, ..g0.players[idx as int] };
        assert(self@.players =~= g0.players.update(idx as int, q1));
        let ghost egg = if ready_on(g.sessions, team_name@) >= g.clients_per_team {
            first_egg_of(g.eggs, team_name@)
        } else {
            None
        };
        let mut hatched: Option<usize> = None;
        if connected >= self.clients_per_team {
            match self.egg_of_team(team_name) {
                Some(k) => {
                    let ghost before = self@.players;
                    let egg = self.eggs.remove(k);
                    hatched = Some(egg.id);
                    assert(egg.view() == g.eggs[k as int]);
                    self.players[idx].set_position(egg.position);
                    assert(self@.players =~= before.update(idx as int, EntityView { pos: g.eggs[k as int].position, ..q1 }));
                    assert(self@.eggs =~= g.eggs.remove(k as int));
                },
                None => {},
            }
        }
        let ghost q2 = self@.players[idx as int];
        assert(q2 == match egg {
            Some(k) => EntityView { pos: g.eggs[k].position, ..q1 },
            None => q1,
        });
        proof {
            assert(self@.players =~= g0.players.update(idx as int, q2));
            self.lemma_wf_player_update_from(g0, idx as int, q2);
        }
        let (width, height) = self.map_dimensions();
        self.put_session(client_fd, SessionState::Ready { player_id, team: team_name.to_owned() });
        let ghost g1 = self@;
        let mut gui_msg = String::new();
        match hatched {
            Some(egg_id) => {
                gui_msg.append("ebo #");
                push_dec(&mut gui_msg, egg_id as u128);
                gui_msg.append("\n");
            },
            None => {},
        }
        let line = self.gui_player_line("pnw", player_id);
        gui_msg.append(line.as_str());
        assert(gui_msg@ == (match egg {
            Some(k) => "ebo #"@ + dec(g.eggs[k].id as nat) + "\n"@,
            None => Seq::<char>::empty(),
        }) + player_line(g1, "pnw"@, player_id as nat));
        self.send_to_guis(gui_msg.as_str());
        let mut answer = String::new();
        push_dec(&mut answer, available as u128);
        answer.append("\n");
        push_dec(&mut answer, width as u128);
        answer.append(" ");
        push_dec(&mut answer, height as u128);
        answer.append("\n");
        ClientReply::data(text_bytes(answer.as_str()))
    }
}


impl Game {
    /// Player `player_index` leaves the game (see `remove_spec`).
    pub(crate) fn remove_player(&mut self, player_index: usize)
        requires
            old(self).wf(),
            player_index < old(self)@.players.len(),
        ensures
            final(self).wf(),
            final(self)@ == remove_spec(old(self)@, player_index as int),
    {
        let ghost g = self@;
        assert(self.players@[player_index as int]@ == g.players[player_index as int]);
        let removed_id = self.players[player_index].get_id() as EntityId;
        proof {
            lemma_id_truncation(player_index);
        }
        self.players.remove(player_index);
        let ghost r = g.players.remove(player_index as int);
        assert(self@.players =~= r);
        let mut j: usize = 0;
        while j < self.players.len()
            invariant
                j <= r.len(),
                self@.players.len() == r.len(),
                self@ == (GameView { players: self@.players, ..g }),
                forall|m: int| 0 <= m < j ==> #[trigger] self@.players[m] == (EntityView { id: m as usize, ..r[m] }),
                forall|m: int| j <= m < r.len() ==> #[trigger] self@.players[m] == r[m],
            decreases r.len() - j,
        {
            let ghost before = self@.players;
            assert(self.players@[j as int]@ == before[j as int]);
            self.players[j].set_id(j);
            assert(self@.players =~= before.update(j as int, EntityView { id: j, ..r[j as int] }));
            j = j + 1;
        }
        assert(self@.players =~= renumber(r));
        let ghost s = g.sessions;
        let mut kept: Vec<Session> = Vec::new();
        let mut k: usize = 0;
        assert(s.take(0) =~= Seq::<SessionView>::empty());
        while k < self.sessions.len()
            invariant
                k <= s.len(),
                s == self@.sessions,
                kept@.map_values(|x: Session| x.view()) == shift_sessions(s.take(k as int), removed_id),
            decreases s.len() - k,
        {
            assert(s.take(k + 1).drop_last() =~= s.take(k as int));
            assert(s[k as int] == self.sessions@[k as int].view());
            let ghost before = kept@.map_values(|x: Session| x.view());
            let fd = self.sessions[k].fd;
            match &self.sessions[k].state {
                SessionState::Ready { player_id, team } => {
                    if *player_id == removed_id {
                    } else if *player_id > removed_id {
                        kept.push(
                            Session {
                                fd,
                                state: SessionState::Ready { player_id: *player_id - 1, team: team.clone() },
                            },
                        );
                    } else {
                        kept.push(
                            Session { fd, state: SessionState::Ready { player_id: *player_id, team: team.clone() } },
                        );
                    }
                },
                SessionState::AwaitingTeamName => {
                    kept.push(Session { fd, state: SessionState::AwaitingTeamName });
                },
                SessionState::Gui => {
                    kept.push(Session { fd, state: SessionState::Gui });
                },
            }
            assert(kept@.map_values(|x: Session| x.view()) =~= shift_sessions(s.take(k + 1), removed_id));
            k = k + 1;
        }
        assert(s.take(s.len() as int) =~= s);
        self.sessions = kept;
        let ghost f = g.frozen;
        let mut frozen: Vec<EntityId> = Vec::new();
        let mut m: usize = 0;
        assert(f.take(0) =~= Seq::<EntityId>::empty());
        while m < self.frozen.len()
            invariant
                m <= f.len(),
                f == self@.frozen,
                frozen@ == shift_frozen(f.take(m as int), removed_id),
            decreases f.len() - m,
        {
            assert(f.take(m + 1).drop_last() =~= f.take(m as int));
            let id = self.frozen[m];
            if id < removed_id {
                frozen.push(id);
            } else if id > removed_id {
                frozen.push(id - 1);
            }
            m = m + 1;
        }
        assert(f.take(f.len() as int) =~= f);
        self.frozen = frozen;
        proof {
            lemma_shift_sessions(g.sessions, removed_id, g.players.len());
            assert(self@ == remove_spec(g, player_index as int));
        }
    }
}


impl SessionState {
    /// A copy of the state, equal to it in value.
    fn duplicate(&self) -> (r: SessionState)
        ensures
            r.view() == self.view(),
    {
        match self {
            SessionState::AwaitingTeamName => SessionState::AwaitingTeamName,
            SessionState::Ready { player_id, team } => SessionState::Ready {
                player_id: *player_id,
                team: team.clone(),
            },
            SessionState::Gui => SessionState::Gui,
        }
    }
}

/// A reply of `text`, the connection staying open.
fn text_reply(text: &str) -> (r: ClientReply)
    ensures
        r.data@ == vstd::utf8::encode_utf8(text@),
        !r.disconnect,
{
    ClientReply::data(text_bytes(text))
}

impl ClientHandler for Game {
    open spec fn handler_ok(&self) -> bool {
        self.wf()
    }

    /// Runs one tick (see `tick_spec`) and hands over what is owed to each
    /// connection, which is then owed nothing.
    fn tick(&mut self) -> (replies: HashMap<i32, String>)
        ensures
            replies@.map_values(|s: String| s@) == tick_spec(old(self)@).reply,
            final(self)@ == (GameView { reply: Map::empty(), ..tick_spec(old(self)@) }),
    {
        self.run_ticks();
        let mut replies: HashMap<i32, String> = HashMap::new();
        std::mem::swap(&mut replies, &mut self.reply);
        assert(self@.reply =~= Map::<i32, Seq<char>>::empty());
        replies
    }

    /// A client connected: its session awaits a team name, and it is
    /// greeted with `WELCOME`.
    fn on_connect(&mut self, client_fd: u64) -> (greeting: Vec<u8>)
        ensures
            final(self)@ == (GameView {
                sessions: sessions_put(old(self)@.sessions, client_fd, SessionStateView::AwaitingTeamName),
                ..old(self)@
            }),
            greeting@ == vstd::utf8::encode_utf8("WELCOME\n"@),
    {
        self.put_session(client_fd, SessionState::AwaitingTeamName);
        text_bytes("WELCOME\n")
    }

    /// A client sent a line (see `message_spec`).
    fn client_message(&mut self, client_fd: u64, data: &str) -> (reply: Option<ClientReply>)
        ensures
            final(self)@ == message_spec(old(self)@, client_fd, data@).0,
            reply_is(reply, message_spec(old(self)@, client_fd, data@).1),
    {
        let ghost g = self@;
        let k = match self.session_index(client_fd) {
            Some(k) => k,
            None => {
                return Some(text_reply("ko\n"));
            },
        };
        assert(g.sessions[k as int] == self.sessions@[k as int].view());
        let state = self.sessions[k].state.duplicate();
        match state {
            SessionState::AwaitingTeamName => {
                if str_eq(data, "GRAPHIC") {
                    self.put_session(client_fd, SessionState::Gui);
                    let text = self.gui_initial_state();
                    Some(text_reply(text.as_str()))
                } else {
                    Some(self.accept_team_name(client_fd, data))
                }
            },
            SessionState::Gui => Some(self.gui_command(data)),
            SessionState::Ready { player_id, team } => {
                if str_eq(data, "Connect_nbr") {
                    let n = self.available_slots(team.as_str());
                    let mut text = String::new();
                    push_dec(&mut text, n as u128);
                    text.append("\n");
                    return Some(text_reply(text.as_str()));
                }
                match parse(data) {
                    Ok(act) => {
                        let idx = player_id as usize;
                        assert(session_bound(g.sessions[k as int], g.players.len()));
                        assert(self.players@[idx as int]@ == g.players[idx as int]);
                        if self.players[idx].queued() >= MAX_QUEUED_ACTIONS {
                            return Some(text_reply("ko\n"));
                        }
                        if ids_contain(self.frozen.as_slice(), player_id) {
                            return Some(text_reply("ko\n"));
                        }
                        if str_eq(data, "Incantation") {
                            return match self.start_incantation(idx) {
                                Some(r) => Some(r),
                                None => Some(text_reply("ko\n")),
                            };
                        }
                        let ghost p = g.players[idx as int];
                        let ghost np = EntityView { actions: p.actions.push(act@), ..p };
                        self.players[idx].add_action(act);
                        proof {
                            assert(self@.players =~= g.players.update(idx as int, np));
                            self.lemma_wf_player_update_from(g, idx as int, np);
                        }
                        None
                    },
                    Err(_) => Some(text_reply("ko\n")),
                }
            },
        }
    }

    /// A client went away (see `disconnect_spec`).
    fn client_disconnect(&mut self, client_fd: u64)
        ensures
            final(self)@ == disconnect_spec(old(self)@, client_fd),
    {
        let ghost g = self@;
        let k = match self.session_index(client_fd) {
            Some(k) => k,
            None => {
                return;
            },
        };
        assert(g.sessions[k as int] == self.sessions@[k as int].view());
        let state = self.sessions[k].state.duplicate();
        self.drop_session(client_fd);
        match state {
            SessionState::Ready { player_id, .. } => {
                let idx = player_id as usize;
                assert(session_bound(g.sessions[k as int], g.players.len()));
                let ghost g1 = self@;
                let ghost np = EntityView { raw_fd: -1i32, ..g1.players[idx as int] };
                assert(self.players@[idx as int]@ == g1.players[idx as int]);
                self.players[idx].set_raw_fd(-1);
                proof {
                    assert(self@.players =~= g1.players.update(idx as int, np));
                    self.lemma_wf_player_update_from(g1, idx as int, np);
                }
                let mut msg = String::from_str("pdi #");
                push_dec(&mut msg, player_id as u128);
                msg.append("\n");
                self.send_to_guis(msg.as_str());
            },
            _ => {},
        }
    }
}


/// No player has more than ten queued actions.
pub open spec fn queues_short(players: Seq<EntityView>) -> bool {
    forall|k: int| 0 <= k < players.len() ==> (#[trigger] players[k]).actions.len() <= 10
}

/// Emptying queues keeps them short.
proof fn lemma_clear_queues_short(players: Seq<EntityView>, parts: Seq<EntityId>, n: nat)
    requires
        queues_short(players),
        n <= parts.len(),
        forall|k: int| 0 <= k < parts.len() ==> (#[trigger] parts[k]) < players.len(),
    ensures
        queues_short(clear_queues(players, parts, n)),
        clear_queues(players, parts, n).len() == players.len(),
    decreases n,
{
    if n > 0 {
        lemma_clear_queues_short(players, parts, (n - 1) as nat);
        let prev = clear_queues(players, parts, (n - 1) as nat);
        let i = parts[n - 1] as int;
        let c = clear_queues(players, parts, n);
        assert forall|k: int| 0 <= k < c.len() implies (#[trigger] c[k]).actions.len() <= 10 by {
            if k != i {
                assert(c[k] == prev[k]);
            }
        }
    }
}

/// Whatever a client sends, no player ends up with more than ten queued
/// actions: a command is refused when its player's queue is full.
pub proof fn lemma_commands_keep_queues_short(g: GameView, fd: u64, data: Seq<char>)
    requires
        game_wf(g),
        queues_short(g.players),
    ensures
        queues_short(message_spec(g, fd, data).0.players),
{
    match fd_index(g.sessions, fd) {
        None => {},
        Some(k) => match g.sessions[k].state {
            SessionStateView::AwaitingTeamName => {
                if data != "GRAPHIC"@ {
                    let g1 = accept_spec(g, fd, data).0;
                    if !(team_index(g.teams, data) is None || slots_spec(g, data) < 1) {
                        let n = g.players.len();
                        let players1 = g.players.push(EntityView { id: n as usize, ..dummy_view() });
                        assert(dummy_view().actions.len() == 0);
                        assert(queues_short(players1)) by {
                            assert forall|j: int| 0 <= j < players1.len() implies (
                            #[trigger] players1[j]).actions.len() <= 10 by {
                                if j < n {
                                    assert(players1[j] == g.players[j]);
                                }
                            }
                        }
                        lemma_id_truncation(n as usize);
                        assert forall|j: int| 0 <= j < g1.players.len() implies (
                        #[trigger] g1.players[j]).actions.len() <= 10 by {
                            if j != (n as u8) as int {
                                assert(g1.players[j] == players1[j]);
                            } else {
                                assert(g1.players[j].actions == players1[j].actions);
                            }
                        }
                    }
                }
            },
            SessionStateView::Gui => {},
            SessionStateView::Ready { player_id, team } => {
                if data != "Connect_nbr"@ {
                    match parse_spec(data) {
                        Err(_) => {},
                        Ok(a) => {
                            let p = g.players[player_id as int];
                            if p.actions.len() >= 10 || g.frozen.contains(player_id) {
                            } else if data == "Incantation"@ {
                                let i = player_id as int;
                                match super::incantation::ready_spec(g, p.pos, p.level as nat) {
                                    None => {},
                                    Some(parts) => {
                                        super::incantation::lemma_who_bound(
                                            g.map,
                                            g.players,
                                            p.pos,
                                            p.level as nat,
                                            g.players.len(),
                                        );
                                        assert(g.players.take(g.players.len() as int) =~= g.players);
                                        lemma_clear_queues_short(g.players, parts, parts.len());
                                        let cleared = clear_queues(g.players, parts, parts.len());
                                        let g1 = start_spec(g, i).0;
                                        assert forall|j: int| 0 <= j < g1.players.len() implies (
                                        #[trigger] g1.players[j]).actions.len() <= 10 by {
                                            if j != i {
                                                assert(g1.players[j] == cleared[j]);
                                            }
                                        }
                                    },
                                }
                            } else {
                                let g1 = message_spec(g, fd, data).0;
                                assert forall|j: int| 0 <= j < g1.players.len() implies (
                                #[trigger] g1.players[j]).actions.len() <= 10 by {
                                    if j != player_id as int {
                                        assert(g1.players[j] == g.players[j]);
                                    }
                                }
                            }
                        },
                    }
                }
            },
        },
    }
}


impl Game {
    /// A client sent a chunk of input (see `chunk_spec`): its non-empty
    /// lines are its commands.
    pub fn client_chunk(&mut self, client_fd: u64, chunk: &str) -> (r: (Vec<u8>, bool))
        requires
            old(self).wf(),
        ensures
            final(self).wf(),
            (final(self)@, r.0@, r.1) == chunk_spec(old(self)@, client_fd, lines(chunk@)),
    {
        let ghost g = self@;
        let ls = split_lines(chunk);
        let ghost t = texts_of(ls@);
        let mut out: Vec<u8> = Vec::new();
        let mut closed = false;
        let mut i: usize = 0;
        assert(t.take(0) =~= Seq::<Seq<char>>::empty());
        while i < ls.len()
            invariant
                self.wf(),
                i <= ls@.len(),
                t == texts_of(ls@),
                t.len() == ls@.len(),
                (self@, out@, closed) == chunk_spec(g, client_fd, t.take(i as int)),
            decreases ls@.len() - i,
        {
            assert(t.take(i + 1).drop_last() =~= t.take(i as int));
            assert(t.take(i + 1).last() == ls@[i as int]@);
            if !closed {
                match self.client_message(client_fd, ls[i].as_str()) {
                    Some(reply) => {
                        let mut data = reply.data;
                        out.append(&mut data);
                        closed = reply.disconnect;
                    },
                    None => {},
                }
            }
            i = i + 1;
        }
        assert(t.take(t.len() as int) =~= t);
        (out, closed)
    }
}

} // verus!
