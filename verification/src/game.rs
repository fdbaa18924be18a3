//! The rules of the game: players, their queued actions, eggs, the
//! graphical observers and the replies each connection is owed.
use vstd::prelude::*;

use std::collections::HashMap;

use crate::action::{EAction, EActionView};
use crate::data::entity::{dummy_view, first_action_step, EntityView};
use crate::data::map::{empty_grid, grid_shape, refill_spec, MapView, ResourceCounts};
use crate::data::resource::{resource_at, spec_max_for};
use crate::data::{Entity, EntityId, Position, Resource, Rotation, WorldMap};
use crate::text::{dec, push_dec, texts_of};

use self::actions::{
    broadcast_spec, eject_spec, fork_spec, forward_spec, inventory_text, look_spec, set_spec, take_spec,
    turn_spec, with_player,
};
use self::gui::{gui_x, gui_y, tile_text};
use self::incantation::finish_spec;
use self::session::remove_spec;

pub mod actions;
pub mod gui;
pub mod incantation;
pub mod session;

verus! {

broadcast use vstd::std_specs::hash::group_hash_axioms;

/// Every this many ticks the map's resources are refilled.
pub const REFILL_INTERVAL: u64 = 20;

/// Players needed at the top level for a team to win.
pub const WIN_PLAYERS: usize = 6;

/// The level that counts for winning.
pub const WIN_LEVEL: usize = 8;

/// What a connection is, once it has said hello.
pub enum SessionState {
    AwaitingTeamName,
    Ready { player_id: EntityId, team: String },
    Gui,
}

/// A connection known to the game.
pub struct Session {
    fd: u64,
    state: SessionState,
}

/// An egg laid by a fork: a slot in a team where a new player can hatch.
pub struct Egg {
    id: usize,
    team: String,
    position: Position,
}

/// The value of a `SessionState`.
pub enum SessionStateView {
    AwaitingTeamName,
    Ready { player_id: EntityId, team: Seq<char> },
    Gui,
}

/// The value of a `Session`.
pub struct SessionView {
    pub fd: u64,
    pub state: SessionStateView,
}

/// The value of an `Egg`.
pub struct EggView {
    pub id: usize,
    pub team: Seq<char>,
    pub position: Position,
}

/// The value of a `Game`.
pub struct GameView {
    pub map: MapView,
    pub players: Seq<EntityView>,
    pub teams: Seq<Seq<char>>,
    pub clients_per_team: usize,
    pub time_unit: usize,
    /// Slots of each team, in the order of `teams`.
    pub capacity: Seq<usize>,
    pub eggs: Seq<EggView>,
    pub next_egg_id: usize,
    pub ticks: u64,
    pub sessions: Seq<SessionView>,
    /// Text owed to each connection, sent at the next tick.
    pub reply: Map<i32, Seq<char>>,
    /// Players taking part in an incantation, who accept no command.
    pub frozen: Seq<EntityId>,
}

impl SessionState {
    pub open spec fn view(&self) -> SessionStateView {
        match self {
            SessionState::AwaitingTeamName => SessionStateView::AwaitingTeamName,
            SessionState::Ready { player_id, team } => SessionStateView::Ready {
                player_id: *player_id,
                team: team@,
            },
            SessionState::Gui => SessionStateView::Gui,
        }
    }
}

impl Session {
    pub closed spec fn view(&self) -> SessionView {
        SessionView { fd: self.fd, state: self.state.view() }
    }
}

impl Egg {
    pub closed spec fn view(&self) -> EggView {
        EggView { id: self.id, team: self.team@, position: self.position }
    }
}

/// The game's state.
pub struct Game {
    map: WorldMap,
    players: Vec<Entity>,
    teams: Vec<String>,
    clients_per_team: usize,
    time_unit: usize,
    /// One slot count per team, in the order of `teams`, rather than a map
    /// keyed by team name: lookups in a map keyed by strings cannot be
    /// reasoned about here, while a list position can; the first team of a
    /// given name is the one counted (see `team_index`).
    team_capacity: Vec<usize>,
    eggs: Vec<Egg>,
    next_egg_id: usize,
    ticks: u64,
    /// The sessions as a list rather than a map keyed by connection: the
    /// game walks them (to reach every graphical client, to count a team's
    /// players, to renumber them when a player leaves), and the order in
    /// which a hash map is walked is unspecified. The list holds each
    /// connection at most once (see `game_wf`), so it has the same contents
    /// in a known order.
    sessions: Vec<Session>,
    reply: HashMap<i32, String>,
    frozen: Vec<EntityId>,
}

impl View for Game {
    type V = GameView;

    closed spec fn view(&self) -> GameView {
        GameView {
            map: self.map@,
            players: self.players@.map_values(|e: Entity| e@),
            teams: texts_of(self.teams@),
            clients_per_team: self.clients_per_team,
            time_unit: self.time_unit,
            capacity: self.team_capacity@,
            eggs: self.eggs@.map_values(|e: Egg| e.view()),
            next_egg_id: self.next_egg_id,
            ticks: self.ticks,
            sessions: self.sessions@.map_values(|s: Session| s.view()),
            reply: self.reply@.map_values(|s: String| s@),
            frozen: self.frozen@,
        }
    }
}

/// The conditions that every operation of the game keeps: a non-empty,
/// well-shaped map whose area fits in memory; one slot count per team;
/// each player numbered by its place in the list; one session per
/// connection; and every ready session bound to an existing player.
pub open spec fn game_wf(g: GameView) -> bool {
    &&& grid_shape(g.map.cells, g.map.width, g.map.height)
    &&& g.map.width > 0
    &&& g.map.height > 0
    &&& g.map.width * g.map.height <= isize::MAX
    &&& g.capacity.len() == g.teams.len()
    &&& forall|i: int| 0 <= i < g.players.len() ==> #[trigger] g.players[i].id == i
    &&& forall|i: int, j: int|
        0 <= i < g.sessions.len() && 0 <= j < g.sessions.len() && i != j ==> #[trigger] g.sessions[i].fd
            != #[trigger] g.sessions[j].fd
    &&& forall|i: int| 0 <= i < g.sessions.len() ==> session_bound(#[trigger] g.sessions[i], g.players.len())
}

/// A ready session refers to one of `n` players.
pub open spec fn session_bound(s: SessionView, n: nat) -> bool {
    match s.state {
        SessionStateView::Ready { player_id, .. } => player_id < n,
        _ => true,
    }
}

/// The reply map with `text` appended to what is owed to `fd`.
pub open spec fn with_reply(reply: Map<i32, Seq<char>>, fd: i32, text: Seq<char>) -> Map<
    i32,
    Seq<char>,
> {
    reply.insert(
        fd,
        (if reply.contains_key(fd) {
            reply[fd]
        } else {
            Seq::empty()
        }) + text,
    )
}

/// The reply map with `text` appended for every graphical session among
/// `sessions`, in order; a session's number is taken as an `i32`.
pub open spec fn to_guis(reply: Map<i32, Seq<char>>, sessions: Seq<SessionView>, text: Seq<char>) -> Map<
    i32,
    Seq<char>,
>
    decreases sessions.len(),
{
    if sessions.len() == 0 {
        reply
    } else {
        let prev = to_guis(reply, sessions.drop_last(), text);
        if sessions.last().state is Gui {
            with_reply(prev, sessions.last().fd as i32, text)
        } else {
            prev
        }
    }
}

/// A game state with `text` sent to every graphical session.
pub open spec fn send_gui(g: GameView, text: Seq<char>) -> GameView {
    GameView { reply: to_guis(g.reply, g.sessions, text), ..g }
}

/// A game state with `text` owed to `fd`.
pub open spec fn send_to(g: GameView, fd: i32, text: Seq<char>) -> GameView {
    GameView { reply: with_reply(g.reply, fd, text), ..g }
}

/// The state of a new game: a populated `width` by `height` map, the given
/// teams with `clients_per_team` slots each, no player, no egg, no session.
pub open spec fn new_game_view(
    width: nat,
    height: nat,
    teams: Seq<Seq<char>>,
    clients_per_team: usize,
    time_unit: usize,
) -> GameView {
    GameView {
        map: MapView {
            width,
            height,
            cells: refill_spec(empty_grid(width, height), width * height, 0).0,
        },
        players: Seq::empty(),
        teams,
        clients_per_team,
        time_unit,
        capacity: Seq::new(teams.len(), |i: int| clients_per_team),
        eggs: Seq::empty(),
        next_egg_id: 0,
        ticks: 0,
        sessions: Seq::empty(),
        reply: Map::empty(),
        frozen: Seq::empty(),
    }
}

/// What the completed action `kind` of player `i` does: the state after,
/// and the answer owed to the player.
pub open spec fn act_spec(g: GameView, i: int, kind: EActionView) -> (GameView, Seq<char>) {
    match kind {
        EActionView::Forward => forward_spec(g, i),
        EActionView::Left => turn_spec(g, i, Rotation::Left),
        EActionView::Right => turn_spec(g, i, Rotation::Right),
        EActionView::Look => (g, look_spec(g, i)),
        EActionView::Inventory => (g, inventory_text(g.players[i])),
        EActionView::Take(r) => take_spec(g, i, r),
        EActionView::Place(r) => set_spec(g, i, r),
        EActionView::Broadcast(text) => (
            send_gui(
                broadcast_spec(g, i, text, g.players.len()),
                "pbc #"@ + dec(g.players[i].id as nat) + " "@ + text + "\n"@,
            ),
            "ok\n"@,
        ),
        EActionView::Eject => eject_spec(g, i),
        EActionView::Fork => fork_spec(g, i),
        EActionView::Incantation { position, level, participants } => finish_spec(
            g,
            position,
            level as nat,
            participants,
        ),
    }
}

/// Player `i`'s turn in a tick: its first queued action counts down; when
/// that completes it, the action is carried out and its answer is owed to
/// the player's connection.
pub open spec fn player_turn(g: GameView, i: int) -> GameView {
    let (p1, done) = first_action_step(g.players[i]);
    let g1 = with_player(g, i, p1);
    match done {
        None => g1,
        Some(kind) => {
            let (g2, answer) = act_spec(g1, i, kind);
            send_to(g2, g2.players[i].raw_fd, answer)
        },
    }
}

/// The turns of the first `n` players, in order.
pub open spec fn turns(g: GameView, n: nat) -> GameView
    decreases n,
{
    if n == 0 {
        g
    } else {
        player_turn(turns(g, (n - 1) as nat), n - 1)
    }
}

/// Each graphical client gets the `bct` line of the tile of each position,
/// in order.
pub open spec fn refill_lines(g: GameView, positions: Seq<Position>) -> GameView
    decreases positions.len(),
{
    if positions.len() == 0 {
        g
    } else {
        let prev = refill_lines(g, positions.drop_last());
        let p = positions.last();
        send_gui(prev, tile_text(prev.map, gui_x(prev.map, p), gui_y(prev.map, p)))
    }
}

/// The map is refilled, and every tile that got an item is shown to the
/// graphical clients, once per item.
pub open spec fn refill_step(g: GameView) -> GameView {
    let (cells, positions) = refill_spec(g.map.cells, g.map.width * g.map.height, 0);
    refill_lines(GameView { map: MapView { cells, ..g.map }, ..g }, positions)
}

/// Hunger for player `i` over one tick, and whether it died. A dead player
/// is skipped. A player that is not hungry gets one tick hungrier; a hungry
/// one eats one food for 126 ticks; a hungry one with no food dies: it
/// loses its connection, `dead` is owed to that connection and the
/// graphical clients get `pdi #id`.
pub open spec fn hunger_spec(g: GameView, i: int) -> (GameView, bool) {
    let p = g.players[i];
    if !p.alive {
        (g, false)
    } else if p.saturation == 0 {
        if p.inventory[0] == 0 {
            let g1 = with_player(g, i, EntityView { alive: false, raw_fd: -1i32, ..p });
            (send_gui(send_to(g1, p.raw_fd, "dead\n"@), "pdi #"@ + dec(p.id as nat) + "\n"@), true)
        } else {
            (
                with_player(
                    g,
                    i,
                    EntityView {
                        inventory: p.inventory.update(0, (p.inventory[0] - 1) as usize),
                        saturation: 126,
                        ..p
                    },
                ),
                false,
            )
        }
    } else {
        (with_player(g, i, EntityView { saturation: (p.saturation - 1) as usize, ..p }), false)
    }
}

/// Hunger for the first `n` players, in order: the state after, and the
/// places of those who died, in increasing order.
pub open spec fn hunger(g: GameView, n: nat) -> (GameView, Seq<usize>)
    decreases n,
{
    if n == 0 {
        (g, Seq::empty())
    } else {
        let (g1, dead) = hunger(g, (n - 1) as nat);
        let (g2, died) = hunger_spec(g1, n - 1);
        (
            g2,
            if died {
                dead.push((n - 1) as usize)
            } else {
                dead
            },
        )
    }
}

/// The players at the places `dead[0]` to `dead[k - 1]` leave, the last
/// one first.
pub open spec fn remove_dead(g: GameView, dead: Seq<usize>, k: nat) -> GameView
    decreases k,
{
    if k == 0 {
        g
    } else {
        remove_dead(remove_spec(g, dead[k - 1] as int), dead, (k - 1) as nat)
    }
}

/// One tick of the game: the tick counter moves on (wrapping around);
/// every `REFILL_INTERVAL` ticks the map is refilled; every player gets
/// hungrier, and those who starve leave; then every player takes its turn.
pub open spec fn tick_spec(g: GameView) -> GameView {
    let ticks = g.ticks.wrapping_add(1);
    let g0 = GameView { ticks, ..g };
    let g1 = if ticks % REFILL_INTERVAL == 0 {
        refill_step(g0)
    } else {
        g0
    };
    let (g2, dead) = hunger(g1, g1.players.len());
    let g3 = remove_dead(g2, dead, dead.len());
    turns(g3, g3.players.len())
}

impl Game {
    /// The game's state keeps `game_wf`.
    pub open spec fn wf(&self) -> bool {
        game_wf(self@)
    }

    proof fn lemma_map_wf(&self)
        requires
            self.wf(),
        ensures
            self.map.wf(),
            self.map@ == self@.map,
    {
    }

    /// A new game at the default frequency of 100.
    pub fn new(width: usize, height: usize, teams: Vec<String>, clients_per_team: usize) -> (g: Self)
        requires
            width > 0,
            height > 0,
            width * height <= isize::MAX,
        ensures
            g.wf(),
            g@ == new_game_view(width as nat, height as nat, texts_of(teams@), clients_per_team, 100),
    {
        Self::new_with_frequency(width, height, teams, clients_per_team, 100)
    }

    /// A new game (see `new_game_view`).
    pub fn new_with_frequency(
        width: usize,
        height: usize,
        teams: Vec<String>,
        clients_per_team: usize,
        time_unit: usize,
    ) -> (g: Self)
        requires
            width > 0,
            height > 0,
            width * height <= isize::MAX,
        ensures
            g.wf(),
            g@ == new_game_view(
                width as nat,
                height as nat,
                texts_of(teams@),
                clients_per_team,
                time_unit,
            ),
    {
        let mut map = WorldMap::new(width, height);
        map.populate();
        let mut team_capacity: Vec<usize> = Vec::new();
        let mut i: usize = 0;
        while i < teams.len()
            invariant
                i <= teams@.len(),
                team_capacity@ == Seq::new(i as nat, |k: int| clients_per_team),
            decreases teams@.len() - i,
        {
            team_capacity.push(clients_per_team);
            assert(team_capacity@ =~= Seq::new((i + 1) as nat, |k: int| clients_per_team));
            i = i + 1;
        }
        let g = Game {
            map,
            players: Vec::new(),
            teams,
            clients_per_team,
            time_unit,
            team_capacity,
            eggs: Vec::new(),
            next_egg_id: 0,
            ticks: 0,
            sessions: Vec::new(),
            reply: HashMap::new(),
            frozen: Vec::new(),
        };
        assert(g@.players =~= Seq::<EntityView>::empty());
        assert(g@.eggs =~= Seq::<EggView>::empty());
        assert(g@.sessions =~= Seq::<SessionView>::empty());
        assert(g@.reply =~= Map::<i32, Seq<char>>::empty());
        assert(g@ == new_game_view(
            width as nat,
            height as nat,
            texts_of(g.teams@),
            clients_per_team,
            time_unit,
        ));
        g
    }

    /// The map's width and height.
    pub fn map_dimensions(&self) -> (d: (usize, usize))
        ensures
            d.0 == self@.map.width,
            d.1 == self@.map.height,
    {
        self.map.dimensions()
    }

    /// The team names.
    pub fn teams(&self) -> (t: &[String])
        ensures
            texts_of(t@) == self@.teams,
    {
        self.teams.as_slice()
    }

    /// The number of slots each team starts with.
    pub fn clients_per_team(&self) -> (n: usize)
        ensures
            n == self@.clients_per_team,
    {
        self.clients_per_team
    }

    /// The players, in order of their numbers.
    pub fn players(&self) -> (p: &[Entity])
        ensures
            p@.map_values(|e: Entity| e@) == self@.players,
    {
        self.players.as_slice()
    }

    /// The player at place `i`, to change in place.
    pub fn player_mut(&mut self, i: usize) -> (p: &mut Entity)
        requires
            i < old(self)@.players.len(),
        ensures
            p@ == old(self)@.players[i as int],
            final(self)@.players =~~= old(self)@.players.update(i as int, final(p)@),
            final(self)@ == (GameView { players: final(self)@.players, ..old(self)@ }),
    {
        &mut self.players[i]
    }

    /// The map, to change in place.
    pub fn map_mut(&mut self) -> (m: &mut WorldMap)
        ensures
            m@ == old(self)@.map,
            final(self)@ == (GameView { map: final(m)@, ..old(self)@ }),
    {
        &mut self.map
    }

    /// The map.
    pub fn map(&self) -> (m: &WorldMap)
        ensures
            m@ == self@.map,
    {
        &self.map
    }

    /// The game's frequency: ticks per second.
    pub fn tickrate(&self) -> (r: Option<usize>)
        ensures
            r == Some(self@.time_unit),
    {
        Some(self.time_unit)
    }

    /// The number of ticks run so far.
    pub fn ticks(&self) -> (t: u64)
        ensures
            t == self@.ticks,
    {
        self.ticks
    }

    /// Appends `response` to what is owed to `fd`.
    fn push_reply(&mut self, fd: i32, response: &str)
        requires
            old(self).wf(),
        ensures
            final(self).wf(),
            final(self)@ == send_to(old(self)@, fd, response@),
    {
        let mut cur = match self.reply.get(&fd) {
            Some(s) => s.clone(),
            None => String::new(),
        };
        cur.append(response);
        self.reply.insert(fd, cur);
        assert(self@.reply =~= with_reply(old(self)@.reply, fd, response@));
    }

    /// Appends `response` to what is owed to every graphical session.
    fn send_to_guis(&mut self, response: &str)
        requires
            old(self).wf(),
        ensures
            final(self).wf(),
            final(self)@ == send_gui(old(self)@, response@),
    {
        let ghost start = self@;
        let mut i: usize = 0;
        assert(start.sessions.take(0) =~= Seq::<SessionView>::empty());
        while i < self.sessions.len()
            invariant
                i <= self@.sessions.len(),
                self.wf(),
                self@ == (GameView { reply: to_guis(start.reply, start.sessions.take(i as int), response@), ..start }),
            decreases self@.sessions.len() - i,
        {
            assert(start.sessions.take(i + 1).drop_last() =~= start.sessions.take(i as int));
            assert(start.sessions[i as int] == self.sessions@[i as int].view());
            let is_gui = match self.sessions[i].state {
                SessionState::Gui => true,
                _ => false,
            };
            if is_gui {
                let fd = self.sessions[i].fd as i32;
                self.push_reply(fd, response);
            }
            i = i + 1;
        }
        assert(start.sessions.take(self@.sessions.len() as int) =~= start.sessions);
    }

    /// Adds a fresh player at the end of the list, numbered by its place;
    /// returns that number as an `EntityId`.
    pub fn add_players(&mut self) -> (id: EntityId)
        requires
            old(self).wf(),
        ensures
            final(self).wf(),
            id == old(self)@.players.len() as u8,
            final(self)@ == (GameView {
                players: old(self)@.players.push(EntityView { id: old(self)@.players.len() as usize, ..dummy_view() }),
                ..old(self)@
            }),
    {
        let id = self.players.len();
        let mut e = Entity::new_dummy();
        e.set_id(id);
        self.players.push(e);
        assert(self@.players =~= old(self)@.players.push(EntityView { id: id, ..dummy_view() }));
        id as EntityId
    }

    /// Removes up to `amount` items `resource` from the map; returns how
    /// many were removed.
    pub fn deplete(&mut self, resource: Resource, amount: usize) -> (removed: usize)
        requires
            old(self).wf(),
        ensures
            final(self).wf(),
            removed == crate::data::map::min_nat(crate::data::map::grid_count(old(self)@.map.cells, resource), amount as nat),
            final(self)@ == (GameView {
                map: MapView {
                    cells: crate::data::map::deplete_grid(old(self)@.map.cells, resource, amount as nat),
                    ..old(self)@.map
                },
                ..old(self)@
            }),
    {
        self.map.deplete(resource, amount)
    }

    /// The number of items `resource` on the map, capped at `usize::MAX`.
    pub fn count(&self, resource: Resource) -> (n: usize)
        requires
            self.wf(),
        ensures
            n == crate::data::map::capped(crate::data::map::grid_count(self@.map.cells, resource)),
    {
        self.map.count(resource)
    }

    /// The number of items of each resource on the map.
    pub fn resource_counts(&self) -> (c: ResourceCounts)
        requires
            self.wf(),
        ensures
            forall|i: int|
                0 <= i < 7 ==> #[trigger] c.at(i) == crate::data::map::capped(
                    crate::data::map::grid_count(self@.map.cells, resource_at(i)),
                ),
    {
        self.map.resource_counts()
    }

    /// The target number of items of each resource for the map's area.
    pub fn target_resource_counts(&self) -> (c: ResourceCounts)
        requires
            self.wf(),
        ensures
            forall|i: int|
                0 <= i < 7 ==> #[trigger] c.at(i) == spec_max_for(
                    self@.map.width * self@.map.height,
                    resource_at(i),
                ),
    {
        self.map.target_counts()
    }
}


impl Game {
    /// Every player, in order, takes its turn (see `player_turn`).
    pub fn do_action(&mut self)
        requires
            old(self).wf(),
        ensures
            final(self).wf(),
            final(self)@ == turns(old(self)@, old(self)@.players.len()),
    {
        let ghost g = self@;
        let n = self.players.len();
        let mut i: usize = 0;
        while i < n
            invariant
                self.wf(),
                n == g.players.len(),
                i <= n,
                self@.players.len() == n,
                self@ == turns(g, i as nat),
            decreases n - i,
        {
            let ghost prev = self@;
            assert(self.players@[i as int]@ == prev.players[i as int]);
            let done = self.players[i].advance_first_action();
            proof {
                let p1 = first_action_step(prev.players[i as int]).0;
                assert(self@.players =~= prev.players.update(i as int, p1));
                self.lemma_wf_player_update_from(prev, i as int, p1);
            }
            match done {
                None => {},
                Some(kind) => {
                    let response = match kind {
                        EAction::Forward => self.forward(i),
                        EAction::Left => self.rotate(i, Rotation::Left),
                        EAction::Right => self.rotate(i, Rotation::Right),
                        EAction::Look => self.look(i),
                        EAction::Inventory => self.inventory(i),
                        EAction::Take(r) => self.take(i, r),
                        EAction::Place(r) => self.set(i, r),
                        EAction::Broadcast(text) => {
                            let id = self.players[i].get_id();
                            self.broadcast(i, text.as_str());
                            let mut msg = String::from_str("pbc #");
                            push_dec(&mut msg, id as u128);
                            msg.append(" ");
                            msg.append(text.as_str());
                            msg.append("\n");
                            self.send_to_guis(msg.as_str());
                            String::from_str("ok\n")
                        },
                        EAction::Eject => self.eject(i),
                        EAction::Fork => self.fork(i),
                        EAction::Incantation { position, level, participants } => self.finish_incantation(
                            position,
                            level,
                            participants.as_slice(),
                        ),
                    };
                    let fd = self.players[i].raw_fd();
                    self.push_reply(fd, response.as_str());
                },
            }
            i = i + 1;
        }
    }
}


impl Game {
    /// Refills the map and shows each tile that got an item (see
    /// `refill_step`).
    fn refill_and_show(&mut self)
        requires
            old(self).wf(),
        ensures
            final(self).wf(),
            final(self)@ == refill_step(old(self)@),
    {
        let ghost g = self@;
        proof {
            self.lemma_map_wf();
        }
        let positions = self.map.refill();
        let ghost g0 = self@;
        assert(g0 == (GameView {
            map: MapView { cells: refill_spec(g.map.cells, g.map.width * g.map.height, 0).0, ..g.map },
            ..g
        }));
        let mut k: usize = 0;
        assert(positions@.take(0) =~= Seq::<Position>::empty());
        while k < positions.len()
            invariant
                k <= positions@.len(),
                self.wf(),
                self@ == refill_lines(g0, positions@.take(k as int)),
                self@.map == g0.map,
            decreases positions@.len() - k,
        {
            assert(positions@.take(k + 1).drop_last() =~= positions@.take(k as int));
            let tile = self.gui_tile_at(positions[k]);
            self.send_to_guis(tile.as_str());
            k = k + 1;
        }
        assert(positions@.take(positions@.len() as int) =~= positions@);
    }

    /// Hunger for every player (see `hunger`); returns the places of those
    /// who died.
    fn starve(&mut self) -> (dead: Vec<usize>)
        requires
            old(self).wf(),
        ensures
            final(self).wf(),
            (final(self)@, dead@) == hunger(old(self)@, old(self)@.players.len()),
            final(self)@.players.len() == old(self)@.players.len(),
            forall|a: int, b: int| 0 <= a < b < dead@.len() ==> dead@[a] < dead@[b],
            forall|a: int| 0 <= a < dead@.len() ==> dead@[a] < old(self)@.players.len(),
    {
        let ghost g = self@;
        let n = self.players.len();
        let mut dead: Vec<usize> = Vec::new();
        let mut i: usize = 0;
        while i < n
            invariant
                i <= n,
                n == g.players.len(),
                self.wf(),
                self@.players.len() == n,
                (self@, dead@) == hunger(g, i as nat),
                forall|a: int, b: int| 0 <= a < b < dead@.len() ==> dead@[a] < dead@[b],
                forall|a: int| 0 <= a < dead@.len() ==> dead@[a] < i,
            decreases n - i,
        {
            let ghost prev = self@;
            let ghost p = prev.players[i as int];
            assert(self.players@[i as int]@ == p);
            if self.players[i].is_alive() {
                if self.players[i].get_saturation() == 0 {
                    if self.players[i].inventory()[0] == 0 {
                        let fd = self.players[i].raw_fd();
                        let id = self.players[i].get_id();
                        self.players[i].set_alive(false);
                        self.players[i].set_raw_fd(-1);
                        proof {
                            let np = EntityView { alive: false, raw_fd: -1i32, ..p };
                            assert(self@.players =~= prev.players.update(i as int, np));
                            self.lemma_wf_player_update_from(prev, i as int, np);
                        }
                        self.push_reply(fd, "dead\n");
                        let mut msg = String::from_str("pdi #");
                        push_dec(&mut msg, id as u128);
                        msg.append("\n");
                        self.send_to_guis(msg.as_str());
                        dead.push(i);
                    } else {
                        let food = self.players[i].inventory()[0];
                        let inv = self.players[i].inventory_mut();
                        inv[0] = food - 1;
                        self.players[i].set_saturation(126);
                        proof {
                            let np = EntityView {
                                inventory: p.inventory.update(0, (p.inventory[0] - 1) as usize),
                                saturation: 126,
                                ..p
                            };
                            assert(self@.players[i as int].inventory =~= np.inventory);
                            assert(self@.players =~= prev.players.update(i as int, np));
                            self.lemma_wf_player_update_from(prev, i as int, np);
                        }
                    }
                } else {
                    let sat = self.players[i].get_saturation();
                    self.players[i].set_saturation(sat - 1);
                    proof {
                        let np = EntityView { saturation: (p.saturation - 1) as usize, ..p };
                        assert(self@.players =~= prev.players.update(i as int, np));
                        self.lemma_wf_player_update_from(prev, i as int, np);
                    }
                }
            }
            i = i + 1;
        }
        dead
    }

    /// One tick of the game (see `tick_spec`).
    pub fn run_ticks(&mut self)
        requires
            old(self).wf(),
        ensures
            final(self).wf(),
            final(self)@ == tick_spec(old(self)@),
    {
        let ghost g = self@;
        self.ticks = self.ticks.wrapping_add(1);
        if self.ticks % REFILL_INTERVAL == 0 {
            self.refill_and_show();
        }
        let ghost g1 = self@;
        let dead = self.starve();
        let ghost g2 = self@;
        let mut k: usize = dead.len();
        while k > 0
            invariant
                k <= dead@.len(),
                self.wf(),
                self@.players.len() == g1.players.len() - (dead@.len() - k),
                remove_dead(self@, dead@, k as nat) == remove_dead(g2, dead@, dead@.len()),
                forall|a: int, b: int| 0 <= a < b < dead@.len() ==> dead@[a] < dead@[b],
                forall|a: int| 0 <= a < dead@.len() ==> dead@[a] < g1.players.len(),
            decreases k,
        {
            k = k - 1;
            proof {
                lemma_sorted_room(dead@, g1.players.len(), k as int);
            }
            self.remove_player(dead[k]);
        }
        self.do_action();
    }
}

/// In an increasing list of places below `n`, the place at `k` leaves room
/// for those after it.
proof fn lemma_sorted_room(dead: Seq<usize>, n: nat, k: int)
    requires
        0 <= k < dead.len(),
        forall|a: int, b: int| 0 <= a < b < dead.len() ==> dead[a] < dead[b],
        forall|a: int| 0 <= a < dead.len() ==> dead[a] < n,
    ensures
        dead[k] + (dead.len() - 1 - k) < n,
    decreases dead.len() - k,
{
    if k + 1 < dead.len() {
        lemma_sorted_room(dead, n, k + 1);
    }
}


/// A new game's map holds exactly each resource's target: its density
/// share of the area, at least one.
pub proof fn lemma_new_game_at_targets(
    width: nat,
    height: nat,
    teams: Seq<Seq<char>>,
    clients_per_team: usize,
    time_unit: usize,
    j: int,
)
    requires
        width > 0,
        height > 0,
        0 <= j < 7,
    ensures
        crate::data::map::grid_count(
            new_game_view(width, height, teams, clients_per_team, time_unit).map.cells,
            resource_at(j),
        ) == spec_max_for(width * height, resource_at(j)),
{
    crate::data::map::lemma_empty_grid_count(width, height, resource_at(j));
    crate::data::map::lemma_refill_counts(MapView { width, height, cells: empty_grid(width, height) });
}

} // verus!
