//! What each completed action does to the game, and what it answers.
use vstd::prelude::*;

use crate::data::entity::{step, turn, EntityView};
use crate::data::map::{
    first_index, grid_count, lemma_first_index_count, lemma_map_put_counts, lemma_map_take_counts,
    lemma_map_take_tile, lemma_set_tile_shape, map_put, map_take, seq_count, tile_at, wrap, wrap_coord,
    MapView,
};
use crate::data::resource::resource_at;
use crate::data::{Direction, EntityId, Position, Resource, Rotation};
use crate::text::{dec, join, join_strings, push_dec, texts_of};

use super::gui::{gui_x, gui_y, line_id, lemma_id_truncation, player_line, shown_food, tile_text};
use super::{game_wf, send_gui, send_to, Egg, EggView, Game, GameView};

verus! {

/// How many items of the resource at position `i` a player is shown to
/// hold (food counts its remaining life too).
pub open spec fn shown_amount(p: EntityView, i: int) -> nat {
    if i == 0 {
        shown_food(p)
    } else {
        p.inventory[i] as nat
    }
}

/// `name amount` for the resource at position `i`.
pub open spec fn inventory_entry(p: EntityView, i: int) -> Seq<char> {
    resource_at(i).spec_name() + " "@ + dec(shown_amount(p, i))
}

/// The answer to `Inventory`: `[food n, linemate n, ...]`.
pub open spec fn inventory_text(p: EntityView) -> Seq<char> {
    "["@ + join(Seq::new(7, |i: int| inventory_entry(p, i)), ", "@) + "]\n"@
}

/// The game with player `i` replaced by `p`.
pub open spec fn with_player(g: GameView, i: int, p: EntityView) -> GameView {
    GameView { players: g.players.update(i, p), ..g }
}

/// Player `i` picks up an item `r` from its tile: the state after, and
/// the answer. `ko`, with nothing changed, when the tile holds no such
/// item or the player already holds `usize::MAX` of them.
pub open spec fn take_spec(g: GameView, i: int, r: Resource) -> (GameView, Seq<char>) {
    let p = g.players[i];
    let pos = p.pos;
    let slot = r.slot() as int;
    if p.inventory[slot] == usize::MAX || first_index(tile_at(g.map, pos.x as int, pos.y as int), r) is None {
        (g, "ko\n"@)
    } else {
        let g1 = GameView {
            map: map_take(g.map, pos, r),
            players: g.players.update(
                i,
                EntityView { inventory: p.inventory.update(slot, (p.inventory[slot] + 1) as usize), ..p },
            ),
            ..g
        };
        (
            send_gui(
                g1,
                "pgt #"@ + dec(p.id as nat) + " "@ + dec(r.slot()) + "\n"@ + tile_text(
                    g1.map,
                    gui_x(g1.map, pos),
                    gui_y(g1.map, pos),
                ),
            ),
            "ok\n"@,
        )
    }
}

/// Player `i` drops an item `r` on its tile: the state after, and the
/// answer. `ko`, with nothing changed, when it holds none.
pub open spec fn set_spec(g: GameView, i: int, r: Resource) -> (GameView, Seq<char>) {
    let p = g.players[i];
    let pos = p.pos;
    let slot = r.slot() as int;
    if p.inventory[slot] == 0 {
        (g, "ko\n"@)
    } else {
        let g1 = GameView {
            map: map_put(g.map, pos, r),
            players: g.players.update(
                i,
                EntityView { inventory: p.inventory.update(slot, (p.inventory[slot] - 1) as usize), ..p },
            ),
            ..g
        };
        (
            send_gui(
                g1,
                "pdr #"@ + dec(p.id as nat) + " "@ + dec(r.slot()) + "\n"@ + tile_text(
                    g1.map,
                    gui_x(g1.map, pos),
                    gui_y(g1.map, pos),
                ),
            ),
            "ok\n"@,
        )
    }
}

impl Game {
    /// The answer to `Inventory` for player `player_index`.
    pub(crate) fn inventory(&self, player_index: usize) -> (s: String)
        requires
            self.wf(),
            player_index < self@.players.len(),
        ensures
            s@ == inventory_text(self@.players[player_index as int]),
    {
        let player = &self.players[player_index];
        let ghost p = self@.players[player_index as int];
        assert(player@ == p);
        let inventory = player.inventory();
        let mut entries: Vec<String> = Vec::new();
        let mut i: usize = 0;
        while i < 7
            invariant
                i <= 7,
                player@ == p,
                inventory@ == p.inventory,
                inventory@.len() == 7,
                entries@.len() == i,
                forall|k: int| 0 <= k < i ==> #[trigger] entries@[k]@ == inventory_entry(p, k),
            decreases 7 - i,
        {
            let resource = Resource::from_index(i);
            let mut entry = String::from_str(resource.name());
            entry.append(" ");
            if i == 0 {
                push_dec(&mut entry, (player.get_saturation() / 126) as u128 + inventory[0] as u128);
            } else {
                push_dec(&mut entry, inventory[i] as u128);
            }
            entries.push(entry);
            i = i + 1;
        }
        assert(texts_of(entries@) =~= Seq::new(7, |k: int| inventory_entry(p, k)));
        let joined = join_strings(&entries, ", ");
        let mut s = String::from_str("[");
        s.append(joined.as_str());
        s.append("]\n");
        s
    }

    /// Player `player_index` picks up an item `resource` (see `take_spec`).
    pub(crate) fn take(&mut self, player_index: usize, resource: Resource) -> (s: String)
        requires
            old(self).wf(),
            player_index < old(self)@.players.len(),
        ensures
            final(self).wf(),
            final(self)@.players.len() == old(self)@.players.len(),
            (final(self)@, s@) == take_spec(old(self)@, player_index as int, resource),
    {
        proof {
            self.lemma_map_wf();
        }
        let ghost g = self@;
        assert(self.players@[player_index as int]@ == g.players[player_index as int]);
        let position = self.players[player_index].position();
        let slot = resource.index();
        let held = self.players[player_index].inventory()[slot];
        assert(held == g.players[player_index as int].inventory[slot as int]);
        if held == usize::MAX {
            let ko = String::from_str("ko\n");
            assert(take_spec(g, player_index as int, resource) == (g, "ko\n"@));
            return ko;
        }
        if !self.map.take(position, resource) {
            return String::from_str("ko\n");
        }
        self.players[player_index].take(resource);
        let ghost p = g.players[player_index as int];
        let ghost np = EntityView { inventory: p.inventory.update(slot as int, (p.inventory[slot as int] + 1) as usize), ..p };
        proof {
            assert(self@.players =~= g.players.update(player_index as int, np));
            let g1 = GameView { map: map_take(g.map, position, resource), players: g.players.update(player_index as int, np), ..g };
            assert(self@ == g1);
            assert(with_player(g, player_index as int, np).players == g1.players);
            self.lemma_wf_player_update_from(g, player_index as int, np);
        }
        let mut msg = String::from_str("pgt #");
        push_dec(&mut msg, self.players[player_index].get_id() as u128);
        msg.append(" ");
        push_dec(&mut msg, slot as u128);
        msg.append("\n");
        let tile = self.gui_tile_at(position);
        msg.append(tile.as_str());
        self.send_to_guis(msg.as_str());
        String::from_str("ok\n")
    }

    /// Player `player_index` drops an item `resource` (see `set_spec`).
    pub(crate) fn set(&mut self, player_index: usize, resource: Resource) -> (s: String)
        requires
            old(self).wf(),
            player_index < old(self)@.players.len(),
        ensures
            final(self).wf(),
            final(self)@.players.len() == old(self)@.players.len(),
            (final(self)@, s@) == set_spec(old(self)@, player_index as int, resource),
    {
        proof {
            self.lemma_map_wf();
        }
        let ghost g = self@;
        assert(self.players@[player_index as int]@ == g.players[player_index as int]);
        let slot = resource.index();
        if !self.players[player_index].set(resource) {
            assert(self@ == g) by {
                assert(self@.players =~= g.players);
            }
            return String::from_str("ko\n");
        }
        let ghost p = g.players[player_index as int];
        let ghost np = EntityView { inventory: p.inventory.update(slot as int, (p.inventory[slot as int] - 1) as usize), ..p };
        let position = self.players[player_index].position();
        self.map.put(position, resource);
        proof {
            assert(self@.players =~= g.players.update(player_index as int, np));
            self.lemma_wf_player_update_from(g, player_index as int, np);
        }
        let mut msg = String::from_str("pdr #");
        push_dec(&mut msg, self.players[player_index].get_id() as u128);
        msg.append(" ");
        push_dec(&mut msg, slot as u128);
        msg.append("\n");
        let tile = self.gui_tile_at(position);
        msg.append(tile.as_str());
        self.send_to_guis(msg.as_str());
        String::from_str("ok\n")
    }

    pub(crate) proof fn lemma_wf_player_update_from(&self, g: GameView, i: int, p: EntityView)
        requires
            game_wf(g),
            0 <= i < g.players.len(),
            p.id == g.players[i].id,
            self@.players == g.players.update(i, p),
            self@.sessions == g.sessions,
            self@.teams == g.teams,
            self@.capacity == g.capacity,
            self@.map.width == g.map.width,
            self@.map.height == g.map.height,
            crate::data::map::grid_shape(self@.map.cells, g.map.width, g.map.height),
        ensures
            self.wf(),
    {
        assert forall|j: int| 0 <= j < self@.players.len() implies #[trigger] self@.players[j].id == j by {
            if j != i {
                assert(self@.players[j] == g.players[j]);
            }
        }
        assert forall|k: int| 0 <= k < self@.sessions.len() implies #[trigger] super::session_bound(self@.sessions[k], self@.players.len()) by {
            assert(super::session_bound(g.sessions[k], g.players.len()));
        }
    }
}

/// The shortest signed step from `from` to `to` around a circle of `size`:
/// the offset modulo `size`, taken negative when it exceeds half the size.
pub open spec fn shortest(from: int, to: int, size: nat) -> int {
    let d = (to - from) % (size as int);
    if d > size as int / 2 {
        d - size
    } else {
        d
    }
}

/// The sign of `v`.
pub open spec fn sign(v: int) -> int {
    if v > 0 {
        1
    } else if v < 0 {
        -1
    } else {
        0
    }
}

/// The number of the sound direction on the map for a step `(dx, dy)`:
/// 1 for straight north, counting counter-clockwise to 8.
pub open spec fn absolute_sound(dx: int, dy: int) -> nat {
    if dx == 0 && dy == 1 {
        1
    } else if dx == -1 && dy == 1 {
        2
    } else if dx == -1 && dy == 0 {
        3
    } else if dx == -1 && dy == -1 {
        4
    } else if dx == 0 && dy == -1 {
        5
    } else if dx == 1 && dy == -1 {
        6
    } else if dx == 1 && dy == 0 {
        7
    } else {
        8
    }
}

/// How far the frame of a player facing `d` is turned from north, in
/// eighths.
pub open spec fn facing_turn(d: Direction) -> nat {
    match d {
        Direction::North => 0,
        Direction::West => 2,
        Direction::South => 4,
        Direction::Est => 6,
        Direction::NoDirection => 0,
    }
}

/// The tile from which player `receiver` hears a sound made at `source`:
/// 0 on its own tile, else 1 for ahead, counting counter-clockwise to 8.
pub open spec fn sound_spec(g: GameView, receiver: int, source: Position) -> nat {
    let p = g.players[receiver];
    let dx = sign(shortest(p.pos.x as int, source.x as int, g.map.width));
    let dy = sign(shortest(p.pos.y as int, source.y as int, g.map.height));
    if dx == 0 && dy == 0 {
        0
    } else {
        ((absolute_sound(dx, dy) + 7 - facing_turn(p.direction)) % 8 + 1) as nat
    }
}

/// Whether two positions are on the same tile of the map.
pub open spec fn same_tile_spec(m: MapView, a: Position, b: Position) -> bool {
    wrap(a.x as int, m.width) == wrap(b.x as int, m.width) && wrap(a.y as int, m.height) == wrap(
        b.y as int,
        m.height,
    )
}

/// `message k, text` sent by player `source` to each other connected
/// player among the first `n`, `k` being where it hears the sound from.
pub open spec fn broadcast_spec(g: GameView, source: int, text: Seq<char>, n: nat) -> GameView
    decreases n,
{
    if n == 0 {
        g
    } else {
        let prev = broadcast_spec(g, source, text, (n - 1) as nat);
        let r = n - 1;
        if r != source && g.players[r].raw_fd >= 0 {
            send_to(
                prev,
                g.players[r].raw_fd,
                "message "@ + dec(sound_spec(g, r, g.players[source].pos)) + ", "@ + text + "\n"@,
            )
        } else {
            prev
        }
    }
}

/// Whether player `i` is pushed away by player `source`'s `Eject`: another
/// connected player on the same tile.
pub open spec fn is_victim(g: GameView, source: int, i: int) -> bool {
    i != source && g.players[i].raw_fd >= 0 && same_tile_spec(
        g.map,
        g.players[i].pos,
        g.players[source].pos,
    )
}

/// The pushes of `Eject` for the first `n` players: each victim moves one
/// step from the source's tile the way the source faces, hears `eject: k`
/// (`k` being where it hears the source's tile from), and the graphical
/// clients get its new position.
pub open spec fn eject_players(g: GameView, source: int, n: nat) -> GameView
    decreases n,
{
    if n == 0 {
        g
    } else {
        let prev = eject_players(g, source, (n - 1) as nat);
        let v = n - 1;
        if is_victim(g, source, v) {
            let origin = g.players[source].pos;
            let dest = step(origin, g.players[source].direction);
            let g2 = with_player(prev, v, EntityView { pos: dest, ..prev.players[v] });
            let g3 = send_to(
                g2,
                g2.players[v].raw_fd,
                "eject: "@ + dec(sound_spec(g2, v, origin)) + "\n"@,
            );
            send_gui(g3, player_line(g3, "ppo"@, line_id(g3.players[v])))
        } else {
            prev
        }
    }
}

/// The eggs among `eggs` that lie on the same tile as `origin`.
pub open spec fn eggs_on(m: MapView, eggs: Seq<EggView>, origin: Position) -> Seq<EggView>
    decreases eggs.len(),
{
    if eggs.len() == 0 {
        eggs
    } else {
        let prev = eggs_on(m, eggs.drop_last(), origin);
        if same_tile_spec(m, eggs.last().position, origin) {
            prev.push(eggs.last())
        } else {
            prev
        }
    }
}

/// The eggs among `eggs` that do not lie on the same tile as `origin`.
pub open spec fn eggs_off(m: MapView, eggs: Seq<EggView>, origin: Position) -> Seq<EggView>
    decreases eggs.len(),
{
    if eggs.len() == 0 {
        eggs
    } else {
        let prev = eggs_off(m, eggs.drop_last(), origin);
        if same_tile_spec(m, eggs.last().position, origin) {
            prev
        } else {
            prev.push(eggs.last())
        }
    }
}

/// The position of the first team named `t`.
pub open spec fn team_index(teams: Seq<Seq<char>>, t: Seq<char>) -> Option<int>
    decreases teams.len(),
{
    if teams.len() == 0 {
        None
    } else {
        match team_index(teams.drop_last(), t) {
            Some(i) => Some(i),
            None => if teams.last() == t {
                Some(teams.len() - 1)
            } else {
                None
            },
        }
    }
}

/// The slots with one taken from team `t` (none below zero; nothing when
/// `t` is not a team).
pub open spec fn capacity_down(teams: Seq<Seq<char>>, cap: Seq<usize>, t: Seq<char>) -> Seq<usize> {
    match team_index(teams, t) {
        Some(i) => cap.update(i, if cap[i] > 0 {
            (cap[i] - 1) as usize
        } else {
            0
        }),
        None => cap,
    }
}

/// The slots with one added to team `t` (none above `usize::MAX`; nothing
/// when `t` is not a team).
pub open spec fn capacity_up(teams: Seq<Seq<char>>, cap: Seq<usize>, t: Seq<char>) -> Seq<usize> {
    match team_index(teams, t) {
        Some(i) => cap.update(i, if cap[i] < usize::MAX {
            (cap[i] + 1) as usize
        } else {
            usize::MAX
        }),
        None => cap,
    }
}

/// Destroys the first `n` of `destroyed`, in order: each takes a slot from
/// its team and is announced with `edi #id`.
pub open spec fn destroy_eggs(g: GameView, destroyed: Seq<EggView>, n: nat) -> GameView
    decreases n,
{
    if n == 0 {
        g
    } else {
        let prev = destroy_eggs(g, destroyed, (n - 1) as nat);
        let e = destroyed[n - 1];
        send_gui(
            GameView { capacity: capacity_down(prev.teams, prev.capacity, e.team), ..prev },
            "edi #"@ + dec(e.id as nat) + "\n"@,
        )
    }
}

/// Whether some player among the first `n` is a victim of `source`'s
/// `Eject`.
pub open spec fn any_victim(g: GameView, source: int, n: nat) -> bool
    decreases n,
{
    n > 0 && (any_victim(g, source, (n - 1) as nat) || is_victim(g, source, n - 1))
}

/// Player `source`'s `Eject`: the victims are pushed, the eggs on its tile
/// are destroyed; the answer is `ok` when someone was pushed (and the
/// graphical clients get `pex #id`), else `ko`.
pub open spec fn eject_spec(g: GameView, source: int) -> (GameView, Seq<char>) {
    let origin = g.players[source].pos;
    let g1 = eject_players(g, source, g.players.len());
    let destroyed = eggs_on(g1.map, g1.eggs, origin);
    let g2 = GameView { eggs: eggs_off(g1.map, g1.eggs, origin), ..g1 };
    let g3 = destroy_eggs(g2, destroyed, destroyed.len());
    if any_victim(g, source, g.players.len()) {
        (send_gui(g3, "pex #"@ + dec(g.players[source].id as nat) + "\n"@), "ok\n"@)
    } else {
        (g3, "ko\n"@)
    }
}

impl Game {
    /// The shortest signed step from `from` to `to` around a circle of
    /// `size`.
    fn shortest_delta(from: i8, to: i8, size: usize) -> (d: isize)
        requires
            0 < size <= isize::MAX,
        ensures
            d == shortest(from as int, to as int, size as nat),
    {
        let delta = match (to as isize - from as isize).checked_rem_euclid(size as isize) {
            Some(v) => v,
            None => 0,
        };
        if delta > size as isize / 2 {
            delta - size as isize
        } else {
            delta
        }
    }

    /// Where player `receiver` hears a sound made at `source` from.
    pub(crate) fn sound_tile(&self, receiver: usize, source: Position) -> (k: usize)
        requires
            self.wf(),
            receiver < self@.players.len(),
        ensures
            k == sound_spec(self@, receiver as int, source),
    {
        proof {
            self.lemma_map_wf();
            crate::data::map::lemma_area_bounds(self@.map.width, self@.map.height);
        }
        let player = &self.players[receiver];
        assert(player@ == self@.players[receiver as int]);
        let position = player.position();
        let (width, height) = self.map.dimensions();
        let ddx = Self::shortest_delta(position.x, source.x, width);
        let ddy = Self::shortest_delta(position.y, source.y, height);
        let dx: isize = if ddx > 0 { 1 } else if ddx < 0 { -1 } else { 0 };
        let dy: isize = if ddy > 0 { 1 } else if ddy < 0 { -1 } else { 0 };
        if dx == 0 && dy == 0 {
            return 0;
        }
        let absolute: usize = if dx == 0 && dy == 1 {
            1
        } else if dx == -1 && dy == 1 {
            2
        } else if dx == -1 && dy == 0 {
            3
        } else if dx == -1 && dy == -1 {
            4
        } else if dx == 0 && dy == -1 {
            5
        } else if dx == 1 && dy == -1 {
            6
        } else if dx == 1 && dy == 0 {
            7
        } else {
            8
        };
        let rotation: usize = match player.direction() {
            Direction::North => 0,
            Direction::West => 2,
            Direction::South => 4,
            Direction::Est => 6,
            Direction::NoDirection => 0,
        };
        (absolute + 7 - rotation) % 8 + 1
    }

    /// Whether two positions are on the same tile.
    pub(crate) fn same_tile(&self, first: Position, second: Position) -> (b: bool)
        requires
            self.wf(),
        ensures
            b == same_tile_spec(self@.map, first, second),
    {
        let (x1, y1) = self.gui_position_xy(first);
        let (x2, y2) = self.gui_position_xy(second);
        x1 == x2 && y1 == y2
    }

    /// Player `source` broadcasts `text` (see `broadcast_spec`).
    pub(crate) fn broadcast(&mut self, source: usize, text: &str)
        requires
            old(self).wf(),
            source < old(self)@.players.len(),
        ensures
            final(self).wf(),
            final(self)@.players.len() == old(self)@.players.len(),
            final(self)@ == broadcast_spec(old(self)@, source as int, text@, old(self)@.players.len()),
    {
        let ghost g = self@;
        let position = self.players[source].position();
        assert(position == g.players[source as int].pos);
        let n = self.players.len();
        let mut receiver: usize = 0;
        while receiver < n
            invariant
                n == g.players.len(),
                receiver <= n,
                source < n,
                position == g.players[source as int].pos,
                self.wf(),
                self@ == broadcast_spec(g, source as int, text@, receiver as nat),
                self@.players == g.players,
                self@.map == g.map,
            decreases n - receiver,
        {
            assert(self.players@[receiver as int]@ == g.players[receiver as int]);
            let fd = self.players[receiver].raw_fd();
            if receiver != source && fd >= 0 {
                let mut msg = String::from_str("message ");
                let k = self.sound_tile(receiver, position);
                push_dec(&mut msg, k as u128);
                msg.append(", ");
                msg.append(text);
                msg.append("\n");
                self.push_reply(fd, msg.as_str());
            }
            receiver = receiver + 1;
        }
    }
}

/// The values of a list of eggs.
pub open spec fn egg_views(v: Seq<Egg>) -> Seq<EggView> {
    v.map_values(|e: Egg| e.view())
}

proof fn lemma_team_index_extend(teams: Seq<Seq<char>>, t: Seq<char>, k: int)
    requires
        0 <= k <= teams.len(),
        team_index(teams.take(k), t) is Some,
    ensures
        team_index(teams, t) == team_index(teams.take(k), t),
    decreases teams.len() - k,
{
    if k < teams.len() {
        assert(teams.take(k + 1).drop_last() =~= teams.take(k));
        lemma_team_index_extend(teams, t, k + 1);
    } else {
        assert(teams.take(k) =~= teams);
    }
}

impl Game {
    /// The position of the first team named `team`.
    pub(crate) fn team_slot(&self, team: &str) -> (r: Option<usize>)
        requires
            self.wf(),
        ensures
            match r {
                Some(i) => team_index(self@.teams, team@) == Some(i as int) && i < self@.capacity.len(),
                None => team_index(self@.teams, team@) is None,
            },
    {
        let ghost t = self@.teams;
        let mut i: usize = 0;
        assert(t.take(0) =~= Seq::<Seq<char>>::empty());
        while i < self.teams.len()
            invariant
                self.wf(),
                t == self@.teams,
                t == texts_of(self.teams@),
                i <= t.len(),
                team_index(t.take(i as int), team@) is None,
            decreases t.len() - i,
        {
            assert(t.take(i + 1).drop_last() =~= t.take(i as int));
            if crate::text::str_eq(self.teams[i].as_str(), team) {
                proof {
                    lemma_team_index_extend(t, team@, i + 1);
                }
                return Some(i);
            }
            i = i + 1;
        }
        assert(t.take(t.len() as int) =~= t);
        None
    }

    /// Takes one slot from team `team` (see `capacity_down`).
    pub(crate) fn capacity_decrement(&mut self, team: &str)
        requires
            old(self).wf(),
        ensures
            final(self).wf(),
            final(self)@ == (GameView {
                capacity: capacity_down(old(self)@.teams, old(self)@.capacity, team@),
                ..old(self)@
            }),
    {
        match self.team_slot(team) {
            Some(i) => {
                let c = self.team_capacity[i];
                let v = if c > 0 { c - 1 } else { 0 };
                self.team_capacity.set(i, v);
            },
            None => {},
        }
    }

    /// Adds one slot to team `team` (see `capacity_up`).
    pub(crate) fn capacity_increment(&mut self, team: &str)
        requires
            old(self).wf(),
        ensures
            final(self).wf(),
            final(self)@ == (GameView {
                capacity: capacity_up(old(self)@.teams, old(self)@.capacity, team@),
                ..old(self)@
            }),
    {
        match self.team_slot(team) {
            Some(i) => {
                let c = self.team_capacity[i];
                let v = if c < usize::MAX { c + 1 } else { usize::MAX };
                self.team_capacity.set(i, v);
            },
            None => {},
        }
    }

    /// One step from `origin` the way `direction` points.
    fn step_from(origin: Position, direction: Direction) -> (p: Position)
        ensures
            p == step(origin, direction),
    {
        let mut destination = origin;
        match direction {
            Direction::North => destination.y = destination.y.wrapping_add(1),
            Direction::South => destination.y = destination.y.wrapping_sub(1),
            Direction::Est => destination.x = destination.x.wrapping_add(1),
            Direction::West => destination.x = destination.x.wrapping_sub(1),
            Direction::NoDirection => {},
        }
        destination
    }

    /// Player `source` ejects the others from its tile (see `eject_spec`).
    pub(crate) fn eject(&mut self, source: usize) -> (s: String)
        requires
            old(self).wf(),
            source < old(self)@.players.len(),
        ensures
            final(self).wf(),
            final(self)@.players.len() == old(self)@.players.len(),
            (final(self)@, s@) == eject_spec(old(self)@, source as int),
    {
        let ghost g = self@;
        assert(self.players@[source as int]@ == g.players[source as int]);
        let origin = self.players[source].position();
        let direction = self.players[source].direction();
        let n = self.players.len();
        let mut ejected = false;
        let mut k: usize = 0;
        while k < n
            invariant
                n == g.players.len(),
                k <= n,
                source < n,
                origin == g.players[source as int].pos,
                direction == g.players[source as int].direction,
                self.wf(),
                self@ == eject_players(g, source as int, k as nat),
                self@.players.len() == n,
                forall|j: int| k <= j < n ==> #[trigger] self@.players[j] == g.players[j],
                self@.players[source as int] == g.players[source as int],
                self@.map == g.map,
                self@.eggs == g.eggs,
                self@.teams == g.teams,
                self@.capacity == g.capacity,
                ejected == any_victim(g, source as int, k as nat),
            decreases n - k,
        {
            assert(self.players@[k as int]@ == self@.players[k as int]);
            let fd = self.players[k].raw_fd();
            if k != source && fd >= 0 && self.same_tile(self.players[k].position(), origin) {
                let ghost prev = self@;
                let destination = Self::step_from(origin, direction);
                self.players[k].set_position(destination);
                proof {
                    let np = EntityView { pos: destination, ..prev.players[k as int] };
                    assert(self@.players =~= prev.players.update(k as int, np));
                    self.lemma_wf_player_update_from(prev, k as int, np);
                }
                let tile = self.sound_tile(k, origin);
                let mut msg = String::from_str("eject: ");
                push_dec(&mut msg, tile as u128);
                msg.append("\n");
                assert(self.players@[k as int]@ == self@.players[k as int]);
                let victim_fd = self.players[k].raw_fd();
                self.push_reply(victim_fd, msg.as_str());
                assert(self.players@[k as int]@ == self@.players[k as int]);
                proof {
                    lemma_id_truncation(self@.players[k as int].id);
                }
                let line = self.gui_player_line("ppo", self.players[k].get_id() as EntityId);
                self.send_to_guis(line.as_str());
                ejected = true;
            }
            k = k + 1;
        }
        let ghost g1 = self@;
        let mut kept: Vec<Egg> = Vec::new();
        let mut destroyed: Vec<Egg> = Vec::new();
        let mut i: usize = 0;
        assert(g1.eggs.take(0) =~= Seq::<EggView>::empty());
        while i < self.eggs.len()
            invariant
                self@ == g1,
                self.wf(),
                i <= g1.eggs.len(),
                g1.eggs == egg_views(self.eggs@),
                egg_views(kept@) == eggs_off(g1.map, g1.eggs.take(i as int), origin),
                egg_views(destroyed@) == eggs_on(g1.map, g1.eggs.take(i as int), origin),
            decreases g1.eggs.len() - i,
        {
            assert(g1.eggs.take(i + 1).drop_last() =~= g1.eggs.take(i as int));
            let e = &self.eggs[i];
            let copy = Egg { id: e.id, team: e.team.clone(), position: e.position };
            assert(copy.view() == g1.eggs[i as int]);
            if self.same_tile(e.position, origin) {
                let ghost before = destroyed@;
                destroyed.push(copy);
                assert(egg_views(destroyed@) =~= egg_views(before).push(g1.eggs[i as int]));
            } else {
                let ghost before = kept@;
                kept.push(copy);
                assert(egg_views(kept@) =~= egg_views(before).push(g1.eggs[i as int]));
            }
            i = i + 1;
        }
        assert(g1.eggs.take(g1.eggs.len() as int) =~= g1.eggs);
        self.eggs = kept;
        let ghost g2 = self@;
        let ghost dv = egg_views(destroyed@);
        let mut j: usize = 0;
        while j < destroyed.len()
            invariant
                self.wf(),
                j <= dv.len(),
                dv == egg_views(destroyed@),
                self@ == destroy_eggs(g2, dv, j as nat),
                self@.teams == g2.teams,
                self@.players == g2.players,
            decreases dv.len() - j,
        {
            assert(destroyed@[j as int].view() == dv[j as int]);
            self.capacity_decrement(destroyed[j].team.as_str());
            let mut msg = String::from_str("edi #");
            push_dec(&mut msg, destroyed[j].id as u128);
            msg.append("\n");
            self.send_to_guis(msg.as_str());
            j = j + 1;
        }
        if ejected {
            let mut msg = String::from_str("pex #");
            assert(self@.players[source as int].id == source);
            assert(g.players[source as int].id == source);
            push_dec(&mut msg, source as u128);
            msg.append("\n");
            self.send_to_guis(msg.as_str());
            String::from_str("ok\n")
        } else {
            String::from_str("ko\n")
        }
    }
}

/// `d` scaled by a unit component `c` (1, -1 or 0).
pub open spec fn scale(c: int, d: int) -> int {
    if c == 1 {
        d
    } else if c == -1 {
        -d
    } else {
        0
    }
}

/// The unit vectors ahead of and to the right of a player facing `d`,
/// as `(forward x, forward y, right x, right y)`.
pub open spec fn vision(d: Direction) -> (int, int, int, int) {
    match d {
        Direction::North => (0, 1, 1, 0),
        Direction::South => (0, -1, -1, 0),
        Direction::Est => (1, 0, 0, -1),
        Direction::West => (-1, 0, 0, 1),
        Direction::NoDirection => (0, 0, 0, 0),
    }
}

/// `player` once for each of the players whose position is on the tile
/// `(x, y)`.
pub open spec fn players_on(m: MapView, players: Seq<EntityView>, x: nat, y: nat) -> Seq<Seq<char>>
    decreases players.len(),
{
    if players.len() == 0 {
        Seq::empty()
    } else {
        let prev = players_on(m, players.drop_last(), x, y);
        if gui_x(m, players.last().pos) == x && gui_y(m, players.last().pos) == y {
            prev.push("player"@)
        } else {
            prev
        }
    }
}

/// What is seen on the tile `(x, y)`: `player` for each player there,
/// then the name of each item, separated by spaces.
pub open spec fn tile_content_spec(g: GameView, x: nat, y: nat) -> Seq<char> {
    join(
        players_on(g.map, g.players, x, y) + g.map.cells[y as int][x as int].map_values(
            |r: Resource| r.spec_name(),
        ),
        " "@,
    )
}

/// The tile seen at depth `d` and lateral offset `l` from `pos` by a
/// player facing `dir`.
pub open spec fn seen_tile(g: GameView, pos: Position, dir: Direction, d: int, l: int) -> Seq<char> {
    let (fx, fy, rx, ry) = vision(dir);
    tile_content_spec(
        g,
        wrap(pos.x as int + scale(fx, d) + scale(rx, l), g.map.width),
        wrap(pos.y as int + scale(fy, d) + scale(ry, l), g.map.height),
    )
}

/// The first `k` tiles seen at depth `d`, from the left (`l = -d`).
pub open spec fn depth_tiles(g: GameView, pos: Position, dir: Direction, d: int, k: nat) -> Seq<
    Seq<char>,
>
    decreases k,
{
    if k == 0 {
        Seq::empty()
    } else {
        depth_tiles(g, pos, dir, d, (k - 1) as nat).push(seen_tile(g, pos, dir, d, k - 1 - d))
    }
}

/// The tiles seen at depths `0` to `n - 1`, each depth from left to right.
pub open spec fn look_tiles(g: GameView, pos: Position, dir: Direction, n: nat) -> Seq<Seq<char>>
    decreases n,
{
    if n == 0 {
        Seq::empty()
    } else {
        look_tiles(g, pos, dir, (n - 1) as nat) + depth_tiles(
            g,
            pos,
            dir,
            n - 1,
            (2 * (n - 1) + 1) as nat,
        )
    }
}

/// How many depths a player sees: its level taken as an `isize`, plus one
/// (none when that is negative).
pub open spec fn look_depths(level: usize) -> nat {
    if (level as isize) < 0 {
        0
    } else {
        ((level as isize) + 1) as nat
    }
}

/// The answer to `Look` for player `i`: the tiles of the triangle in front
/// of it, `[t0,t1,...]`.
pub open spec fn look_spec(g: GameView, i: int) -> Seq<char> {
    let p = g.players[i];
    "["@ + join(look_tiles(g, p.pos, p.direction, look_depths(p.level)), ","@) + "]\n"@
}

/// Player `i` lays an egg on its tile for its team: the state after, and
/// the answer.
pub open spec fn fork_spec(g: GameView, i: int) -> (GameView, Seq<char>) {
    let p = g.players[i];
    let egg = EggView { id: g.next_egg_id, team: p.team, position: p.pos };
    let g1 = GameView {
        eggs: g.eggs.push(egg),
        next_egg_id: g.next_egg_id.wrapping_add(1),
        capacity: capacity_up(g.teams, g.capacity, p.team),
        ..g
    };
    (
        send_gui(
            g1,
            "pfk #"@ + dec(p.id as nat) + "\nenw #"@ + dec(g.next_egg_id as nat) + " #"@ + dec(
                p.id as nat,
            ) + " "@ + dec(gui_x(g.map, p.pos)) + " "@ + dec(gui_y(g.map, p.pos)) + "\n"@,
        ),
        "ok\n"@,
    )
}

/// Player `i` takes the new value `p`; the graphical clients get the
/// position line of the player its number designates.
pub open spec fn moved_spec(g: GameView, i: int, p: EntityView) -> (GameView, Seq<char>) {
    let g1 = with_player(g, i, p);
    (send_gui(g1, player_line(g1, "ppo"@, line_id(g1.players[i]))), "ok\n"@)
}

/// Player `i` moves one step ahead.
pub open spec fn forward_spec(g: GameView, i: int) -> (GameView, Seq<char>) {
    let p = g.players[i];
    moved_spec(g, i, EntityView { pos: step(p.pos, p.direction), ..p })
}

/// Player `i` turns a quarter.
pub open spec fn turn_spec(g: GameView, i: int, rotation: Rotation) -> (GameView, Seq<char>) {
    let p = g.players[i];
    moved_spec(g, i, EntityView { direction: turn(p.direction, rotation), ..p })
}

/// `v` taken modulo `m`.
fn wrap_wide(v: i128, m: usize) -> (r: usize)
    requires
        0 < m,
    ensures
        r == wrap(v as int, m as nat),
        r < m,
{
    match v.checked_rem_euclid(m as i128) {
        Some(r) => r as usize,
        None => 0,
    }
}

/// `d` scaled by a unit component `c`.
fn scale_by(c: isize, d: i128) -> (r: i128)
    requires
        -0x1_0000_0000_0000_0000 <= d <= 0x1_0000_0000_0000_0000,
    ensures
        r == scale(c as int, d as int),
{
    if c == 1 {
        d
    } else if c == -1 {
        -d
    } else {
        0
    }
}

impl Game {
    /// The unit vectors ahead of and to the right of a player facing
    /// `direction`.
    fn vision_vectors(direction: Direction) -> (v: ((isize, isize), (isize, isize)))
        ensures
            (v.0.0 as int, v.0.1 as int, v.1.0 as int, v.1.1 as int) == vision(direction),
    {
        match direction {
            Direction::North => ((0, 1), (1, 0)),
            Direction::South => ((0, -1), (-1, 0)),
            Direction::Est => ((1, 0), (0, -1)),
            Direction::West => ((-1, 0), (0, 1)),
            Direction::NoDirection => ((0, 0), (0, 0)),
        }
    }

    /// What is seen on the tile at `(x, y)`, taken modulo the size.
    pub(crate) fn tile_content(&self, x: isize, y: isize) -> (s: String)
        requires
            self.wf(),
        ensures
            s@ == tile_content_spec(
                self@,
                wrap(x as int, self@.map.width),
                wrap(y as int, self@.map.height),
            ),
    {
        proof {
            self.lemma_map_wf();
            crate::data::map::lemma_area_bounds(self@.map.width, self@.map.height);
        }
        let (width, height) = self.map.dimensions();
        let wx = wrap_coord(x, width);
        let wy = wrap_coord(y, height);
        let mut objects: Vec<String> = Vec::new();
        let mut i: usize = 0;
        let ghost ps = self@.players;
        assert(ps.take(0) =~= Seq::<EntityView>::empty());
        while i < self.players.len()
            invariant
                self.wf(),
                ps == self@.players,
                i <= ps.len(),
                wx < width,
                wy < height,
                width == self@.map.width,
                height == self@.map.height,
                texts_of(objects@) == players_on(self@.map, ps.take(i as int), wx as nat, wy as nat),
            decreases ps.len() - i,
        {
            assert(ps.take(i + 1).drop_last() =~= ps.take(i as int));
            assert(self.players@[i as int]@ == ps[i as int]);
            let (px, py) = self.gui_position_xy(self.players[i].position());
            if px == wx && py == wy {
                let ghost before = objects@;
                objects.push(String::from_str("player"));
                assert(texts_of(objects@) =~= texts_of(before).push("player"@));
            }
            i = i + 1;
        }
        assert(ps.take(ps.len() as int) =~= ps);
        let ghost head = texts_of(objects@);
        let tile = self.map.get(wx as isize, wy as isize);
        let items = tile.resources();
        proof {
            crate::data::map::lemma_wrap_small(wx as int, width as nat);
            crate::data::map::lemma_wrap_small(wy as int, height as nat);
        }
        assert(items@ == self@.map.cells[wy as int][wx as int]);
        let mut k: usize = 0;
        while k < items.len()
            invariant
                k <= items@.len(),
                texts_of(objects@) == head + items@.take(k as int).map_values(|r: Resource| r.spec_name()),
            decreases items@.len() - k,
        {
            let ghost before = objects@;
            objects.push(String::from_str(items[k].name()));
            assert(items@.take(k + 1).map_values(|r: Resource| r.spec_name()) =~= items@.take(k as int).map_values(|r: Resource| r.spec_name()).push(items@[k as int].spec_name()));
            assert(texts_of(objects@) =~= texts_of(before).push(items@[k as int].spec_name()));
            k = k + 1;
        }
        assert(items@.take(items@.len() as int) =~= items@);
        join_strings(&objects, " ")
    }

    /// The answer to `Look` for player `player_index` (see `look_spec`).
    pub fn look(&self, player_index: usize) -> (s: String)
        requires
            self.wf(),
            player_index < self@.players.len(),
        ensures
            s@ == look_spec(self@, player_index as int),
    {
        proof {
            self.lemma_map_wf();
            crate::data::map::lemma_area_bounds(self@.map.width, self@.map.height);
        }
        let player = &self.players[player_index];
        let ghost p = self@.players[player_index as int];
        assert(player@ == p);
        let position = player.position();
        let dir = player.direction();
        let (forward, right) = Self::vision_vectors(dir);
        let (width, height) = self.map.dimensions();
        let max_depth = player.level() as isize;
        let mut tiles: Vec<String> = Vec::new();
        let mut depth: i128 = 0;
        while depth <= max_depth as i128
            invariant
                self.wf(),
                0 <= depth,
                depth <= max_depth as i128 + 1 || depth == 0,
                max_depth == p.level as isize,
                width <= isize::MAX,
                height <= isize::MAX,
                width == self@.map.width,
                height == self@.map.height,
                position == p.pos,
                dir == p.direction,
                (forward.0 as int, forward.1 as int, right.0 as int, right.1 as int) == vision(dir),
                texts_of(tiles@) == look_tiles(self@, position, dir, depth as nat),
            decreases max_depth as i128 + 1 - depth,
        {
            let ghost before = texts_of(tiles@);
            let mut lateral: i128 = -depth;
            while lateral <= depth
                invariant
                    self.wf(),
                    0 <= depth <= max_depth as i128,
                    -depth <= lateral <= depth + 1,
                    max_depth <= isize::MAX,
                    width <= isize::MAX,
                    height <= isize::MAX,
                    width == self@.map.width,
                    height == self@.map.height,
                    position == p.pos,
                    dir == p.direction,
                    (forward.0 as int, forward.1 as int, right.0 as int, right.1 as int) == vision(dir),
                    texts_of(tiles@) == before + depth_tiles(self@, position, dir, depth as int, (lateral + depth) as nat),
                decreases depth + 1 - lateral,
            {
                let x: i128 = position.x as i128 + scale_by(forward.0, depth) + scale_by(right.0, lateral);
                let y: i128 = position.y as i128 + scale_by(forward.1, depth) + scale_by(right.1, lateral);
                let wx = wrap_wide(x, width);
                let wy = wrap_wide(y, height);
                let content = self.tile_content(wx as isize, wy as isize);
                proof {
                    crate::data::map::lemma_wrap_small(wx as int, width as nat);
                    crate::data::map::lemma_wrap_small(wy as int, height as nat);
                    let (fx, fy, rx, ry) = vision(dir);
                    assert(x == position.x as int + scale(fx, depth as int) + scale(rx, lateral as int));
                    assert(y == position.y as int + scale(fy, depth as int) + scale(ry, lateral as int));
                    assert((wx as isize) as int == wx);
                    assert((wy as isize) as int == wy);
                    assert(content@ == seen_tile(self@, position, dir, depth as int, lateral as int));
                }
                let ghost prev = tiles@;
                tiles.push(content);
                assert(texts_of(tiles@) =~= texts_of(prev).push(seen_tile(self@, position, dir, depth as int, lateral as int)));
                lateral = lateral + 1;
            }
            assert(texts_of(tiles@) =~= look_tiles(self@, position, dir, (depth + 1) as nat));
            depth = depth + 1;
        }
        let joined = join_strings(&tiles, ",");
        let mut s = String::from_str("[");
        s.append(joined.as_str());
        s.append("]\n");
        s
    }

    /// Player `player_index` lays an egg (see `fork_spec`).
    pub(crate) fn fork(&mut self, player_index: usize) -> (s: String)
        requires
            old(self).wf(),
            player_index < old(self)@.players.len(),
        ensures
            final(self).wf(),
            final(self)@.players.len() == old(self)@.players.len(),
            (final(self)@, s@) == fork_spec(old(self)@, player_index as int),
    {
        let ghost g = self@;
        assert(self.players@[player_index as int]@ == g.players[player_index as int]);
        let team = String::from_str(self.players[player_index].team());
        let position = self.players[player_index].position();
        let player_id = self.players[player_index].get_id();
        let egg_id = self.next_egg_id;
        self.next_egg_id = self.next_egg_id.wrapping_add(1);
        let egg = Egg { id: egg_id, team: team.clone(), position };
        self.eggs.push(egg);
        assert(self@.eggs =~= g.eggs.push(EggView { id: egg_id, team: team@, position }));
        self.capacity_increment(team.as_str());
        let (x, y) = self.gui_position_xy(position);
        let mut msg = String::from_str("pfk #");
        push_dec(&mut msg, player_id as u128);
        msg.append("\nenw #");
        push_dec(&mut msg, egg_id as u128);
        msg.append(" #");
        push_dec(&mut msg, player_id as u128);
        msg.append(" ");
        push_dec(&mut msg, x as u128);
        msg.append(" ");
        push_dec(&mut msg, y as u128);
        msg.append("\n");
        self.send_to_guis(msg.as_str());
        String::from_str("ok\n")
    }

    /// The graphical clients get the position line of player
    /// `player_index`'s number.
    fn announce_position(&mut self, player_index: usize)
        requires
            old(self).wf(),
            player_index < old(self)@.players.len(),
        ensures
            final(self).wf(),
            final(self)@ == send_gui(
                old(self)@,
                player_line(old(self)@, "ppo"@, line_id(old(self)@.players[player_index as int])),
            ),
    {
        assert(self.players@[player_index as int]@ == self@.players[player_index as int]);
        proof {
            lemma_id_truncation(self@.players[player_index as int].id);
        }
        let line = self.gui_player_line("ppo", self.players[player_index].get_id() as EntityId);
        self.send_to_guis(line.as_str());
    }

    /// Player `player_index` moves one step ahead (see `forward_spec`).
    pub(crate) fn forward(&mut self, player_index: usize) -> (s: String)
        requires
            old(self).wf(),
            player_index < old(self)@.players.len(),
        ensures
            final(self).wf(),
            final(self)@.players.len() == old(self)@.players.len(),
            (final(self)@, s@) == forward_spec(old(self)@, player_index as int),
    {
        let ghost g = self@;
        assert(self.players@[player_index as int]@ == g.players[player_index as int]);
        self.players[player_index].forward();
        proof {
            let p = g.players[player_index as int];
            let np = EntityView { pos: step(p.pos, p.direction), ..p };
            assert(self@.players =~= g.players.update(player_index as int, np));
            self.lemma_wf_player_update_from(g, player_index as int, np);
        }
        self.announce_position(player_index);
        String::from_str("ok\n")
    }

    /// Player `player_index` turns a quarter (see `turn_spec`).
    pub(crate) fn rotate(&mut self, player_index: usize, rotation: Rotation) -> (s: String)
        requires
            old(self).wf(),
            player_index < old(self)@.players.len(),
        ensures
            final(self).wf(),
            final(self)@.players.len() == old(self)@.players.len(),
            (final(self)@, s@) == turn_spec(old(self)@, player_index as int, rotation),
    {
        let ghost g = self@;
        assert(self.players@[player_index as int]@ == g.players[player_index as int]);
        self.players[player_index].rotate(rotation);
        proof {
            let p = g.players[player_index as int];
            let np = EntityView { direction: turn(p.direction, rotation), ..p };
            assert(self@.players =~= g.players.update(player_index as int, np));
            self.lemma_wf_player_update_from(g, player_index as int, np);
        }
        self.announce_position(player_index);
        String::from_str("ok\n")
    }
}


/// How many items `r` the world holds on the map and in player `i`'s
/// inventory together.
pub open spec fn held_and_lying(g: GameView, i: int, r: Resource) -> nat {
    grid_count(g.map.cells, r) + (g.players[i].inventory[r.slot() as int] as nat)
}

/// Taking or dropping an item moves it between the player's tile and its
/// inventory: the number of each resource on the map and in the player's
/// hands together stays the same, whether or not the command succeeds.
pub proof fn lemma_take_set_conserve(g: GameView, i: int, r: Resource, r2: Resource)
    requires
        game_wf(g),
        0 <= i < g.players.len(),
        g.players[i].inventory.len() == 7,
    ensures
        held_and_lying(take_spec(g, i, r).0, i, r2) == held_and_lying(g, i, r2),
        held_and_lying(set_spec(g, i, r).0, i, r2) == held_and_lying(g, i, r2),
{
    let p = g.players[i];
    lemma_map_take_counts(g.map, p.pos, r, r2);
    lemma_map_put_counts(g.map, p.pos, r, r2);
    assert(r.slot() < 7 && r2.slot() < 7);
    assert(r2.slot() == r.slot() <==> r2 == r);
}

/// The number of tiles seen at one depth is the number asked for.
proof fn lemma_depth_tiles_len(g: GameView, pos: Position, dir: Direction, d: int, k: nat)
    ensures
        depth_tiles(g, pos, dir, d, k).len() == k,
    decreases k,
{
    if k > 0 {
        lemma_depth_tiles_len(g, pos, dir, d, (k - 1) as nat);
    }
}

/// Seeing `n` depths shows `n * n` tiles.
proof fn lemma_look_tiles_len(g: GameView, pos: Position, dir: Direction, n: nat)
    ensures
        look_tiles(g, pos, dir, n).len() == n * n,
    decreases n,
{
    if n > 0 {
        let m = (n - 1) as nat;
        lemma_look_tiles_len(g, pos, dir, m);
        lemma_depth_tiles_len(g, pos, dir, n - 1, (2 * m + 1) as nat);
        assert(look_tiles(g, pos, dir, n).len() == m * m + (2 * m + 1));
        assert(m * m + (2 * m + 1) == n * n) by (nonlinear_arith)
            requires
                n == m + 1,
        ;
    } else {
        assert(n * n == 0) by (nonlinear_arith)
            requires
                n == 0,
        ;
    }
}

/// A player of level `level` sees `(level + 1)^2` tiles.
pub proof fn lemma_look_sees_square(g: GameView, pos: Position, dir: Direction, level: usize)
    requires
        level <= isize::MAX,
    ensures
        look_tiles(g, pos, dir, look_depths(level)).len() == (level + 1) * (level + 1),
{
    lemma_look_tiles_len(g, pos, dir, look_depths(level));
}

/// A sound is heard from one of the tiles 0 to 8, and from tile 0 exactly
/// when the source is on the receiver's own tile (no shortest step in
/// either direction).
pub proof fn lemma_sound_range(g: GameView, receiver: int, source: Position)
    ensures
        sound_spec(g, receiver, source) <= 8,
        (sound_spec(g, receiver, source) == 0) == (shortest(
            g.players[receiver].pos.x as int,
            source.x as int,
            g.map.width,
        ) == 0 && shortest(g.players[receiver].pos.y as int, source.y as int, g.map.height) == 0),
{
}


/// A step of `d` (one of -1, 0, 1) on a circle of at least three places is
/// its own shortest offset.
proof fn lemma_shortest_unit(a: int, d: int, size: nat)
    requires
        size >= 3,
        -1 <= d <= 1,
    ensures
        shortest(a, a + d, size) == d,
{
    assert(a + d - a == d);
    if d == -1 {
        vstd::arithmetic::div_mod::lemma_mod_add_multiples_vanish(-1, size as int);
        vstd::arithmetic::div_mod::lemma_small_mod((size - 1) as nat, size);
        assert(size as int + -1 == size - 1);
    } else {
        vstd::arithmetic::div_mod::lemma_small_mod(d as nat, size);
    }
}

/// Moving forward goes one step along the forward vector a player looks
/// along: facing north adds one to `y`, south takes one from `y`, east adds
/// one to `x`, west takes one from `x` (away from the ends of the `i8`
/// range, where coordinates wrap around).
pub proof fn lemma_step_follows_vision(pos: Position, d: Direction)
    requires
        -127 <= pos.x <= 126,
        -127 <= pos.y <= 126,
    ensures
        step(pos, d).x == pos.x + vision(d).0,
        step(pos, d).y == pos.y + vision(d).1,
{
}

/// Whichever way a receiver faces, a sound made on the tile right ahead of
/// it (one step along its forward vector) is heard from tile 1, and one
/// made right behind it from tile 5, on a map at least three tiles wide
/// and high.
pub proof fn lemma_sound_ahead_behind(g: GameView, receiver: int, source: Position)
    requires
        0 <= receiver < g.players.len(),
        g.map.width >= 3,
        g.map.height >= 3,
        !(g.players[receiver].direction is NoDirection),
    ensures
        source.x == g.players[receiver].pos.x + vision(g.players[receiver].direction).0 && source.y
            == g.players[receiver].pos.y + vision(g.players[receiver].direction).1 ==> sound_spec(
            g,
            receiver,
            source,
        ) == 1,
        source.x == g.players[receiver].pos.x - vision(g.players[receiver].direction).0 && source.y
            == g.players[receiver].pos.y - vision(g.players[receiver].direction).1 ==> sound_spec(
            g,
            receiver,
            source,
        ) == 5,
{
    let p = g.players[receiver];
    let dx = source.x - p.pos.x;
    let dy = source.y - p.pos.y;
    if -1 <= dx <= 1 && -1 <= dy <= 1 {
        lemma_shortest_unit(p.pos.x as int, dx, g.map.width);
        lemma_shortest_unit(p.pos.y as int, dy, g.map.height);
        assert(source.x as int == p.pos.x + dx);
        assert(source.y as int == p.pos.y + dy);
    }
}

/// Take succeeds (answer `ok`) exactly when the player's tile holds such an
/// item and the player holds fewer than `usize::MAX` of it; it then holds
/// one more and its tile one fewer, the other resources on the tile
/// staying as they were. Otherwise the answer is `ko` and nothing changes.
pub proof fn lemma_take_outcome(g: GameView, i: int, r: Resource, r2: Resource)
    requires
        game_wf(g),
        0 <= i < g.players.len(),
        g.players[i].inventory.len() == 7,
    ensures
        ({
            let p = g.players[i];
            let t = tile_at(g.map, p.pos.x as int, p.pos.y as int);
            let (g1, answer) = take_spec(g, i, r);
            let ok = seq_count(t, r) > 0 && p.inventory[r.slot() as int] < usize::MAX;
            &&& answer == (if ok {
                "ok\n"@
            } else {
                "ko\n"@
            })
            &&& ok ==> g1.players[i].inventory[r.slot() as int] == p.inventory[r.slot() as int] + 1
            &&& ok ==> g1.players[i].pos == p.pos
            &&& ok ==> seq_count(tile_at(g1.map, p.pos.x as int, p.pos.y as int), r2) + (if r2 == r {
                1nat
            } else {
                0nat
            }) == seq_count(t, r2)
            &&& !ok ==> g1 == g
        }),
{
    let p = g.players[i];
    let t = tile_at(g.map, p.pos.x as int, p.pos.y as int);
    lemma_first_index_count(t, r);
    lemma_map_take_tile(g.map, p.pos, r);
    assert(seq_count(crate::data::map::remove_first(t, r), r2) + (if r2 == r && seq_count(t, r) > 0 {
        1nat
    } else {
        0nat
    }) == seq_count(t, r2));
    assert(r.slot() < 7);
}

/// Set succeeds (answer `ok`) exactly when the player holds such an item;
/// it then holds one fewer and its tile one more, the other resources on
/// the tile staying as they were. Otherwise the answer is `ko` and nothing
/// changes.
pub proof fn lemma_set_outcome(g: GameView, i: int, r: Resource, r2: Resource)
    requires
        game_wf(g),
        0 <= i < g.players.len(),
        g.players[i].inventory.len() == 7,
    ensures
        ({
            let p = g.players[i];
            let t = tile_at(g.map, p.pos.x as int, p.pos.y as int);
            let (g1, answer) = set_spec(g, i, r);
            let ok = p.inventory[r.slot() as int] > 0;
            &&& answer == (if ok {
                "ok\n"@
            } else {
                "ko\n"@
            })
            &&& ok ==> g1.players[i].inventory[r.slot() as int] + 1 == p.inventory[r.slot() as int]
            &&& ok ==> g1.players[i].pos == p.pos
            &&& ok ==> seq_count(tile_at(g1.map, p.pos.x as int, p.pos.y as int), r2) == seq_count(t, r2)
                + (if r2 == r {
                1nat
            } else {
                0nat
            })
            &&& !ok ==> g1 == g
        }),
{
    let p = g.players[i];
    let m = g.map;
    let t = tile_at(m, p.pos.x as int, p.pos.y as int);
    let x = wrap(p.pos.x as int, m.width) as int;
    let y = wrap(p.pos.y as int, m.height) as int;
    lemma_set_tile_shape(m.cells, m.width, m.height, x, y, t.push(r));
    crate::data::map::lemma_seq_count_push_pub(t, r, r2);
    assert(r.slot() < 7);
}

/// The food an `Inventory` answer shows counts every food held: picking
/// one up raises it by one and dropping one lowers it by one; with no food
/// held it is the remaining life in whole meals of 126 ticks. Every other
/// resource shows exactly what is held.
pub proof fn lemma_shown_food(g: GameView, i: int)
    requires
        game_wf(g),
        0 <= i < g.players.len(),
        g.players[i].inventory.len() == 7,
    ensures
        take_spec(g, i, Resource::Food).1 == "ok\n"@ ==> shown_amount(
            take_spec(g, i, Resource::Food).0.players[i],
            0,
        ) == shown_amount(g.players[i], 0) + 1,
        set_spec(g, i, Resource::Food).1 == "ok\n"@ ==> shown_amount(
            set_spec(g, i, Resource::Food).0.players[i],
            0,
        ) + 1 == shown_amount(g.players[i], 0),
        g.players[i].inventory[0] == 0 ==> shown_amount(g.players[i], 0) == g.players[i].saturation
            / 126,
        forall|k: int| 1 <= k < 7 ==> #[trigger] shown_amount(g.players[i], k) == g.players[i].inventory[k],
{
    reveal_strlit("ok\n");
    reveal_strlit("ko\n");
    assert("ok\n"@ != "ko\n"@) by {
        assert("ok\n"@[0] != "ko\n"@[0]);
    }
}


/// The `Inventory` answer lists, in protocol order, each resource's name
/// and the amount shown for it, food first:
/// `[food f, linemate n1, deraumere n2, sibur n3, mendiane n4, phiras n5, thystame n6]`.
pub proof fn lemma_inventory_answer(p: EntityView)
    ensures
        inventory_text(p) == "[food "@ + dec(shown_amount(p, 0)) + ", linemate "@ + dec(
            shown_amount(p, 1),
        ) + ", deraumere "@ + dec(shown_amount(p, 2)) + ", sibur "@ + dec(shown_amount(p, 3))
            + ", mendiane "@ + dec(shown_amount(p, 4)) + ", phiras "@ + dec(shown_amount(p, 5))
            + ", thystame "@ + dec(shown_amount(p, 6)) + "]\n"@,
{
    let e = Seq::new(7, |i: int| inventory_entry(p, i));
    let sep = ", "@;
    reveal_with_fuel(join, 8);
    assert(e.drop_last().drop_last().drop_last().drop_last().drop_last().drop_last() =~= seq![e[0]]);
    assert(join(e, sep) =~= e[0] + sep + e[1] + sep + e[2] + sep + e[3] + sep + e[4] + sep + e[5]
        + sep + e[6]) by {
        let e6 = e.drop_last();
        let e5 = e6.drop_last();
        let e4 = e5.drop_last();
        let e3 = e4.drop_last();
        let e2 = e3.drop_last();
        let e1 = e2.drop_last();
        assert(join(e1, sep) == e[0]);
        assert(join(e2, sep) == e[0] + sep + e[1]);
        assert(join(e3, sep) == e[0] + sep + e[1] + sep + e[2]);
        assert(join(e4, sep) == e[0] + sep + e[1] + sep + e[2] + sep + e[3]);
        assert(join(e5, sep) == e[0] + sep + e[1] + sep + e[2] + sep + e[3] + sep + e[4]);
        assert(join(e6, sep) == e[0] + sep + e[1] + sep + e[2] + sep + e[3] + sep + e[4] + sep + e[5]);
    }
    reveal_strlit("[food ");
    reveal_strlit("[");
    reveal_strlit("food");
    reveal_strlit(" ");
    reveal_strlit(", ");
    reveal_strlit(", linemate ");
    reveal_strlit("linemate");
    reveal_strlit(", deraumere ");
    reveal_strlit("deraumere");
    reveal_strlit(", sibur ");
    reveal_strlit("sibur");
    reveal_strlit(", mendiane ");
    reveal_strlit("mendiane");
    reveal_strlit(", phiras ");
    reveal_strlit("phiras");
    reveal_strlit(", thystame ");
    reveal_strlit("thystame");
    assert(inventory_text(p) =~= "[food "@ + dec(shown_amount(p, 0)) + ", linemate "@ + dec(
        shown_amount(p, 1),
    ) + ", deraumere "@ + dec(shown_amount(p, 2)) + ", sibur "@ + dec(shown_amount(p, 3))
        + ", mendiane "@ + dec(shown_amount(p, 4)) + ", phiras "@ + dec(shown_amount(p, 5))
        + ", thystame "@ + dec(shown_amount(p, 6)) + "]\n"@);
}

} // verus!
