//! Elevation rituals: who takes part, what they need, and what happens when
//! one completes.
use vstd::prelude::*;

use crate::action::{action_of, Action, EActionView};
use crate::data::entity::EntityView;
use crate::data::map::{grid_shape, lemma_map_take_tile, map_take, seq_count, tile_at, MapView};
use crate::data::resource::resource_at;
use crate::data::{EntityId, Position, Resource};
use crate::server::ClientReply;
use crate::text::{dec, join, join_strings, push_dec, text_bytes, texts_of};

use super::actions::{same_tile_spec, with_player};
use super::gui::{gui_x, gui_y, lemma_id_truncation, player_line, tile_text};
use super::{game_wf, send_gui, Game, GameView, WIN_LEVEL, WIN_PLAYERS};

verus! {

/// What an elevation from `level` needs: how many players of that level,
/// and how many items of each resource on the tile; nothing from level 8 on.
pub open spec fn requirement(level: nat) -> Option<(nat, Seq<nat>)> {
    if level == 1 {
        Some((1, seq![0nat, 1, 0, 0, 0, 0, 0]))
    } else if level == 2 {
        Some((2, seq![0nat, 1, 1, 1, 0, 0, 0]))
    } else if level == 3 {
        Some((2, seq![0nat, 2, 0, 1, 0, 2, 0]))
    } else if level == 4 {
        Some((4, seq![0nat, 1, 1, 2, 0, 1, 0]))
    } else if level == 5 {
        Some((4, seq![0nat, 1, 2, 1, 3, 0, 0]))
    } else if level == 6 {
        Some((6, seq![0nat, 1, 2, 3, 0, 1, 0]))
    } else if level == 7 {
        Some((6, seq![0nat, 2, 2, 2, 2, 2, 1]))
    } else {
        None
    }
}

/// The items an elevation from `level` needs, resource by resource; none
/// from level 8 on.
pub open spec fn required_items(level: nat) -> Seq<nat> {
    match requirement(level) {
        Some((_, needs)) => needs,
        None => Seq::empty(),
    }
}

/// The numbers (as `EntityId`s) of the connected players among `players`
/// that are at `level` on the tile of `position`, in order.
pub open spec fn who_spec(m: MapView, players: Seq<EntityView>, position: Position, level: nat) -> Seq<
    EntityId,
>
    decreases players.len(),
{
    if players.len() == 0 {
        Seq::empty()
    } else {
        let prev = who_spec(m, players.drop_last(), position, level);
        let p = players.last();
        if p.raw_fd >= 0 && p.level == level && same_tile_spec(m, p.pos, position) {
            prev.push(p.id as EntityId)
        } else {
            prev
        }
    }
}

/// Whether the tile holds at least what `needs` asks for, resource by
/// resource.
pub open spec fn tile_has(t: Seq<Resource>, needs: Seq<nat>) -> bool {
    forall|i: int| 0 <= i < 7 ==> seq_count(t, #[trigger] resource_at(i)) >= needs[i]
}

/// The participants of an elevation from `level` on the tile of
/// `position`, when enough players and items are there.
pub open spec fn ready_spec(g: GameView, position: Position, level: nat) -> Option<Seq<EntityId>> {
    match requirement(level) {
        None => None,
        Some((count, needs)) => {
            let parts = who_spec(g.map, g.players, position, level);
            if parts.len() < count {
                None
            } else if !tile_has(tile_at(g.map, position.x as int, position.y as int), needs) {
                None
            } else {
                Some(parts)
            }
        },
    }
}

/// The players of `parts` (taken as indices) with their queues emptied.
pub open spec fn clear_queues(players: Seq<EntityView>, parts: Seq<EntityId>, n: nat) -> Seq<EntityView>
    decreases n,
{
    if n == 0 {
        players
    } else {
        let prev = clear_queues(players, parts, (n - 1) as nat);
        let i = parts[n - 1] as int;
        prev.update(i, EntityView { actions: Seq::empty(), ..prev[i] })
    }
}

/// `#id` for each of the numbers.
pub open spec fn hash_ids(parts: Seq<EntityId>) -> Seq<Seq<char>>
    decreases parts.len(),
{
    if parts.len() == 0 {
        Seq::empty()
    } else {
        hash_ids(parts.drop_last()).push("#"@ + dec(parts.last() as nat))
    }
}

/// `#id` for each participant, separated by spaces.
pub open spec fn participants_text(parts: Seq<EntityId>) -> Seq<char> {
    join(hash_ids(parts), " "@)
}

/// Player `i` starts an elevation: when its tile is ready, the
/// participants' queues are emptied, the elevation is queued for player
/// `i` (for 300 ticks, if its queue has room), the participants are frozen
/// and the graphical clients get `pic x y level #id ...`; the answer is
/// `Elevation underway`. Nothing changes, and there is no answer, when the
/// tile is not ready.
pub open spec fn start_spec(g: GameView, i: int) -> (GameView, Option<Seq<char>>) {
    let p = g.players[i];
    let level = p.level as nat;
    match ready_spec(g, p.pos, level) {
        None => (g, None),
        Some(parts) => {
            let cleared = clear_queues(g.players, parts, parts.len());
            let q = cleared[i];
            let queued = if q.actions.len() < 10 {
                cleared.update(
                    i,
                    EntityView {
                        actions: q.actions.push(
                            action_of(
                                300,
                                EActionView::Incantation {
                                    position: p.pos,
                                    level: p.level,
                                    participants: parts,
                                },
                            ),
                        ),
                        ..q
                    },
                )
            } else {
                cleared
            };
            let g1 = GameView { players: queued, frozen: g.frozen + parts, ..g };
            (
                send_gui(
                    g1,
                    "pic "@ + dec(gui_x(g.map, p.pos)) + " "@ + dec(gui_y(g.map, p.pos)) + " "@ + dec(
                        level,
                    ) + " "@ + participants_text(parts) + "\n"@,
                ),
                Some("Elevation underway\n"@),
            )
        },
    }
}

/// The ids of `frozen` that are not among `parts`.
pub open spec fn unfreeze(frozen: Seq<EntityId>, parts: Seq<EntityId>) -> Seq<EntityId>
    decreases frozen.len(),
{
    if frozen.len() == 0 {
        frozen
    } else {
        let prev = unfreeze(frozen.drop_last(), parts);
        if parts.contains(frozen.last()) {
            prev
        } else {
            prev.push(frozen.last())
        }
    }
}

/// The first `n` participants, in order, that are still ready level up;
/// with the `plv` line of each.
pub open spec fn level_ups(g: GameView, current: Seq<EntityId>, parts: Seq<EntityId>, n: nat) -> (
    GameView,
    Seq<char>,
)
    decreases n,
{
    if n == 0 {
        (g, Seq::empty())
    } else {
        let (g1, text) = level_ups(g, current, parts, (n - 1) as nat);
        let id = parts[n - 1];
        if current.contains(id) {
            let p = g1.players[id as int];
            let g2 = with_player(
                g1,
                id as int,
                EntityView {
                    level: if p.level < usize::MAX {
                        (p.level + 1) as usize
                    } else {
                        p.level
                    },
                    ..p
                },
            );
            (g2, text + player_line(g2, "plv"@, id as nat))
        } else {
            (g1, text)
        }
    }
}

/// The map after picking up `k` items `r` from the tile of `pos`.
pub open spec fn take_n(m: MapView, pos: Position, r: Resource, k: nat) -> MapView
    decreases k,
{
    if k == 0 {
        m
    } else {
        map_take(take_n(m, pos, r, (k - 1) as nat), pos, r)
    }
}

/// The map after picking up what `needs` asks for, for the resources at
/// positions `0` to `i - 1`.
pub open spec fn consume(m: MapView, pos: Position, needs: Seq<nat>, i: nat) -> MapView
    decreases i,
{
    if i == 0 {
        m
    } else {
        take_n(consume(m, pos, needs, (i - 1) as nat), pos, resource_at(i - 1), needs[i - 1])
    }
}

/// Picking items up keeps the map's size.
proof fn lemma_consume_dims(m: MapView, pos: Position, needs: Seq<nat>, i: nat)
    ensures
        consume(m, pos, needs, i).width == m.width,
        consume(m, pos, needs, i).height == m.height,
    decreases i,
{
    if i > 0 {
        lemma_consume_dims(m, pos, needs, (i - 1) as nat);
        lemma_take_n_dims(consume(m, pos, needs, (i - 1) as nat), pos, resource_at(i - 1), needs[i - 1]);
    }
}

/// Picking items of one resource up keeps the map's size.
proof fn lemma_take_n_dims(m: MapView, pos: Position, r: Resource, k: nat)
    ensures
        take_n(m, pos, r, k).width == m.width,
        take_n(m, pos, r, k).height == m.height,
    decreases k,
{
    if k > 0 {
        lemma_take_n_dims(m, pos, r, (k - 1) as nat);
    }
}

/// Picking up `k` items `r` from a tile that holds at least `k` of them
/// takes exactly `k` off that tile and leaves the other resources there.
proof fn lemma_take_n_tile(m: MapView, pos: Position, r: Resource, k: nat)
    requires
        grid_shape(m.cells, m.width, m.height),
        m.width > 0,
        m.height > 0,
        seq_count(tile_at(m, pos.x as int, pos.y as int), r) >= k,
    ensures
        grid_shape(take_n(m, pos, r, k).cells, m.width, m.height),
        take_n(m, pos, r, k).width == m.width,
        take_n(m, pos, r, k).height == m.height,
        forall|r2: Resource|
            #![trigger seq_count(tile_at(take_n(m, pos, r, k), pos.x as int, pos.y as int), r2)]
            seq_count(tile_at(take_n(m, pos, r, k), pos.x as int, pos.y as int), r2) + (if r2 == r {
                k
            } else {
                0nat
            }) == seq_count(tile_at(m, pos.x as int, pos.y as int), r2),
    decreases k,
{
    if k > 0 {
        let k1 = (k - 1) as nat;
        lemma_take_n_tile(m, pos, r, k1);
        let m1 = take_n(m, pos, r, k1);
        lemma_map_take_tile(m1, pos, r);
        let t1 = tile_at(m1, pos.x as int, pos.y as int);
        assert(seq_count(t1, r) + k1 == seq_count(tile_at(m, pos.x as int, pos.y as int), r));
        assert forall|r2: Resource|
            #![trigger seq_count(tile_at(take_n(m, pos, r, k), pos.x as int, pos.y as int), r2)]
            seq_count(tile_at(take_n(m, pos, r, k), pos.x as int, pos.y as int), r2) + (if r2 == r {
                k
            } else {
                0nat
            }) == seq_count(tile_at(m, pos.x as int, pos.y as int), r2) by {
            assert(seq_count(t1, r2) + (if r2 == r {
                k1
            } else {
                0nat
            }) == seq_count(tile_at(m, pos.x as int, pos.y as int), r2));
            assert(seq_count(crate::data::map::remove_first(t1, r), r2) + (if r2 == r && seq_count(t1, r) > 0 {
                1nat
            } else {
                0nat
            }) == seq_count(t1, r2));
        }
    }
}

/// Picking up what `needs` asks for, from a tile that holds enough, takes
/// exactly that off the tile, resource by resource, for the resources at
/// positions below `i`.
proof fn lemma_consume_tile(m: MapView, pos: Position, needs: Seq<nat>, i: nat)
    requires
        grid_shape(m.cells, m.width, m.height),
        m.width > 0,
        m.height > 0,
        i <= 7,
        needs.len() == 7,
        tile_has(tile_at(m, pos.x as int, pos.y as int), needs),
    ensures
        grid_shape(consume(m, pos, needs, i).cells, m.width, m.height),
        consume(m, pos, needs, i).width == m.width,
        consume(m, pos, needs, i).height == m.height,
        forall|j: int|
            0 <= j < 7 ==> #[trigger] seq_count(
                tile_at(consume(m, pos, needs, i), pos.x as int, pos.y as int),
                resource_at(j),
            ) + (if j < i {
                needs[j]
            } else {
                0nat
            }) == seq_count(tile_at(m, pos.x as int, pos.y as int), resource_at(j)),
    decreases i,
{
    if i > 0 {
        let i1 = (i - 1) as nat;
        lemma_consume_tile(m, pos, needs, i1);
        let c1 = consume(m, pos, needs, i1);
        let r = resource_at(i1 as int);
        assert(seq_count(tile_at(c1, pos.x as int, pos.y as int), resource_at(i1 as int)) + 0nat
            == seq_count(tile_at(m, pos.x as int, pos.y as int), resource_at(i1 as int)));
        assert(seq_count(tile_at(m, pos.x as int, pos.y as int), resource_at(i1 as int)) >= needs[i1 as int]);
        lemma_take_n_tile(c1, pos, r, needs[i1 as int]);
        assert forall|j: int|
            0 <= j < 7 implies #[trigger] seq_count(
                tile_at(consume(m, pos, needs, i), pos.x as int, pos.y as int),
                resource_at(j),
            ) + (if j < i {
                needs[j]
            } else {
                0nat
            }) == seq_count(tile_at(m, pos.x as int, pos.y as int), resource_at(j)) by {
            assert(seq_count(tile_at(c1, pos.x as int, pos.y as int), resource_at(j)) + (if j < i1 {
                needs[j]
            } else {
                0nat
            }) == seq_count(tile_at(m, pos.x as int, pos.y as int), resource_at(j)));
            assert((resource_at(j) == r) == (j == i1));
            assert(seq_count(
                tile_at(take_n(c1, pos, r, needs[i1 as int]), pos.x as int, pos.y as int),
                resource_at(j),
            ) + (if resource_at(j) == r {
                needs[i1 as int]
            } else {
                0nat
            }) == seq_count(tile_at(c1, pos.x as int, pos.y as int), resource_at(j)));
        }
    }
}

/// Levelling participants up changes nothing but the players.
proof fn lemma_level_ups_players_only(g: GameView, current: Seq<EntityId>, parts: Seq<EntityId>, n: nat)
    ensures
        level_ups(g, current, parts, n).0 == (GameView { players: level_ups(g, current, parts, n).0.players, ..g }),
    decreases n,
{
    if n > 0 {
        lemma_level_ups_players_only(g, current, parts, (n - 1) as nat);
    }
}

/// How many of the first `n` players belong to team `t` at the winning
/// level or above.
pub open spec fn winners(players: Seq<EntityView>, t: Seq<char>, n: nat) -> nat
    decreases n,
{
    if n == 0 {
        0
    } else {
        winners(players, t, (n - 1) as nat) + if players[n - 1].team == t && players[n - 1].level
            >= WIN_LEVEL {
            1nat
        } else {
            0nat
        }
    }
}

/// The first of the first `n` teams with enough players at the winning
/// level.
pub open spec fn winner_from(g: GameView, n: nat) -> Option<Seq<char>>
    decreases n,
{
    if n == 0 {
        None
    } else {
        match winner_from(g, (n - 1) as nat) {
            Some(t) => Some(t),
            None => {
                let t = g.teams[n - 1];
                if winners(g.players, t, g.players.len()) >= WIN_PLAYERS {
                    Some(t)
                } else {
                    None
                }
            },
        }
    }
}

/// The first team with enough players at the winning level.
pub open spec fn winning_team_spec(g: GameView) -> Option<Seq<char>> {
    winner_from(g, g.teams.len())
}

/// An elevation from `level` on the tile of `position` completes. When the
/// tile is still ready, the listed participants that are still there level
/// up, the required items are consumed, the participants are unfrozen and
/// the graphical clients get `pie x y 1`, the level lines, the tile and,
/// if a team has won, `seg team`; the answer is `Current level: n`.
/// Otherwise the participants are unfrozen, the graphical clients get
/// `pie x y 0`, and the answer is `ko`.
pub open spec fn finish_spec(g: GameView, position: Position, level: nat, participants: Seq<EntityId>) -> (
    GameView,
    Seq<char>,
) {
    let x = gui_x(g.map, position);
    let y = gui_y(g.map, position);
    match ready_spec(g, position, level) {
        None => {
            let g1 = GameView { frozen: unfreeze(g.frozen, participants), ..g };
            (send_gui(g1, "pie "@ + dec(x) + " "@ + dec(y) + " 0\n"@), "ko\n"@)
        },
        Some(current) => {
            let (g1, events) = level_ups(g, current, participants, participants.len());
            let needs = required_items(level);
            let g2 = GameView {
                map: consume(g1.map, position, needs, 7),
                frozen: unfreeze(g1.frozen, participants),
                ..g1
            };
            let seg = match winning_team_spec(g2) {
                Some(t) => "seg "@ + t + "\n"@,
                None => Seq::empty(),
            };
            (
                send_gui(
                    g2,
                    "pie "@ + dec(x) + " "@ + dec(y) + " 1\n"@ + events + tile_text(g2.map, x, y) + seg,
                ),
                "Current level: "@ + dec(level + 1) + "\n"@,
            )
        },
    }
}

/// Once a team is found among the first `k` teams, it stays the winner.
proof fn lemma_winner_stays(g: GameView, k: nat, n: nat)
    requires
        k <= n,
        winner_from(g, k) is Some,
    ensures
        winner_from(g, n) == winner_from(g, k),
    decreases n - k,
{
    if k < n {
        lemma_winner_stays(g, k, (n - 1) as nat);
    }
}

/// Every number that `who_spec` lists designates one of the players.
pub proof fn lemma_who_bound(m: MapView, players: Seq<EntityView>, position: Position, level: nat, n: nat)
    requires
        forall|i: int| 0 <= i < players.len() ==> #[trigger] players[i].id == i,
        n <= players.len(),
    ensures
        forall|k: int|
            0 <= k < who_spec(m, players.take(n as int), position, level).len() ==> (#[trigger] who_spec(
                m,
                players.take(n as int),
                position,
                level,
            )[k]) < players.len(),
    decreases n,
{
    if n > 0 {
        lemma_who_bound(m, players, position, level, (n - 1) as nat);
        assert(players.take(n as int).drop_last() =~= players.take(n - 1));
        lemma_id_truncation(players[n - 1].id);
        let prev = who_spec(m, players.take(n - 1), position, level);
        let w = who_spec(m, players.take(n as int), position, level);
        assert(players.take(n as int).last() == players[n - 1]);
        assert forall|k: int| 0 <= k < w.len() implies (#[trigger] w[k]) < players.len() by {
            if k < prev.len() {
                assert(w[k] == prev[k]);
            }
        }
    }
}

/// Clearing queues keeps the players' numbers and their count.
proof fn lemma_clear_queues(players: Seq<EntityView>, parts: Seq<EntityId>, n: nat)
    requires
        n <= parts.len(),
        forall|k: int| 0 <= k < parts.len() ==> (#[trigger] parts[k]) < players.len(),
    ensures
        clear_queues(players, parts, n).len() == players.len(),
        forall|i: int|
            0 <= i < players.len() ==> (#[trigger] clear_queues(players, parts, n)[i]).id == players[i].id,
    decreases n,
{
    if n > 0 {
        lemma_clear_queues(players, parts, (n - 1) as nat);
    }
}

impl Game {
    /// What an elevation from `level` needs (see `requirement`).
    pub(crate) fn incantation_requirement(level: usize) -> (r: Option<(usize, [usize; 7])>)
        ensures
            match (r, requirement(level as nat)) {
                (Some((c, needs)), Some((c2, needs2))) => c == c2 && needs2.len() == 7 && forall|i: int|
                    0 <= i < 7 ==> #[trigger] needs@[i] == needs2[i],
                (None, None) => true,
                _ => false,
            },
    {
        let r: Option<(usize, [usize; 7])> = if level == 1 {
            Some((1, [0, 1, 0, 0, 0, 0, 0]))
        } else if level == 2 {
            Some((2, [0, 1, 1, 1, 0, 0, 0]))
        } else if level == 3 {
            Some((2, [0, 2, 0, 1, 0, 2, 0]))
        } else if level == 4 {
            Some((4, [0, 1, 1, 2, 0, 1, 0]))
        } else if level == 5 {
            Some((4, [0, 1, 2, 1, 3, 0, 0]))
        } else if level == 6 {
            Some((6, [0, 1, 2, 3, 0, 1, 0]))
        } else if level == 7 {
            Some((6, [0, 2, 2, 2, 2, 2, 1]))
        } else {
            None
        };
        r
    }

    /// The connected players at `level` on the tile of `position`.
    fn incantation_who(&self, position: Position, level: usize) -> (ids: Vec<EntityId>)
        requires
            self.wf(),
        ensures
            ids@ == who_spec(self@.map, self@.players, position, level as nat),
            forall|k: int| 0 <= k < ids@.len() ==> (#[trigger] ids@[k]) < self@.players.len(),
    {
        let ghost ps = self@.players;
        let mut ids: Vec<EntityId> = Vec::new();
        let mut i: usize = 0;
        assert(ps.take(0) =~= Seq::<EntityView>::empty());
        while i < self.players.len()
            invariant
                self.wf(),
                ps == self@.players,
                i <= ps.len(),
                ids@ == who_spec(self@.map, ps.take(i as int), position, level as nat),
            decreases ps.len() - i,
        {
            assert(ps.take(i + 1).drop_last() =~= ps.take(i as int));
            assert(self.players@[i as int]@ == ps[i as int]);
            let player = &self.players[i];
            if player.raw_fd() >= 0 && player.level() == level && self.same_tile(player.position(), position) {
                ids.push(player.get_id() as EntityId);
            }
            i = i + 1;
        }
        assert(ps.take(ps.len() as int) =~= ps);
        proof {
            lemma_who_bound(self@.map, ps, position, level as nat, ps.len());
        }
        ids
    }

    /// The participants, when the tile of `position` is ready for an
    /// elevation from `level` (see `ready_spec`).
    fn incantation_ready(&self, position: Position, level: usize) -> (r: Option<Vec<EntityId>>)
        requires
            self.wf(),
        ensures
            match r {
                Some(ids) => ready_spec(self@, position, level as nat) == Some(ids@) && forall|k: int|
                    0 <= k < ids@.len() ==> (#[trigger] ids@[k]) < self@.players.len(),
                None => ready_spec(self@, position, level as nat) is None,
            },
    {
        proof {
            self.lemma_map_wf();
        }
        let (player_count, resources) = match Self::incantation_requirement(level) {
            Some(req) => req,
            None => {
                return None;
            },
        };
        let participants = self.incantation_who(position, level);
        assert(match requirement(level as nat) {
            Some((c, _)) => c == player_count,
            None => false,
        });
        if participants.len() < player_count {
            assert(ready_spec(self@, position, level as nat) is None);
            return None;
        }
        let tile = self.map.get(position.x as isize, position.y as isize);
        let items = tile.resources();
        let ghost needs = match requirement(level as nat) {
            Some((_, n)) => n,
            None => Seq::empty(),
        };
        let mut i: usize = 0;
        while i < 7
            invariant
                i <= 7,
                items@ == tile_at(self@.map, position.x as int, position.y as int),
                self.wf(),
                participants@ == who_spec(self@.map, self@.players, position, level as nat),
                participants@.len() >= player_count,
                requirement(level as nat) == Some((player_count as nat, needs)),
                forall|k: int| 0 <= k < participants@.len() ==> (#[trigger] participants@[k]) < self@.players.len(),
                needs.len() == 7,
                forall|j: int| 0 <= j < 7 ==> #[trigger] resources@[j] == needs[j],
                forall|j: int| 0 <= j < i ==> seq_count(items@, #[trigger] resource_at(j)) >= needs[j],
            decreases 7 - i,
        {
            let resource = Resource::from_index(i);
            let mut available: usize = 0;
            let mut k: usize = 0;
            while k < items.len()
                invariant
                    k <= items@.len(),
                    available == seq_count(items@.take(k as int), resource),
                    available <= k,
                decreases items@.len() - k,
            {
                assert(items@.take(k + 1).drop_last() =~= items@.take(k as int));
                if items[k] == resource {
                    available = available + 1;
                }
                k = k + 1;
            }
            assert(items@.take(items@.len() as int) =~= items@);
            if available < resources[i] {
                assert(resource == resource_at(i as int));
                assert(seq_count(items@, resource_at(i as int)) < needs[i as int]);
                assert(!tile_has(items@, needs));
                return None;
            }
            i = i + 1;
        }
        Some(participants)
    }

    /// Player `player_index` asks to start an elevation (see `start_spec`).
    pub(crate) fn start_incantation(&mut self, player_index: usize) -> (r: Option<ClientReply>)
        requires
            old(self).wf(),
            player_index < old(self)@.players.len(),
        ensures
            final(self).wf(),
            final(self)@ == start_spec(old(self)@, player_index as int).0,
            match (r, start_spec(old(self)@, player_index as int).1) {
                (Some(reply), Some(text)) => reply.data@ == vstd::utf8::encode_utf8(text) && !reply.disconnect,
                (None, None) => true,
                _ => false,
            },
    {
        let ghost g = self@;
        assert(self.players@[player_index as int]@ == g.players[player_index as int]);
        let position = self.players[player_index].position();
        let level = self.players[player_index].level();
        let participants = match self.incantation_ready(position, level) {
            Some(p) => p,
            None => {
                return None;
            },
        };
        let ghost parts = participants@;
        let mut k: usize = 0;
        while k < participants.len()
            invariant
                k <= parts.len(),
                parts == participants@,
                forall|j: int| 0 <= j < parts.len() ==> (#[trigger] parts[j]) < g.players.len(),
                self@ == (GameView { players: clear_queues(g.players, parts, k as nat), ..g }),
                self.players@.len() == g.players.len(),
            decreases parts.len() - k,
        {
            proof {
                lemma_clear_queues(g.players, parts, k as nat);
            }
            let id = participants[k] as usize;
            let ghost prev = self@.players;
            assert(self.players@[id as int]@ == prev[id as int]);
            self.players[id].clear_actions();
            assert(self@.players =~= prev.update(id as int, EntityView { actions: Seq::empty(), ..prev[id as int] }));
            k = k + 1;
        }
        proof {
            lemma_clear_queues(g.players, parts, parts.len());
        }
        let copy = participants.clone();
        assert(copy@ =~= parts);
        let ghost cleared = self@.players;
        assert(cleared == clear_queues(g.players, parts, parts.len()));
        assert(self.players@[player_index as int]@ == cleared[player_index as int]);
        let ghost q = cleared[player_index as int];
        let ghost p = g.players[player_index as int];
        assert(ready_spec(g, p.pos, p.level as nat) == Some(parts));
        self.players[player_index].add_action(Action::new_incantation(position, level, copy));
        let ghost queued = self@.players;
        assert(queued == (if q.actions.len() < 10 {
            cleared.update(
                player_index as int,
                EntityView {
                    actions: q.actions.push(
                        action_of(
                            300,
                            EActionView::Incantation {
                                position: p.pos,
                                level: p.level,
                                participants: parts,
                            },
                        ),
                    ),
                    ..q
                },
            )
        } else {
            cleared
        }));
        let mut j: usize = 0;
        while j < participants.len()
            invariant
                j <= parts.len(),
                parts == participants@,
                self@ == (GameView { players: queued, frozen: g.frozen + parts.take(j as int), ..g }),
            decreases parts.len() - j,
        {
            let ghost before = self@.frozen;
            self.frozen.push(participants[j]);
            assert(g.frozen + parts.take(j + 1) =~= before.push(parts[j as int]));
            j = j + 1;
        }
        assert(parts.take(parts.len() as int) =~= parts);
        proof {
            let g1 = GameView { players: queued, frozen: g.frozen + parts, ..g };
            assert(self@ == g1);
            assert forall|i: int| 0 <= i < g1.players.len() implies #[trigger] g1.players[i].id == i by {
                if i == player_index {
                } else {
                    assert(queued[i] == cleared[i]);
                }
            }
            assert forall|i: int| 0 <= i < g1.sessions.len() implies #[trigger] super::session_bound(g1.sessions[i], g1.players.len()) by {
                assert(super::session_bound(g.sessions[i], g.players.len()));
            }
            assert(self.wf());
        }
        let mut names: Vec<String> = Vec::new();
        let mut m: usize = 0;
        assert(parts.take(0) =~= Seq::<EntityId>::empty());
        assert(texts_of(names@) =~= hash_ids(parts.take(0)));
        while m < participants.len()
            invariant
                m <= parts.len(),
                parts == participants@,
                texts_of(names@) == hash_ids(parts.take(m as int)),
            decreases parts.len() - m,
        {
            let mut name = String::from_str("#");
            push_dec(&mut name, participants[m] as u128);
            let ghost before = names@;
            names.push(name);
            assert(parts.take(m + 1).drop_last() =~= parts.take(m as int));
            assert(texts_of(names@) =~= hash_ids(parts.take(m + 1)));
            m = m + 1;
        }
        assert(parts.take(parts.len() as int) =~= parts);
        let players_text = join_strings(&names, " ");
        let (x, y) = self.gui_position_xy(position);
        let mut msg = String::from_str("pic ");
        push_dec(&mut msg, x as u128);
        msg.append(" ");
        push_dec(&mut msg, y as u128);
        msg.append(" ");
        push_dec(&mut msg, level as u128);
        msg.append(" ");
        msg.append(players_text.as_str());
        msg.append("\n");
        assert(msg@ == "pic "@ + dec(gui_x(g.map, p.pos)) + " "@ + dec(gui_y(g.map, p.pos)) + " "@ + dec(
            level as nat,
        ) + " "@ + participants_text(parts) + "\n"@);
        self.send_to_guis(msg.as_str());
        Some(ClientReply::data(text_bytes("Elevation underway\n")))
    }
}


/// Whether `id` occurs in `ids`.
pub(crate) fn ids_contain(ids: &[EntityId], id: EntityId) -> (b: bool)
    ensures
        b == ids@.contains(id),
{
    let mut i: usize = 0;
    while i < ids.len()
        invariant
            i <= ids@.len(),
            forall|j: int| 0 <= j < i ==> ids@[j] != id,
        decreases ids@.len() - i,
    {
        if ids[i] == id {
            assert(ids@[i as int] == id);
            return true;
        }
        i = i + 1;
    }
    false
}

impl Game {
    /// Removes every id among `participants` from the frozen players.
    fn unfreeze_participants(&mut self, participants: &[EntityId])
        requires
            old(self).wf(),
        ensures
            final(self).wf(),
            final(self)@ == (GameView { frozen: unfreeze(old(self)@.frozen, participants@), ..old(self)@ }),
    {
        let ghost g = self@;
        let mut kept: Vec<EntityId> = Vec::new();
        let mut i: usize = 0;
        assert(g.frozen.take(0) =~= Seq::<EntityId>::empty());
        while i < self.frozen.len()
            invariant
                self@ == g,
                i <= g.frozen.len(),
                kept@ == unfreeze(g.frozen.take(i as int), participants@),
            decreases g.frozen.len() - i,
        {
            assert(g.frozen.take(i + 1).drop_last() =~= g.frozen.take(i as int));
            let id = self.frozen[i];
            if !ids_contain(participants, id) {
                kept.push(id);
            }
            i = i + 1;
        }
        assert(g.frozen.take(g.frozen.len() as int) =~= g.frozen);
        self.frozen = kept;
    }

    /// The first team with enough players at the winning level (see
    /// `winning_team_spec`).
    pub(crate) fn winning_team(&self) -> (r: Option<String>)
        ensures
            match r {
                Some(t) => winning_team_spec(self@) == Some(t@),
                None => winning_team_spec(self@) is None,
            },
    {
        let ghost g = self@;
        let mut i: usize = 0;
        while i < self.teams.len()
            invariant
                g == self@,
                i <= g.teams.len(),
                g.teams.len() == self.teams@.len(),
                winner_from(g, i as nat) is None,
            decreases g.teams.len() - i,
        {
            let team = &self.teams[i];
            assert(team@ == g.teams[i as int]);
            let mut count: usize = 0;
            let mut j: usize = 0;
            while j < self.players.len()
                invariant
                    g == self@,
                    j <= g.players.len(),
                    g.players.len() == self.players@.len(),
                    count == winners(g.players, team@, j as nat),
                    count <= j,
                decreases g.players.len() - j,
            {
                let p = &self.players[j];
                assert(p@ == g.players[j as int]);
                if crate::text::str_eq(p.team(), team.as_str()) && p.level() >= WIN_LEVEL {
                    count = count + 1;
                }
                j = j + 1;
            }
            if count >= WIN_PLAYERS {
                proof {
                    assert(winner_from(g, (i + 1) as nat) == Some(team@));
                    lemma_winner_stays(g, (i + 1) as nat, g.teams.len());
                }
                return Some(team.clone());
            }
            i = i + 1;
        }
        None
    }
}


impl Game {
    /// An elevation from `level` on the tile of `position`, started with
    /// `participants`, completes (see `finish_spec`).
    pub fn finish_incantation(&mut self, position: Position, level: usize, participants: &[EntityId]) -> (s:
        String)
        requires
            old(self).wf(),
        ensures
            final(self).wf(),
            final(self)@.players.len() == old(self)@.players.len(),
            (final(self)@, s@) == finish_spec(old(self)@, position, level as nat, participants@),
    {
        let ghost g = self@;
        let (x, y) = self.gui_position_xy(position);
        let current = match self.incantation_ready(position, level) {
            Some(c) => c,
            None => {
                self.unfreeze_participants(participants);
                let mut msg = String::from_str("pie ");
                push_dec(&mut msg, x as u128);
                msg.append(" ");
                push_dec(&mut msg, y as u128);
                msg.append(" 0\n");
                self.send_to_guis(msg.as_str());
                return String::from_str("ko\n");
            },
        };
        let ghost cur = current@;
        let ghost parts = participants@;
        let mut events = String::new();
        let mut k: usize = 0;
        while k < participants.len()
            invariant
                k <= parts.len(),
                parts == participants@,
                cur == current@,
                forall|j: int| 0 <= j < cur.len() ==> (#[trigger] cur[j]) < g.players.len(),
                self.wf(),
                self@ == (GameView { players: self@.players, ..g }),
                self@.players.len() == g.players.len(),
                (self@, events@) == level_ups(g, cur, parts, k as nat),
            decreases parts.len() - k,
        {
            let id = participants[k];
            let ghost prev = self@;
            if ids_contain(current.as_slice(), id) {
                let idx = id as usize;
                assert(idx < g.players.len()) by {
                    let j = choose|j: int| 0 <= j < cur.len() && cur[j] == id;
                    assert(cur[j] < g.players.len());
                }
                assert(self.players@[idx as int]@ == prev.players[idx as int]);
                let ghost p = prev.players[idx as int];
                let ghost np = EntityView {
                    level: if p.level < usize::MAX {
                        (p.level + 1) as usize
                    } else {
                        p.level
                    },
                    ..p
                };
                if self.players[idx].level() < usize::MAX {
                    self.players[idx].level_up();
                }
                proof {
                    assert(self@.players =~= prev.players.update(idx as int, np));
                    self.lemma_wf_player_update_from(prev, idx as int, np);
                }
                let line = self.gui_player_line("plv", id);
                events.append(line.as_str());
            }
            k = k + 1;
        }
        let ghost g1 = self@;
        let resources: [usize; 7] = match Self::incantation_requirement(level) {
            Some((_, r)) => r,
            None => [0, 0, 0, 0, 0, 0, 0],
        };
        let ghost needs = required_items(level as nat);
        assert(requirement(level as nat) is Some);
        let mut i: usize = 0;
        while i < 7
            invariant
                i <= 7,
                self.wf(),
                needs.len() == 7,
                forall|j: int| 0 <= j < 7 ==> #[trigger] resources@[j] == needs[j],
                self@ == (GameView { map: consume(g1.map, position, needs, i as nat), ..g1 }),
            decreases 7 - i,
        {
            let r = Resource::from_index(i);
            let mut c: usize = 0;
            while c < resources[i]
                invariant
                    i < 7,
                    c <= resources@[i as int],
                    self.wf(),
                    r == resource_at(i as int),
                    self@ == (GameView {
                        map: take_n(consume(g1.map, position, needs, i as nat), position, r, c as nat),
                        ..g1
                    }),
                decreases resources@[i as int] - c,
            {
                proof {
                    self.lemma_map_wf();
                }
                self.map.take(position, r);
                c = c + 1;
            }
            i = i + 1;
        }
        proof {
            lemma_consume_dims(g1.map, position, needs, 7);
        }
        self.unfreeze_participants(participants);
        let ghost g2 = self@;
        assert(g2 == (GameView {
            map: consume(g1.map, position, needs, 7),
            frozen: unfreeze(g1.frozen, participants@),
            ..g1
        }));
        let mut msg = String::from_str("pie ");
        push_dec(&mut msg, x as u128);
        msg.append(" ");
        push_dec(&mut msg, y as u128);
        msg.append(" 1\n");
        msg.append(events.as_str());
        let tile = self.gui_tile(x, y);
        msg.append(tile.as_str());
        match self.winning_team() {
            Some(team) => {
                msg.append("seg ");
                msg.append(team.as_str());
                msg.append("\n");
            },
            None => {},
        }
        let ghost seg = match winning_team_spec(g2) {
            Some(t) => "seg "@ + t + "\n"@,
            None => Seq::empty(),
        };
        assert(ready_spec(g, position, level as nat) == Some(cur));
        assert((g1, events@) == level_ups(g, cur, parts, parts.len()));
        assert(msg@ == "pie "@ + dec(gui_x(g.map, position)) + " "@ + dec(gui_y(g.map, position)) + " 1\n"@ + events@
            + tile_text(g2.map, x as nat, y as nat) + seg);
        self.send_to_guis(msg.as_str());
        let mut answer = String::from_str("Current level: ");
        push_dec(&mut answer, level as u128 + 1);
        answer.append("\n");
        assert(answer@ == "Current level: "@ + dec(level as nat + 1) + "\n"@);
        answer
    }
}


/// A completed elevation takes exactly what its level requires off the
/// ritual's tile: for each resource, the tile afterwards holds the
/// required number fewer.
pub proof fn lemma_elevation_consumes(
    g: GameView,
    position: Position,
    level: nat,
    participants: Seq<EntityId>,
    j: int,
)
    requires
        game_wf(g),
        ready_spec(g, position, level) is Some,
        0 <= j < 7,
    ensures
        seq_count(
            tile_at(finish_spec(g, position, level, participants).0.map, position.x as int, position.y as int),
            resource_at(j),
        ) + required_items(level)[j] == seq_count(
            tile_at(g.map, position.x as int, position.y as int),
            resource_at(j),
        ),
{
    let current = ready_spec(g, position, level)->0;
    let needs = required_items(level);
    lemma_level_ups_players_only(g, current, participants, participants.len());
    let g1 = level_ups(g, current, participants, participants.len()).0;
    assert(g1.map == g.map);
    lemma_consume_tile(g.map, position, needs, 7);
}


/// The elevation table of the protocol. An elevation is possible from
/// levels 1 to 7 only. It needs one player from level 1, and from higher
/// levels as many players as the even number at or below the level (two
/// from levels 2 and 3, four from 4 and 5, six from 6 and 7). It never
/// needs food, and needs these items:
/// level 1: 1 linemate; level 2: 1 linemate, 1 deraumere, 1 sibur;
/// level 3: 2 linemate, 1 sibur, 2 phiras; level 4: 1 linemate,
/// 1 deraumere, 2 sibur, 1 phiras; level 5: 1 linemate, 2 deraumere,
/// 1 sibur, 3 mendiane; level 6: 1 linemate, 2 deraumere, 3 sibur,
/// 1 phiras; level 7: 2 of each of linemate, deraumere, sibur, mendiane
/// and phiras, and 1 thystame.
pub proof fn lemma_elevation_table(level: nat)
    ensures
        (requirement(level) is Some) == (1 <= level <= 7),
        requirement(level) matches Some((count, needs)) ==> count == (if level == 1 {
            1
        } else {
            2 * (level / 2)
        }) && needs.len() == 7 && needs[0] == 0,
        level == 1 ==> required_items(level) =~= seq![0nat, 1, 0, 0, 0, 0, 0],
        level == 2 ==> required_items(level) =~= seq![0nat, 1, 1, 1, 0, 0, 0],
        level == 3 ==> required_items(level) =~= seq![0nat, 2, 0, 1, 0, 2, 0],
        level == 4 ==> required_items(level) =~= seq![0nat, 1, 1, 2, 0, 1, 0],
        level == 5 ==> required_items(level) =~= seq![0nat, 1, 2, 1, 3, 0, 0],
        level == 6 ==> required_items(level) =~= seq![0nat, 1, 2, 3, 0, 1, 0],
        level == 7 ==> required_items(level) =~= seq![0nat, 2, 2, 2, 2, 2, 1],
{
}

/// A player can start an elevation exactly when its tile is ready: when
/// enough connected players of its level stand on its tile and the tile
/// holds the items its level needs. It is then answered
/// `Elevation underway`.
pub proof fn lemma_start_when_ready(g: GameView, i: int)
    requires
        game_wf(g),
        0 <= i < g.players.len(),
    ensures
        ({
            let p = g.players[i];
            let level = p.level as nat;
            let ready = requirement(level) matches Some((count, needs)) && who_spec(
                g.map,
                g.players,
                p.pos,
                level,
            ).len() >= count && tile_has(tile_at(g.map, p.pos.x as int, p.pos.y as int), needs);
            &&& ready ==> start_spec(g, i).1 == Some("Elevation underway\n"@)
            &&& !ready ==> start_spec(g, i) == (g, None::<Seq<char>>)
        }),
{
}

} // verus!
