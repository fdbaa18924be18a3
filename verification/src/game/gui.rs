//! What the graphical observers are told.
use vstd::prelude::*;

use crate::data::entity::EntityView;
use crate::data::map::{seq_count, tile_at, wrap, MapView};
use crate::data::resource::{resource_at, Direction};
use crate::data::{EntityId, Position, Resource};
use crate::server::ClientReply;
use crate::text::{dec, parse_bounded, push_dec, split_words, str_eq, text_bytes, texts_of, unsigned_text, words};

use super::{EggView, Game, GameView};

verus! {

/// A direction's number in the graphical protocol: north 1, east 2,
/// south 3, west 4, none 0.
pub open spec fn gui_dir(d: Direction) -> nat {
    match d {
        Direction::North => 1,
        Direction::Est => 2,
        Direction::South => 3,
        Direction::West => 4,
        Direction::NoDirection => 0,
    }
}

/// The column of a position on the map.
pub open spec fn gui_x(m: MapView, p: Position) -> nat {
    wrap(p.x as int, m.width)
}

/// The row of a position on the map.
pub open spec fn gui_y(m: MapView, p: Position) -> nat {
    wrap(p.y as int, m.height)
}

/// `bct x y` followed by the count of each resource on the tile at
/// `(x, y)`, in protocol order.
pub open spec fn tile_text(m: MapView, x: nat, y: nat) -> Seq<char> {
    let t = tile_at(m, x as int, y as int);
    "bct "@ + dec(x) + " "@ + dec(y) + " "@ + dec(seq_count(t, resource_at(0))) + " "@ + dec(
        seq_count(t, resource_at(1)),
    ) + " "@ + dec(seq_count(t, resource_at(2))) + " "@ + dec(seq_count(t, resource_at(3)))
        + " "@ + dec(seq_count(t, resource_at(4))) + " "@ + dec(seq_count(t, resource_at(5)))
        + " "@ + dec(seq_count(t, resource_at(6))) + "\n"@
}

/// The tiles of row `y`, from column 0 to `n - 1`.
pub open spec fn row_text(m: MapView, y: nat, n: nat) -> Seq<char>
    decreases n,
{
    if n == 0 {
        Seq::empty()
    } else {
        row_text(m, y, (n - 1) as nat) + tile_text(m, (n - 1) as nat, y)
    }
}

/// The tiles of rows 0 to `n - 1`, row by row.
pub open spec fn map_text(m: MapView, n: nat) -> Seq<char>
    decreases n,
{
    if n == 0 {
        Seq::empty()
    } else {
        map_text(m, (n - 1) as nat) + row_text(m, (n - 1) as nat, m.width)
    }
}

/// The food a player is shown to hold: its stock plus its remaining life
/// in whole meals of 126 ticks.
pub open spec fn shown_food(p: EntityView) -> nat {
    (p.saturation / 126) as nat + p.inventory[0] as nat
}

/// `pnw #id x y dir level team`.
pub open spec fn pnw_text(m: MapView, p: EntityView) -> Seq<char> {
    "pnw #"@ + dec(p.id as nat) + " "@ + dec(gui_x(m, p.pos)) + " "@ + dec(gui_y(m, p.pos)) + " "@
        + dec(gui_dir(p.direction)) + " "@ + dec(p.level as nat) + " "@ + p.team + "\n"@
}

/// `ppo #id x y dir`.
pub open spec fn ppo_text(m: MapView, p: EntityView) -> Seq<char> {
    "ppo #"@ + dec(p.id as nat) + " "@ + dec(gui_x(m, p.pos)) + " "@ + dec(gui_y(m, p.pos)) + " "@
        + dec(gui_dir(p.direction)) + "\n"@
}

/// `plv #id level`.
pub open spec fn plv_text(p: EntityView) -> Seq<char> {
    "plv #"@ + dec(p.id as nat) + " "@ + dec(p.level as nat) + "\n"@
}

/// `pin #id x y` followed by the inventory, food first.
pub open spec fn pin_text(m: MapView, p: EntityView) -> Seq<char> {
    "pin #"@ + dec(p.id as nat) + " "@ + dec(gui_x(m, p.pos)) + " "@ + dec(gui_y(m, p.pos)) + " "@
        + dec(shown_food(p)) + " "@ + dec(p.inventory[1] as nat) + " "@ + dec(p.inventory[2] as nat)
        + " "@ + dec(p.inventory[3] as nat) + " "@ + dec(p.inventory[4] as nat) + " "@ + dec(
        p.inventory[5] as nat,
    ) + " "@ + dec(p.inventory[6] as nat) + "\n"@
}

/// The line about player `id` for the command `cmd` (`pnw`, `ppo`, `plv`
/// or `pin`); empty for any other command.
pub open spec fn player_line(g: GameView, cmd: Seq<char>, id: nat) -> Seq<char> {
    let p = g.players[id as int];
    if cmd == "pnw"@ {
        pnw_text(g.map, p)
    } else if cmd == "ppo"@ {
        ppo_text(g.map, p)
    } else if cmd == "plv"@ {
        plv_text(p)
    } else if cmd == "pin"@ {
        pin_text(g.map, p)
    } else {
        Seq::empty()
    }
}

/// The number that a player's line is looked up by: its number taken as
/// an `EntityId`.
pub open spec fn line_id(p: EntityView) -> nat {
    (p.id as EntityId) as nat
}

impl Game {
    /// A direction's number in the graphical protocol.
    fn gui_direction(direction: Direction) -> (n: usize)
        ensures
            n == gui_dir(direction),
    {
        match direction {
            Direction::North => 1,
            Direction::Est => 2,
            Direction::South => 3,
            Direction::West => 4,
            Direction::NoDirection => 0,
        }
    }

    /// The `bct` line of the tile at `(x, y)`.
    pub(crate) fn gui_tile(&self, x: usize, y: usize) -> (s: String)
        requires
            self.wf(),
            x < self@.map.width,
            y < self@.map.height,
        ensures
            s@ == tile_text(self@.map, x as nat, y as nat),
    {
        proof {
            self.lemma_map_wf();
            crate::data::map::lemma_area_bounds(self@.map.width, self@.map.height);
        }
        let tile = self.map.get(x as isize, y as isize);
        let items = tile.resources();
        let mut counts: [usize; 7] = [0, 0, 0, 0, 0, 0, 0];
        let mut k: usize = 0;
        while k < items.len()
            invariant
                k <= items@.len(),
                items@ == tile_at(self@.map, x as int, y as int),
                forall|i: int| 0 <= i < 7 ==> #[trigger] counts@[i] == seq_count(items@.take(k as int), resource_at(i)),
                forall|i: int| 0 <= i < 7 ==> #[trigger] counts@[i] <= k,
            decreases items@.len() - k,
        {
            assert(items@.take(k + 1).drop_last() =~= items@.take(k as int));
            let r = items[k].index();
            counts[r] = counts[r] + 1;
            k = k + 1;
        }
        assert(items@.take(items@.len() as int) =~= items@);
        let mut s = String::from_str("bct ");
        push_dec(&mut s, x as u128);
        s.append(" ");
        push_dec(&mut s, y as u128);
        let mut i: usize = 0;
        while i < 7
            invariant
                i <= 7,
                forall|j: int| 0 <= j < 7 ==> #[trigger] counts@[j] == seq_count(items@, resource_at(j)),
                s@ == counts_prefix(x as nat, y as nat, items@, i as nat),
            decreases 7 - i,
        {
            s.append(" ");
            push_dec(&mut s, counts[i] as u128);
            i = i + 1;
        }
        s.append("\n");
        proof {
            reveal_with_fuel(counts_prefix, 8);
        }
        s
    }

    /// The `bct` line of the tile at `position`, taken modulo the size.
    pub(crate) fn gui_tile_at(&self, position: Position) -> (s: String)
        requires
            self.wf(),
        ensures
            s@ == tile_text(
                self@.map,
                gui_x(self@.map, position),
                gui_y(self@.map, position),
            ),
    {
        let (x, y) = self.gui_position_xy(position);
        self.gui_tile(x, y)
    }

    /// The column and row of a position, taken modulo the size.
    pub(crate) fn gui_position_xy(&self, position: Position) -> (xy: (usize, usize))
        requires
            self.wf(),
        ensures
            xy.0 == gui_x(self@.map, position),
            xy.1 == gui_y(self@.map, position),
            xy.0 < self@.map.width,
            xy.1 < self@.map.height,
    {
        proof {
            self.lemma_map_wf();
            crate::data::map::lemma_area_bounds(self@.map.width, self@.map.height);
        }
        let (width, height) = self.map.dimensions();
        (
            crate::data::map::wrap_coord(position.x as isize, width),
            crate::data::map::wrap_coord(position.y as isize, height),
        )
    }

    /// The `bct` lines of every tile, row by row.
    pub(crate) fn gui_map(&self) -> (s: String)
        requires
            self.wf(),
        ensures
            s@ == map_text(self@.map, self@.map.height),
    {
        let (width, height) = self.map.dimensions();
        let mut response = String::new();
        let mut y: usize = 0;
        while y < height
            invariant
                self.wf(),
                width == self@.map.width,
                height == self@.map.height,
                y <= height,
                response@ == map_text(self@.map, y as nat),
            decreases height - y,
        {
            let mut x: usize = 0;
            let ghost before = response@;
            while x < width
                invariant
                    self.wf(),
                    width == self@.map.width,
                    height == self@.map.height,
                    y < height,
                    x <= width,
                    response@ == before + row_text(self@.map, y as nat, x as nat),
                decreases width - x,
            {
                let t = self.gui_tile(x, y);
                response.append(t.as_str());
                x = x + 1;
            }
            y = y + 1;
        }
        response
    }

    /// The line about the player numbered `player_id` for `command`.
    pub(crate) fn gui_player_line(&self, command: &str, player_id: EntityId) -> (s: String)
        requires
            self.wf(),
            (player_id as nat) < self@.players.len(),
        ensures
            s@ == player_line(self@, command@, player_id as nat),
    {
        let player = &self.players[player_id as usize];
        let ghost p = self@.players[player_id as int];
        assert(player@ == p);
        let (x, y) = self.gui_position_xy(player.position());
        let inventory = player.inventory();
        if crate::text::str_eq(command, "pnw") {
            let mut s = String::from_str("pnw #");
            push_dec(&mut s, player.get_id() as u128);
            s.append(" ");
            push_dec(&mut s, x as u128);
            s.append(" ");
            push_dec(&mut s, y as u128);
            s.append(" ");
            push_dec(&mut s, Self::gui_direction(player.direction()) as u128);
            s.append(" ");
            push_dec(&mut s, player.level() as u128);
            s.append(" ");
            s.append(player.team());
            s.append("\n");
            s
        } else if crate::text::str_eq(command, "ppo") {
            let mut s = String::from_str("ppo #");
            push_dec(&mut s, player.get_id() as u128);
            s.append(" ");
            push_dec(&mut s, x as u128);
            s.append(" ");
            push_dec(&mut s, y as u128);
            s.append(" ");
            push_dec(&mut s, Self::gui_direction(player.direction()) as u128);
            s.append("\n");
            s
        } else if crate::text::str_eq(command, "plv") {
            let mut s = String::from_str("plv #");
            push_dec(&mut s, player.get_id() as u128);
            s.append(" ");
            push_dec(&mut s, player.level() as u128);
            s.append("\n");
            s
        } else if crate::text::str_eq(command, "pin") {
            let mut s = String::from_str("pin #");
            push_dec(&mut s, player.get_id() as u128);
            s.append(" ");
            push_dec(&mut s, x as u128);
            s.append(" ");
            push_dec(&mut s, y as u128);
            s.append(" ");
            push_dec(&mut s, (player.get_saturation() / 126) as u128 + inventory[0] as u128);
            let mut i: usize = 1;
            while i < 7
                invariant
                    1 <= i <= 7,
                    inventory@ == p.inventory,
                    inventory@.len() == 7,
                    s@ == pin_prefix(self@.map, p, i as nat),
                decreases 7 - i,
            {
                s.append(" ");
                push_dec(&mut s, inventory[i] as u128);
                i = i + 1;
            }
            s.append("\n");
            proof {
                reveal_with_fuel(pin_prefix, 8);
            }
            s
        } else {
            String::new()
        }
    }
}

/// The first part of a `bct` line: position and the counts of the first
/// `i` resources.
pub open spec fn counts_prefix(x: nat, y: nat, t: Seq<Resource>, i: nat) -> Seq<char>
    decreases i,
{
    if i == 0 {
        "bct "@ + dec(x) + " "@ + dec(y)
    } else {
        counts_prefix(x, y, t, (i - 1) as nat) + " "@ + dec(seq_count(t, resource_at(i - 1)))
    }
}

/// The first part of a `pin` line: up to the stock of the first `i`
/// resources.
pub open spec fn pin_prefix(m: MapView, p: EntityView, i: nat) -> Seq<char>
    decreases i,
{
    if i <= 1 {
        "pin #"@ + dec(p.id as nat) + " "@ + dec(gui_x(m, p.pos)) + " "@ + dec(gui_y(m, p.pos)) + " "@
            + dec(shown_food(p))
    } else {
        pin_prefix(m, p, (i - 1) as nat) + " "@ + dec(p.inventory[i - 1] as nat)
    }
}

/// A number taken as an `EntityId` is no larger than it was.
pub proof fn lemma_id_truncation(i: usize)
    ensures
        (i as u8) as usize <= i,
{
    assert((i as u8) as usize <= i) by (bit_vector);
}

/// `tna name` for each team, in order.
pub open spec fn teams_text(teams: Seq<Seq<char>>) -> Seq<char>
    decreases teams.len(),
{
    if teams.len() == 0 {
        Seq::empty()
    } else {
        teams_text(teams.drop_last()) + "tna "@ + teams.last() + "\n"@
    }
}

/// The `pnw` line of each connected player among the first `n`.
pub open spec fn players_text(g: GameView, n: nat) -> Seq<char>
    decreases n,
{
    if n == 0 {
        Seq::empty()
    } else {
        let p = g.players[n - 1];
        players_text(g, (n - 1) as nat) + if p.raw_fd >= 0 {
            player_line(g, "pnw"@, line_id(p))
        } else {
            Seq::empty()
        }
    }
}

/// `enw #id #-1 x y` for one egg.
pub open spec fn egg_text(m: MapView, e: EggView) -> Seq<char> {
    "enw #"@ + dec(e.id as nat) + " #-1 "@ + dec(gui_x(m, e.position)) + " "@ + dec(
        gui_y(m, e.position),
    ) + "\n"@
}

/// The `enw` line of each of the first `n` eggs.
pub open spec fn eggs_text(m: MapView, eggs: Seq<EggView>, n: nat) -> Seq<char>
    decreases n,
{
    if n == 0 {
        Seq::empty()
    } else {
        eggs_text(m, eggs, (n - 1) as nat) + egg_text(m, eggs[n - 1])
    }
}

/// `msz width height`.
pub open spec fn msz_text(m: MapView) -> Seq<char> {
    "msz "@ + dec(m.width) + " "@ + dec(m.height) + "\n"@
}

/// What a graphical client is told when it says hello: the map's size and
/// tiles, the teams, the connected players, the eggs, the time unit and a
/// greeting.
pub open spec fn initial_state_text(g: GameView) -> Seq<char> {
    msz_text(g.map) + map_text(g.map, g.map.height) + teams_text(g.teams) + players_text(
        g,
        g.players.len(),
    ) + eggs_text(g.map, g.eggs, g.eggs.len()) + "sgt "@ + dec(g.time_unit as nat) + "\n"@
        + "smg GUI connected\n"@
}

/// The answer to `ppo`, `plv` or `pin` with the argument `id_text`: the
/// line about player `#n` when `id_text` is `#` and a number of an
/// existing player, else `sbp`.
pub open spec fn player_reply_text(g: GameView, id_text: Seq<char>, cmd: Seq<char>) -> Seq<char> {
    if id_text.len() > 0 && id_text[0] == '#' {
        match unsigned_text(id_text.skip(1)) {
            Some(v) => if v <= usize::MAX && v < g.players.len() {
                player_line(g, cmd, ((v as usize) as EntityId) as nat)
            } else {
                "sbp\n"@
            },
            None => "sbp\n"@,
        }
    } else {
        "sbp\n"@
    }
}

/// The state and the answer after a graphical client's command.
pub open spec fn gui_command_spec(g: GameView, data: Seq<char>) -> (GameView, Seq<char>) {
    let w = words(data);
    if w.len() == 1 && w[0] == "msz"@ {
        (g, msz_text(g.map))
    } else if w.len() == 1 && w[0] == "mct"@ {
        (g, map_text(g.map, g.map.height))
    } else if w.len() == 1 && w[0] == "tna"@ {
        (g, teams_text(g.teams))
    } else if w.len() == 3 && w[0] == "bct"@ {
        match (unsigned_text(w[1]), unsigned_text(w[2])) {
            (Some(x), Some(y)) => if x <= usize::MAX && y <= usize::MAX && x < g.map.width && y
                < g.map.height {
                (g, tile_text(g.map, x, y))
            } else {
                (g, "sbp\n"@)
            },
            _ => (g, "sbp\n"@),
        }
    } else if w.len() == 2 && (w[0] == "ppo"@ || w[0] == "plv"@ || w[0] == "pin"@) {
        (g, player_reply_text(g, w[1], w[0]))
    } else if w.len() == 1 && w[0] == "sgt"@ {
        (g, "sgt "@ + dec(g.time_unit as nat) + "\n"@)
    } else if w.len() == 2 && w[0] == "sst"@ {
        match unsigned_text(w[1]) {
            Some(v) => if v <= usize::MAX {
                (GameView { time_unit: v as usize, ..g }, "sst "@ + dec(v) + "\n"@)
            } else {
                (g, "sbp\n"@)
            },
            None => (g, "sbp\n"@),
        }
    } else {
        (g, "suc\n"@)
    }
}

impl Game {
    /// `msz width height`.
    fn msz_line(&self) -> (s: String)
        ensures
            s@ == msz_text(self@.map),
    {
        let (width, height) = self.map.dimensions();
        let mut s = String::from_str("msz ");
        push_dec(&mut s, width as u128);
        s.append(" ");
        push_dec(&mut s, height as u128);
        s.append("\n");
        s
    }

    /// `tna name` for each team.
    fn tna_lines(&self) -> (s: String)
        ensures
            s@ == teams_text(self@.teams),
    {
        let mut s = String::new();
        let mut i: usize = 0;
        let ghost t = self@.teams;
        assert(t.take(0) =~= Seq::<Seq<char>>::empty());
        while i < self.teams.len()
            invariant
                i <= self.teams@.len(),
                t == self@.teams,
                t == texts_of(self.teams@),
                s@ == teams_text(t.take(i as int)),
            decreases self.teams@.len() - i,
        {
            assert(t.take(i + 1).drop_last() =~= t.take(i as int));
            s.append("tna ");
            s.append(self.teams[i].as_str());
            s.append("\n");
            i = i + 1;
        }
        assert(t.take(self.teams@.len() as int) =~= t);
        s
    }

    /// What a graphical client is told when it says hello.
    pub(crate) fn gui_initial_state(&self) -> (s: String)
        requires
            self.wf(),
        ensures
            s@ == initial_state_text(self@),
    {
        let mut response = self.msz_line();
        let map = self.gui_map();
        response.append(map.as_str());
        let teams = self.tna_lines();
        response.append(teams.as_str());
        let ghost head = response@;
        let mut i: usize = 0;
        while i < self.players.len()
            invariant
                self.wf(),
                i <= self@.players.len(),
                response@ == head + players_text(self@, i as nat),
            decreases self@.players.len() - i,
        {
            assert(self.players@[i as int]@ == self@.players[i as int]);
            if self.players[i].raw_fd() >= 0 {
                proof {
                    lemma_id_truncation(self@.players[i as int].id);
                }
                let line = self.gui_player_line("pnw", self.players[i].get_id() as EntityId);
                response.append(line.as_str());
            }
            i = i + 1;
        }
        let ghost head2 = response@;
        let mut k: usize = 0;
        while k < self.eggs.len()
            invariant
                self.wf(),
                k <= self@.eggs.len(),
                response@ == head2 + eggs_text(self@.map, self@.eggs, k as nat),
            decreases self@.eggs.len() - k,
        {
            assert(self.eggs@[k as int].view() == self@.eggs[k as int]);
            let (x, y) = self.gui_position_xy(self.eggs[k].position);
            response.append("enw #");
            push_dec(&mut response, self.eggs[k].id as u128);
            response.append(" #-1 ");
            push_dec(&mut response, x as u128);
            response.append(" ");
            push_dec(&mut response, y as u128);
            response.append("\n");
            k = k + 1;
        }
        response.append("sgt ");
        push_dec(&mut response, self.time_unit as u128);
        response.append("\n");
        response.append("smg GUI connected\n");
        response
    }

    /// Answers a graphical client's command (see `gui_command_spec`).
    pub(crate) fn gui_command(&mut self, data: &str) -> (r: ClientReply)
        requires
            old(self).wf(),
        ensures
            final(self).wf(),
            final(self)@ == gui_command_spec(old(self)@, data@).0,
            r.data@ == vstd::utf8::encode_utf8(gui_command_spec(old(self)@, data@).1),
            !r.disconnect,
    {
        let args = split_words(data);
        let ghost w = words(data@);
        let n = args.len();
        assert(n == w.len());
        if n >= 1 {
            assert(args@[0]@ == w[0]);
        }
        if n >= 2 {
            assert(args@[1]@ == w[1]);
        }
        if n >= 3 {
            assert(args@[2]@ == w[2]);
        }
        if n == 1 && str_eq(args[0].as_str(), "msz") {
            let s = self.msz_line();
            ClientReply::data(text_bytes(s.as_str()))
        } else if n == 1 && str_eq(args[0].as_str(), "mct") {
            let s = self.gui_map();
            ClientReply::data(text_bytes(s.as_str()))
        } else if n == 1 && str_eq(args[0].as_str(), "tna") {
            let s = self.tna_lines();
            ClientReply::data(text_bytes(s.as_str()))
        } else if n == 3 && str_eq(args[0].as_str(), "bct") {
            let (width, height) = self.map.dimensions();
            match (parse_bounded(args[1].as_str(), usize::MAX), parse_bounded(args[2].as_str(), usize::MAX)) {
                (Some(x), Some(y)) => {
                    if x < width && y < height {
                        let s = self.gui_tile(x, y);
                        ClientReply::data(text_bytes(s.as_str()))
                    } else {
                        ClientReply::data(text_bytes("sbp\n"))
                    }
                },
                _ => ClientReply::data(text_bytes("sbp\n")),
            }
        } else if n == 2 && (str_eq(args[0].as_str(), "ppo") || str_eq(args[0].as_str(), "plv") || str_eq(args[0].as_str(), "pin")) {
            self.gui_player_reply(args[1].as_str(), args[0].as_str())
        } else if n == 1 && str_eq(args[0].as_str(), "sgt") {
            let mut s = String::from_str("sgt ");
            push_dec(&mut s, self.time_unit as u128);
            s.append("\n");
            ClientReply::data(text_bytes(s.as_str()))
        } else if n == 2 && str_eq(args[0].as_str(), "sst") {
            match parse_bounded(args[1].as_str(), usize::MAX) {
                Some(value) => {
                    self.time_unit = value;
                    let mut s = String::from_str("sst ");
                    push_dec(&mut s, self.time_unit as u128);
                    s.append("\n");
                    ClientReply::data(text_bytes(s.as_str()))
                },
                None => ClientReply::data(text_bytes("sbp\n")),
            }
        } else {
            ClientReply::data(text_bytes("suc\n"))
        }
    }

    /// Answers `ppo`, `plv` or `pin` (see `player_reply_text`).
    fn gui_player_reply(&self, id: &str, command: &str) -> (r: ClientReply)
        requires
            self.wf(),
        ensures
            r.data@ == vstd::utf8::encode_utf8(player_reply_text(self@, id@, command@)),
            !r.disconnect,
    {
        if !crate::text::starts_with_char(id, '#') {
            return ClientReply::data(text_bytes("sbp\n"));
        }
        let rest = crate::text::suffix_string(id, 1);
        let parsed = match parse_bounded(rest.as_str(), usize::MAX) {
            Some(v) => v,
            None => {
                return ClientReply::data(text_bytes("sbp\n"));
            },
        };
        if parsed >= self.players.len() {
            return ClientReply::data(text_bytes("sbp\n"));
        }
        proof {
            lemma_id_truncation(parsed);
        }
        let s = self.gui_player_line(command, parsed as EntityId);
        ClientReply::data(text_bytes(s.as_str()))
    }
}

} // verus!
