use vstd::prelude::*;

use crate::action::{Action, ActionView, EAction};

use super::map::Position;
use super::resource::{Direction, Resource, Rotation};

verus! {

/// A player's number, as the protocol carries it.
pub type EntityId = u8;

/// The most actions a player can have queued.
pub const MAX_QUEUED_ACTIONS: usize = 10;

/// A player on the map, with its connection, team, life and inventory.
#[derive(Clone, PartialEq, Debug)]
pub struct Entity {
    id: usize,
    raw_fd: i32,
    team: String,
    saturation: usize,
    inventory: [usize; 7],
    level: usize,
    alive: bool,
    dummy: bool,
    pos: Position,
    direction: Direction,
    pub actions: Vec<Action>,
    reply: String,
}

/// The value of an `Entity`.
pub struct EntityView {
    pub id: usize,
    pub raw_fd: i32,
    pub team: Seq<char>,
    pub saturation: usize,
    pub inventory: Seq<usize>,
    pub level: usize,
    pub alive: bool,
    pub dummy: bool,
    pub pos: Position,
    pub direction: Direction,
    pub actions: Seq<ActionView>,
    pub reply: Seq<char>,
}

impl View for Entity {
    type V = EntityView;

    closed spec fn view(&self) -> EntityView {
        EntityView {
            id: self.id,
            raw_fd: self.raw_fd,
            team: self.team@,
            saturation: self.saturation,
            inventory: self.inventory@,
            level: self.level,
            alive: self.alive,
            dummy: self.dummy,
            pos: self.pos,
            direction: self.direction,
            actions: self.actions@.map_values(|a: Action| a@),
            reply: self.reply@,
        }
    }
}

/// A fresh player: number 0, no connection, no team, 1260 ticks of life,
/// an empty inventory, level 1, at the origin facing south, nothing queued.
pub open spec fn dummy_view() -> EntityView {
    EntityView {
        id: 0,
        raw_fd: -1i32,
        team: Seq::empty(),
        saturation: 1260,
        inventory: seq![0usize, 0, 0, 0, 0, 0, 0],
        level: 1,
        alive: true,
        dummy: true,
        pos: Position { x: 0, y: 0 },
        direction: Direction::South,
        actions: Seq::empty(),
        reply: Seq::empty(),
    }
}

/// One step from `pos` in direction `dir`: north is `y + 1`, south
/// `y - 1`, east `x + 1`, west `x - 1`; coordinates wrap around the `i8`
/// range.
pub open spec fn step(pos: Position, dir: Direction) -> Position {
    match dir {
        Direction::North => Position { x: pos.x, y: pos.y.wrapping_add(1) },
        Direction::South => Position { x: pos.x, y: pos.y.wrapping_sub(1) },
        Direction::Est => Position { x: pos.x.wrapping_add(1), y: pos.y },
        Direction::West => Position { x: pos.x.wrapping_sub(1), y: pos.y },
        Direction::NoDirection => pos,
    }
}

/// The direction after turning: right goes north, east, south, west;
/// left goes the other way; no direction stays as it is.
pub open spec fn turn(dir: Direction, rotation: Rotation) -> Direction {
    match (dir, rotation) {
        (Direction::North, Rotation::Right) => Direction::Est,
        (Direction::Est, Rotation::Right) => Direction::South,
        (Direction::South, Rotation::Right) => Direction::West,
        (Direction::West, Rotation::Right) => Direction::North,
        (Direction::North, Rotation::Left) => Direction::West,
        (Direction::West, Rotation::Left) => Direction::South,
        (Direction::South, Rotation::Left) => Direction::Est,
        (Direction::Est, Rotation::Left) => Direction::North,
        _ => dir,
    }
}

/// Turning one way and then the other gives back the first direction.
pub proof fn lemma_turn_right_left(dir: Direction)
    ensures
        turn(turn(dir, Rotation::Right), Rotation::Left) == dir,
        turn(turn(dir, Rotation::Left), Rotation::Right) == dir,
{
}

/// Four quarter turns the same way give back the first direction.
pub proof fn lemma_turn_four_times(dir: Direction, rotation: Rotation)
    ensures
        turn(turn(turn(turn(dir, rotation), rotation), rotation), rotation) == dir,
{
}

/// One tick for a player's queue: the first action, if any, counts one
/// tick down; when it reaches zero it leaves the queue and is returned.
pub open spec fn first_action_step(e: EntityView) -> (EntityView, Option<crate::action::EActionView>) {
    if e.actions.len() == 0 {
        (e, None)
    } else {
        let a = e.actions[0];
        let t = if a.timeleft > 0 {
            (a.timeleft - 1) as nat
        } else {
            0
        };
        if t == 0 {
            (EntityView { actions: e.actions.drop_first(), ..e }, Some(a.kind))
        } else {
            (EntityView { actions: e.actions.update(0, ActionView { timeleft: t, ..a }), ..e }, None)
        }
    }
}

impl Entity {
    /// A fresh player (see `dummy_view`).
    pub fn new_dummy() -> (e: Self)
        ensures
            e@ == dummy_view(),
    {
        let e = Entity {
            id: 0,
            raw_fd: -1,
            team: String::new(),
            saturation: 1260,
            inventory: [0, 0, 0, 0, 0, 0, 0],
            level: 1,
            dummy: true,
            alive: true,
            pos: Position { x: 0, y: 0 },
            direction: Direction::South,
            actions: Vec::new(),
            reply: String::new(),
        };
        assert(e@.inventory =~= seq![0usize, 0, 0, 0, 0, 0, 0]);
        assert(e@.actions =~= Seq::<ActionView>::empty());
        e
    }

    pub fn set_reply(&mut self, msg: String)
        ensures
            final(self)@ == (EntityView { reply: msg@, ..old(self)@ }),
    {
        self.reply = msg;
    }

    pub fn is_alive(&self) -> (b: bool)
        ensures
            b == self@.alive,
    {
        self.alive
    }

    pub fn set_alive(&mut self, value: bool)
        ensures
            final(self)@ == (EntityView { alive: value, ..old(self)@ }),
    {
        self.alive = value;
    }

    /// A copy of the stored reply; `_msg` is not used.
    pub fn get_reply(&mut self, _msg: String) -> (r: String)
        ensures
            r@ == old(self)@.reply,
            final(self)@ == old(self)@,
    {
        self.reply.clone()
    }

    pub fn get_id(&self) -> (id: usize)
        ensures
            id == self@.id,
    {
        self.id
    }

    pub fn set_id(&mut self, id: usize)
        ensures
            final(self)@ == (EntityView { id, ..old(self)@ }),
    {
        self.id = id;
    }

    /// The connection the player's replies go to; negative when none.
    pub fn raw_fd(&self) -> (fd: i32)
        ensures
            fd == self@.raw_fd,
    {
        self.raw_fd
    }

    pub fn set_raw_fd(&mut self, raw_fd: i32)
        ensures
            final(self)@ == (EntityView { raw_fd, ..old(self)@ }),
    {
        self.raw_fd = raw_fd;
    }

    pub fn position(&self) -> (p: Position)
        ensures
            p == self@.pos,
    {
        self.pos
    }

    pub fn direction(&self) -> (d: Direction)
        ensures
            d == self@.direction,
    {
        self.direction
    }

    pub fn level(&self) -> (l: usize)
        ensures
            l == self@.level,
    {
        self.level
    }

    pub fn level_up(&mut self)
        requires
            old(self)@.level < usize::MAX,
        ensures
            final(self)@ == (EntityView { level: (old(self)@.level + 1) as usize, ..old(self)@ }),
    {
        self.level += 1;
    }

    pub fn set_position(&mut self, position: Position)
        ensures
            final(self)@ == (EntityView { pos: position, ..old(self)@ }),
    {
        self.pos = position;
    }

    /// The number of items of each resource held, in protocol order.
    pub fn inventory(&self) -> (inv: &[usize; 7])
        ensures
            inv@ == self@.inventory,
    {
        &self.inventory
    }

    /// The inventory, to change in place.
    pub fn inventory_mut(&mut self) -> (inv: &mut [usize; 7])
        ensures
            inv@ == old(self)@.inventory,
            final(self)@ == (EntityView { inventory: final(inv)@, ..old(self)@ }),
    {
        &mut self.inventory
    }

    pub fn set_saturation(&mut self, value: usize)
        ensures
            final(self)@ == (EntityView { saturation: value, ..old(self)@ }),
    {
        self.saturation = value;
    }

    pub fn get_saturation(&self) -> (s: usize)
        ensures
            s == self@.saturation,
    {
        self.saturation
    }

    /// Adds one item of `resource` to the inventory.
    pub fn take(&mut self, resource: Resource)
        requires
            old(self)@.inventory[resource.slot() as int] < usize::MAX,
        ensures
            final(self)@ == (EntityView {
                inventory: old(self)@.inventory.update(
                    resource.slot() as int,
                    (old(self)@.inventory[resource.slot() as int] + 1) as usize,
                ),
                ..old(self)@
            }),
    {
        let i = resource.index();
        self.inventory[i] = self.inventory[i] + 1;
        assert(self@.inventory =~= old(self)@.inventory.update(
            resource.slot() as int,
            (old(self)@.inventory[resource.slot() as int] + 1) as usize,
        ));
    }

    /// Removes one item of `resource` from the inventory; `false`, with
    /// nothing changed, when there is none.
    pub fn set(&mut self, resource: Resource) -> (ok: bool)
        ensures
            ok == (old(self)@.inventory[resource.slot() as int] > 0),
            ok ==> final(self)@ == (EntityView {
                inventory: old(self)@.inventory.update(
                    resource.slot() as int,
                    (old(self)@.inventory[resource.slot() as int] - 1) as usize,
                ),
                ..old(self)@
            }),
            !ok ==> final(self)@ == old(self)@,
    {
        let i = resource.index();
        if self.inventory[i] == 0 {
            return false;
        }
        self.inventory[i] = self.inventory[i] - 1;
        assert(self@.inventory =~= old(self)@.inventory.update(
            resource.slot() as int,
            (old(self)@.inventory[resource.slot() as int] - 1) as usize,
        ));
        true
    }

    /// Moves one step the way the player faces.
    pub fn forward(&mut self)
        ensures
            final(self)@ == (EntityView { pos: step(old(self)@.pos, old(self)@.direction), ..old(self)@ }),
    {
        match self.direction {
            Direction::North => self.pos.y = self.pos.y.wrapping_add(1),
            Direction::South => self.pos.y = self.pos.y.wrapping_sub(1),
            Direction::Est => self.pos.x = self.pos.x.wrapping_add(1),
            Direction::West => self.pos.x = self.pos.x.wrapping_sub(1),
            Direction::NoDirection => {},
        }
    }

    /// Turns a quarter to the right or to the left.
    pub fn rotate(&mut self, direction: Rotation)
        ensures
            final(self)@ == (EntityView { direction: turn(old(self)@.direction, direction), ..old(self)@ }),
    {
        self.direction =
        match (self.direction, direction) {
            (_, Rotation::NoRotation) => self.direction,
            (Direction::North, Rotation::Right) => Direction::Est,
            (Direction::Est, Rotation::Right) => Direction::South,
            (Direction::South, Rotation::Right) => Direction::West,
            (Direction::West, Rotation::Right) => Direction::North,
            (Direction::North, Rotation::Left) => Direction::West,
            (Direction::West, Rotation::Left) => Direction::South,
            (Direction::South, Rotation::Left) => Direction::Est,
            (Direction::Est, Rotation::Left) => Direction::North,
            (_, _) => self.direction,
        }
    }

    /// Queues an action; `false`, with nothing queued, when ten are
    /// already waiting.
    pub fn add_action(&mut self, action: Action) -> (ok: bool)
        ensures
            ok == (old(self)@.actions.len() < 10),
            ok ==> final(self)@ == (EntityView { actions: old(self)@.actions.push(action@), ..old(self)@ }),
            !ok ==> final(self)@ == old(self)@,
    {
        if self.actions.len() >= MAX_QUEUED_ACTIONS {
            return false;
        }
        let ghost a = action@;
        self.actions.push(action);
        assert(self@.actions =~= old(self)@.actions.push(a));
        true
    }

    /// Empties the queue of actions.
    pub fn clear_actions(&mut self)
        ensures
            final(self)@ == (EntityView { actions: Seq::empty(), ..old(self)@ }),
    {
        self.actions.clear();
        assert(self@.actions =~= Seq::<ActionView>::empty());
    }

    /// The number of queued actions.
    pub fn queued(&self) -> (n: usize)
        ensures
            n == self@.actions.len(),
    {
        self.actions.len()
    }

    /// Counts one tick down on the first queued action; when that
    /// completes it, removes it and returns what it does.
    pub fn advance_first_action(&mut self) -> (done: Option<EAction>)
        ensures
            match (done, first_action_step(old(self)@)) {
                (Some(k), (e, Some(kv))) => k@ == kv && final(self)@ == e,
                (None, (e, None)) => final(self)@ == e,
                _ => false,
            },
    {
        if self.actions.len() == 0 {
            return None;
        }
        let ghost old_actions = self@.actions;
        self.actions[0].reduce_timeleft();
        assert(self@.actions =~= old_actions.update(0, ActionView {
            timeleft: if old_actions[0].timeleft > 0 { (old_actions[0].timeleft - 1) as nat } else { 0 },
            ..old_actions[0]
        }));
        if self.actions[0].is_complete() {
            let a = self.actions.remove(0);
            assert(self@.actions =~= old_actions.drop_first());
            Some(a.kind())
        } else {
            None
        }
    }

    pub fn set_team(&mut self, name: &String)
        ensures
            final(self)@ == (EntityView { team: name@, ..old(self)@ }),
    {
        self.team = name.clone();
    }

    pub fn team(&self) -> (t: &str)
        ensures
            t@ == self@.team,
    {
        self.team.as_str()
    }
}

} // verus!
