use vstd::prelude::*;

use super::entity::Entity;
use super::resource::{max_for, resource_at, spec_max_for, Resource};

verus! {

/// A position on the map. Coordinates are taken modulo the map's size
/// wherever a tile is read.
#[derive(Clone, Copy, PartialEq, Eq, Debug, Structural)]
pub struct Position {
    pub x: i8,
    pub y: i8,
}

impl Position {
    /// Moves the position to `(x, y)`.
    pub fn set(&mut self, x: i8, y: i8)
        ensures
            *final(self) == (Position { x, y }),
    {
        self.y = y;
        self.x = x;
    }
}

/// `v` taken modulo `m`, as a coordinate in `0..m`.
pub open spec fn wrap(v: int, m: nat) -> nat {
    (v % (m as int)) as nat
}

/// How many items of `r` a sequence holds.
pub open spec fn seq_count(s: Seq<Resource>, r: Resource) -> nat
    decreases s.len(),
{
    if s.len() == 0 {
        0
    } else {
        seq_count(s.drop_last(), r) + if s.last() == r {
            1nat
        } else {
            0nat
        }
    }
}

/// How many items of `r` a row of tiles holds.
pub open spec fn row_count(row: Seq<Seq<Resource>>, r: Resource) -> nat
    decreases row.len(),
{
    if row.len() == 0 {
        0
    } else {
        row_count(row.drop_last(), r) + seq_count(row.last(), r)
    }
}

/// How many items of `r` a grid of tiles holds.
pub open spec fn grid_count(cells: Seq<Seq<Seq<Resource>>>, r: Resource) -> nat
    decreases cells.len(),
{
    if cells.len() == 0 {
        0
    } else {
        grid_count(cells.drop_last(), r) + row_count(cells.last(), r)
    }
}

/// The value of a `WorldMap`: its size and the items on each tile, by row
/// (`y`) then column (`x`).
pub struct MapView {
    pub width: nat,
    pub height: nat,
    pub cells: Seq<Seq<Seq<Resource>>>,
}

/// A grid of `height` rows of `width` empty tiles.
pub open spec fn empty_grid(width: nat, height: nat) -> Seq<Seq<Seq<Resource>>> {
    Seq::new(height, |y: int| Seq::new(width, |x: int| Seq::<Resource>::empty()))
}

/// The grid has `height` rows of `width` tiles each.
pub open spec fn grid_shape(cells: Seq<Seq<Seq<Resource>>>, width: nat, height: nat) -> bool {
    &&& cells.len() == height
    &&& forall|y: int| 0 <= y < height ==> #[trigger] cells[y].len() == width
}

/// The items on the tile at `(x, y)`, coordinates taken modulo the size.
pub open spec fn tile_at(m: MapView, x: int, y: int) -> Seq<Resource> {
    m.cells[wrap(y, m.height) as int][wrap(x, m.width) as int]
}

/// The grid with `items` as the contents of the tile at `(x, y)`.
pub open spec fn set_tile(
    cells: Seq<Seq<Seq<Resource>>>,
    x: int,
    y: int,
    items: Seq<Resource>,
) -> Seq<Seq<Seq<Resource>>> {
    cells.update(y, cells[y].update(x, items))
}

/// The position of the first item `r` in `s`, if any.
pub open spec fn first_index(s: Seq<Resource>, r: Resource) -> Option<int>
    decreases s.len(),
{
    if s.len() == 0 {
        None
    } else if s[0] == r {
        Some(0)
    } else {
        match first_index(s.drop_first(), r) {
            Some(i) => Some(i + 1),
            None => None,
        }
    }
}

/// The items of `s` without the first `r`; `s` itself when it holds none.
pub open spec fn remove_first(s: Seq<Resource>, r: Resource) -> Seq<Resource> {
    match first_index(s, r) {
        Some(i) => s.remove(i),
        None => s,
    }
}

/// The smaller of `a` and `b`.
pub open spec fn min_nat(a: nat, b: nat) -> nat {
    if a < b {
        a
    } else {
        b
    }
}

/// The items of `s`, scanned from the first, of which the first `budget`
/// items `r` are dropped.
pub open spec fn drop_upto(s: Seq<Resource>, r: Resource, budget: nat) -> Seq<Resource>
    decreases s.len(),
{
    if s.len() == 0 {
        s
    } else {
        let prev = drop_upto(s.drop_last(), r, budget);
        if s.last() == r && seq_count(s.drop_last(), r) < budget {
            prev
        } else {
            prev.push(s.last())
        }
    }
}

/// A row, tile by tile from the first, with the first `budget` items `r`
/// dropped.
pub open spec fn deplete_row(row: Seq<Seq<Resource>>, r: Resource, budget: nat) -> Seq<
    Seq<Resource>,
>
    decreases row.len(),
{
    if row.len() == 0 {
        row
    } else {
        let used = min_nat(row_count(row.drop_last(), r), budget);
        deplete_row(row.drop_last(), r, budget).push(
            drop_upto(row.last(), r, (budget - used) as nat),
        )
    }
}

/// A grid, row by row from the first, with the first `budget` items `r`
/// dropped.
pub open spec fn deplete_grid(cells: Seq<Seq<Seq<Resource>>>, r: Resource, budget: nat) -> Seq<
    Seq<Seq<Resource>>,
>
    decreases cells.len(),
{
    if cells.len() == 0 {
        cells
    } else {
        let used = min_nat(grid_count(cells.drop_last(), r), budget);
        deplete_grid(cells.drop_last(), r, budget).push(
            deplete_row(cells.last(), r, (budget - used) as nat),
        )
    }
}

/// The tile that receives the next spawned item, searched row by row from
/// `(0, 0)`: the first tile holding fewer items than any tile before it,
/// starting from a bound of `usize::MAX`.
pub struct Pick {
    pub x: nat,
    pub y: nat,
    pub count: nat,
}

/// The search over row `y` from column `x` on.
pub open spec fn row_pick(row: Seq<Seq<Resource>>, y: nat, x: nat, best: Pick) -> Pick
    decreases row.len() - x,
{
    if x >= row.len() {
        best
    } else {
        row_pick(
            row,
            y,
            x + 1,
            if row[x as int].len() < best.count {
                Pick { x, y, count: row[x as int].len() }
            } else {
                best
            },
        )
    }
}

/// The search over the grid from row `y` on.
pub open spec fn grid_pick(cells: Seq<Seq<Seq<Resource>>>, y: nat, best: Pick) -> Pick
    decreases cells.len() - y,
{
    if y >= cells.len() {
        best
    } else {
        grid_pick(cells, y + 1, row_pick(cells[y as int], y, 0, best))
    }
}

/// The tile that receives the next spawned item.
pub open spec fn least_filled(cells: Seq<Seq<Seq<Resource>>>) -> Pick {
    grid_pick(cells, 0, Pick { x: 0, y: 0, count: usize::MAX as nat })
}

/// The grid after `amount` items `r` are spawned one by one, each on the
/// least filled tile, with the positions they went to.
pub open spec fn spawn_spec(cells: Seq<Seq<Seq<Resource>>>, r: Resource, amount: nat) -> (
    Seq<Seq<Seq<Resource>>>,
    Seq<Position>,
)
    decreases amount,
{
    if amount == 0 {
        (cells, Seq::empty())
    } else {
        let (c, ps) = spawn_spec(cells, r, (amount - 1) as nat);
        let p = least_filled(c);
        (
            set_tile(c, p.x as int, p.y as int, c[p.y as int][p.x as int].push(r)),
            ps.push(Position { x: p.x as i8, y: p.y as i8 }),
        )
    }
}

/// The grid after refilling the resources in protocol order from position
/// `i` on: each resource below its target gets the missing items spawned.
pub open spec fn refill_spec(cells: Seq<Seq<Seq<Resource>>>, area: nat, i: int) -> (
    Seq<Seq<Seq<Resource>>>,
    Seq<Position>,
)
    decreases 7 - i,
{
    if i < 0 || i >= 7 {
        (cells, Seq::empty())
    } else {
        let r = resource_at(i);
        let current = grid_count(cells, r);
        let max = spec_max_for(area, r);
        let (c, ps) = if current < max {
            spawn_spec(cells, r, (max - current) as nat)
        } else {
            (cells, Seq::empty())
        };
        let (c2, ps2) = refill_spec(c, area, i + 1);
        (c2, ps + ps2)
    }
}

/// One square of the map: the items lying on it, and an occupant slot.
#[derive(Clone, Debug)]
pub struct Tile {
    stone: Vec<Resource>,
    entity: Option<Entity>,
}

impl View for Tile {
    type V = Seq<Resource>;

    closed spec fn view(&self) -> Seq<Resource> {
        self.stone@
    }
}

/// The code that a tile's first item contributes to its value.
pub open spec fn item_code(r: Resource) -> nat {
    match r {
        Resource::Food => 1,
        Resource::Sibur => 2,
        Resource::Phiras => 3,
        Resource::Linemate => 4,
        Resource::Mendiane => 5,
        Resource::Thystame => 6,
        Resource::Deraumere => 7,
    }
}

/// A tile's value: 10 plus the code of its first item when it holds any,
/// plus 200 times the occupant's number when it has one.
pub open spec fn tile_value(items: Seq<Resource>, occupant: Option<usize>) -> nat {
    let first: nat = if items.len() > 0 {
        10 + item_code(items[0])
    } else {
        0
    };
    let occ: nat = match occupant {
        Some(id) => (200 * id) as nat,
        None => 0,
    };
    first + occ
}

impl Tile {
    /// The number of the entity standing on the tile, if one is recorded.
    pub closed spec fn occupant(&self) -> Option<usize> {
        match self.entity {
            Some(e) => Some(e@.id),
            None => None,
        }
    }

    /// A tile with nothing on it.
    pub fn new_empty() -> (t: Self)
        ensures
            t@ == Seq::<Resource>::empty(),
            t.occupant() is None,
    {
        Tile { stone: Vec::new(), entity: None }
    }

    /// The tile's value (see `tile_value`).
    pub fn get_value(&self) -> (v: usize)
        requires
            self.occupant() matches Some(id) ==> 200 * id + 17 <= usize::MAX,
        ensures
            v == tile_value(self@, self.occupant()),
    {
        let mut total: usize = 0;
        if self.stone.len() > 0 {
            let mut a: usize = 10;
            a += match self.stone[0] {
                Resource::Food => 1,
                Resource::Sibur => 2,
                Resource::Phiras => 3,
                Resource::Linemate => 4,
                Resource::Mendiane => 5,
                Resource::Thystame => 6,
                Resource::Deraumere => 7,
            };
            total += a;
        }
        match &self.entity {
            Some(e) => {
                total += 200 * e.get_id();
            },
            None => {},
        }
        total
    }

    /// The items on the tile.
    pub fn resources(&self) -> (r: &[Resource])
        ensures
            r@ == self@,
    {
        self.stone.as_slice()
    }

    /// Whether two tiles have the same value.
    pub fn eq(&self, rhs: Tile) -> (b: bool)
        requires
            self.occupant() matches Some(id) ==> 200 * id + 17 <= usize::MAX,
            rhs.occupant() matches Some(id) ==> 200 * id + 17 <= usize::MAX,
        ensures
            b == (tile_value(rhs@, rhs.occupant()) == tile_value(self@, self.occupant())),
    {
        rhs.get_value() == self.get_value()
    }
}

/// The number of items of each resource, by name.
#[derive(Clone, Copy, Debug, PartialEq, Eq)]
pub struct ResourceCounts {
    pub food: usize,
    pub linemate: usize,
    pub deraumere: usize,
    pub sibur: usize,
    pub mendiane: usize,
    pub phiras: usize,
    pub thystame: usize,
}

impl ResourceCounts {
    /// The count for the resource at position `i` of the protocol order.
    pub open spec fn at(self, i: int) -> usize {
        if i == 0 {
            self.food
        } else if i == 1 {
            self.linemate
        } else if i == 2 {
            self.deraumere
        } else if i == 3 {
            self.sibur
        } else if i == 4 {
            self.mendiane
        } else if i == 5 {
            self.phiras
        } else {
            self.thystame
        }
    }
}

/// The world: a `width` by `height` torus of tiles.
#[derive(Clone, Debug)]
pub struct WorldMap {
    tiles: Vec<Vec<Tile>>,
    height: usize,
    width: usize,
}

impl View for WorldMap {
    type V = MapView;

    closed spec fn view(&self) -> MapView {
        MapView {
            width: self.width as nat,
            height: self.height as nat,
            cells: self.tiles@.map_values(|row: Vec<Tile>| row@.map_values(|t: Tile| t@)),
        }
    }
}

impl WorldMap {
    /// The grid has the size the map records, and its area fits in memory.
    pub open spec fn wf(&self) -> bool {
        &&& grid_shape(self@.cells, self@.width, self@.height)
        &&& self@.width * self@.height <= isize::MAX
    }

    /// The occupant recorded on each tile, by row then column.
    pub closed spec fn occupants(&self) -> Seq<Seq<Option<usize>>> {
        self.tiles@.map_values(|row: Vec<Tile>| row@.map_values(|t: Tile| t.occupant()))
    }

    /// An empty `width` by `height` map.
    pub fn new(width: usize, height: usize) -> (m: Self)
        requires
            width * height <= isize::MAX,
        ensures
            m.wf(),
            m@.width == width,
            m@.height == height,
            m@.cells == empty_grid(width as nat, height as nat),
            forall|y: int, x: int|
                0 <= y < height && 0 <= x < width ==> (#[trigger] m.occupants()[y][x]) is None,
    {
        let mut map: Vec<Vec<Tile>> = Vec::new();
        let mut i: usize = 0;
        while i < height
            invariant
                i <= height,
                map@.len() == i,
                forall|y: int| 0 <= y < i ==> (#[trigger] map@[y])@.len() == width,
                forall|y: int, x: int|
                    0 <= y < i && 0 <= x < width ==> (#[trigger] map@[y]@[x])@.len() == 0
                        && map@[y]@[x].occupant() is None,
            decreases height - i,
        {
            let mut row: Vec<Tile> = Vec::new();
            let mut j: usize = 0;
            while j < width
                invariant
                    j <= width,
                    row@.len() == j,
                    forall|x: int|
                        0 <= x < j ==> (#[trigger] row@[x])@.len() == 0 && row@[x].occupant() is None,
                decreases width - j,
            {
                row.push(Tile::new_empty());
                j = j + 1;
            }
            map.push(row);
            i = i + 1;
        }
        let m = WorldMap { tiles: map, width, height };
        assert(grid_shape(m@.cells, m@.width, m@.height));
        assert forall|y: int| 0 <= y < height implies #[trigger] m@.cells[y] == empty_grid(width as nat, height as nat)[y] by {
            assert forall|x: int| 0 <= x < width implies #[trigger] m@.cells[y][x] == Seq::<Resource>::empty() by {
                assert(m.tiles@[y]@[x]@.len() == 0);
                assert(m@.cells[y][x] =~= Seq::<Resource>::empty());
            }
            assert(m@.cells[y] =~= empty_grid(width as nat, height as nat)[y]);
        }
        assert(m@.cells =~= empty_grid(width as nat, height as nat));
        m
    }

    /// The map's width and height.
    pub fn dimensions(&self) -> (d: (usize, usize))
        ensures
            d.0 == self@.width,
            d.1 == self@.height,
    {
        (self.width, self.height)
    }

    /// The tile at `(x, y)`, coordinates taken modulo the size.
    pub fn get(&self, x: isize, y: isize) -> (t: &Tile)
        requires
            self.wf(),
            self@.width > 0,
            self@.height > 0,
        ensures
            t@ == tile_at(self@, x as int, y as int),
            t.occupant() == self.occupants()[wrap(y as int, self@.height) as int][wrap(
                x as int,
                self@.width,
            ) as int],
    {
        proof {
            lemma_area_bounds(self@.width, self@.height);
        }
        let wx = wrap_coord(x, self.width);
        let wy = wrap_coord(y, self.height);
        assert(self.tiles@[wy as int]@.len() == self.width) by {
            assert(self@.cells[wy as int].len() == self@.width);
        }
        &self.tiles[wy][wx]
    }

}

/// `n` capped at `usize::MAX`.
pub open spec fn capped(n: nat) -> usize {
    if n < usize::MAX {
        n as usize
    } else {
        usize::MAX
    }
}

impl WorldMap {
    proof fn lemma_cells(&self, y: int, x: int)
        requires
            0 <= y < self.tiles@.len(),
            0 <= x < self.tiles@[y]@.len(),
        ensures
            self@.cells[y] == self.tiles@[y]@.map_values(|t: Tile| t@),
            self@.cells[y][x] == self.tiles@[y]@[x].stone@,
            self@.cells[y].len() == self.tiles@[y]@.len(),
            self@.cells.len() == self.tiles@.len(),
    {
    }

    /// The total number of items of `resource` on the map, capped at
    /// `usize::MAX`.
    pub fn count(&self, resource: Resource) -> (n: usize)
        requires
            self.wf(),
        ensures
            n == capped(grid_count(self@.cells, resource)),
    {
        let ghost cells = self@.cells;
        let mut total: usize = 0;
        let mut y: usize = 0;
        while y < self.tiles.len()
            invariant
                cells == self@.cells,
                self.wf(),
                y <= self.tiles@.len(),
                total == capped(grid_count(cells.take(y as int), resource)),
            decreases self.tiles@.len() - y,
        {
            let row = &self.tiles[y];
            let ghost before = grid_count(cells.take(y as int), resource);
            proof {
                assert(cells[y as int].len() == row@.len());
            }
            let mut x: usize = 0;
            while x < row.len()
                invariant
                    cells == self@.cells,
                    row == self.tiles@[y as int],
                    y < self.tiles@.len(),
                    cells[y as int].len() == row@.len(),
                    x <= row@.len(),
                    total == capped(before + row_count(cells[y as int].take(x as int), resource)),
                decreases row@.len() - x,
            {
                let stones = &row[x].stone;
                let ghost mid = before + row_count(cells[y as int].take(x as int), resource);
                proof {
                    self.lemma_cells(y as int, x as int);
                }
                let mut k: usize = 0;
                while k < stones.len()
                    invariant
                        k <= stones@.len(),
                        total == capped(mid + seq_count(stones@.take(k as int), resource)),
                    decreases stones@.len() - k,
                {
                    assert(stones@.take(k + 1).drop_last() =~= stones@.take(k as int));
                    if stones[k] == resource {
                        total = total.saturating_add(1);
                    }
                    k = k + 1;
                }
                assert(stones@.take(stones@.len() as int) =~= stones@);
                assert(cells[y as int].take(x + 1).drop_last() =~= cells[y as int].take(x as int));
                x = x + 1;
            }
            assert(cells[y as int].take(row@.len() as int) =~= cells[y as int]);
            assert(cells.take(y + 1).drop_last() =~= cells.take(y as int));
            y = y + 1;
        }
        assert(cells.take(self.tiles@.len() as int) =~= cells);
        total
    }

    /// The number of items of each resource on the map, each capped at
    /// `usize::MAX`.
    pub fn resource_counts(&self) -> (c: ResourceCounts)
        requires
            self.wf(),
        ensures
            forall|i: int| 0 <= i < 7 ==> #[trigger] c.at(i) == capped(grid_count(self@.cells, resource_at(i))),
    {
        ResourceCounts {
            food: self.count(Resource::Food),
            linemate: self.count(Resource::Linemate),
            deraumere: self.count(Resource::Deraumere),
            sibur: self.count(Resource::Sibur),
            mendiane: self.count(Resource::Mendiane),
            phiras: self.count(Resource::Phiras),
            thystame: self.count(Resource::Thystame),
        }
    }

    /// The target number of items of `resource` for this map's area.
    pub fn max_resources(&self, resource: Resource) -> (n: usize)
        requires
            self.wf(),
        ensures
            n == spec_max_for(self@.width * self@.height, resource),
    {
        max_for(self.width * self.height, resource)
    }

    /// The target number of items of each resource for this map's area.
    pub fn target_counts(&self) -> (c: ResourceCounts)
        requires
            self.wf(),
        ensures
            forall|i: int| 0 <= i < 7 ==> #[trigger] c.at(i) == spec_max_for(self@.width * self@.height, resource_at(i)),
    {
        ResourceCounts {
            food: self.max_resources(Resource::Food),
            linemate: self.max_resources(Resource::Linemate),
            deraumere: self.max_resources(Resource::Deraumere),
            sibur: self.max_resources(Resource::Sibur),
            mendiane: self.max_resources(Resource::Mendiane),
            phiras: self.max_resources(Resource::Phiras),
            thystame: self.max_resources(Resource::Thystame),
        }
    }
}

proof fn lemma_first_index(s: Seq<Resource>, r: Resource, k: int)
    requires
        0 <= k <= s.len(),
        forall|j: int| 0 <= j < k ==> s[j] != r,
    ensures
        k < s.len() && s[k] == r ==> first_index(s, r) == Some(k),
        k == s.len() ==> first_index(s, r) is None,
    decreases s.len(),
{
    if s.len() > 0 && k > 0 {
        lemma_first_index(s.drop_first(), r, k - 1);
    }
}

/// The map with an item `r` removed from the tile at `p` (the first one
/// there); unchanged when the tile holds none.
pub open spec fn map_take(m: MapView, p: Position, r: Resource) -> MapView {
    MapView {
        cells: set_tile(
            m.cells,
            wrap(p.x as int, m.width) as int,
            wrap(p.y as int, m.height) as int,
            remove_first(tile_at(m, p.x as int, p.y as int), r),
        ),
        ..m
    }
}

/// The map with an item `r` added to the tile at `p`.
pub open spec fn map_put(m: MapView, p: Position, r: Resource) -> MapView {
    MapView {
        cells: set_tile(
            m.cells,
            wrap(p.x as int, m.width) as int,
            wrap(p.y as int, m.height) as int,
            tile_at(m, p.x as int, p.y as int).push(r),
        ),
        ..m
    }
}

/// Changing one tile of a well-shaped grid keeps its shape.
pub proof fn lemma_set_tile_shape(
    cells: Seq<Seq<Seq<Resource>>>,
    width: nat,
    height: nat,
    x: int,
    y: int,
    items: Seq<Resource>,
)
    requires
        grid_shape(cells, width, height),
        0 <= x < width,
        0 <= y < height,
    ensures
        grid_shape(set_tile(cells, x, y, items), width, height),
        set_tile(cells, x, y, items)[y][x] == items,
        forall|y2: int, x2: int|
            0 <= y2 < height && 0 <= x2 < width && (y2 != y || x2 != x) ==> #[trigger] set_tile(
                cells,
                x,
                y,
                items,
            )[y2][x2] == cells[y2][x2],
{
    let c = set_tile(cells, x, y, items);
    assert forall|y2: int| 0 <= y2 < height implies #[trigger] c[y2].len() == width by {
        if y2 == y {
        } else {
        }
    }
}

impl WorldMap {
    /// Picks up one item `resource` from the tile at `position`; `false`,
    /// with nothing changed, when the tile holds none.
    pub fn take(&mut self, position: Position, resource: Resource) -> (ok: bool)
        requires
            old(self).wf(),
            old(self)@.width > 0,
            old(self)@.height > 0,
        ensures
            final(self).wf(),
            final(self).occupants() == old(self).occupants(),
            ok == first_index(tile_at(old(self)@, position.x as int, position.y as int), resource) is Some,
            final(self)@ == map_take(old(self)@, position, resource),
            !ok ==> final(self)@ == old(self)@,
    {
        proof {
            lemma_area_bounds(self@.width, self@.height);
        }
        let wx = wrap_coord(position.x as isize, self.width);
        let wy = wrap_coord(position.y as isize, self.height);
        let ghost old_self = *self;
        proof {
            assert(self@.cells[wy as int].len() == self@.width);
            self.lemma_cells(wy as int, wx as int);
        }
        let n = self.tiles[wy][wx].stone.len();
        let mut k: usize = 0;
        while k < n
            invariant
                *self == old_self,
                wy < self.tiles@.len(),
                wx < self.tiles@[wy as int]@.len(),
                n == self.tiles@[wy as int]@[wx as int].stone@.len(),
                k <= n,
                forall|j: int| 0 <= j < k ==> self.tiles@[wy as int]@[wx as int].stone@[j] != resource,
            ensures
                *self == old_self,
                k <= n,
                forall|j: int| 0 <= j < k ==> self.tiles@[wy as int]@[wx as int].stone@[j] != resource,
                k < n ==> self.tiles@[wy as int]@[wx as int].stone@[k as int] == resource,
            decreases n - k,
        {
            if self.tiles[wy][wx].stone[k] == resource {
                break;
            }
            k = k + 1;
        }
        let ghost items = self.tiles@[wy as int]@[wx as int].stone@;
        proof {
            lemma_first_index(items, resource, k as int);
            lemma_set_tile_shape(self@.cells, self@.width, self@.height, wx as int, wy as int, remove_first(items, resource));
        }
        if k == n {
            assert(remove_first(items, resource) == items);
            assert(self@.cells[wy as int][wx as int] == items);
            assert(self@.cells[wy as int].update(wx as int, items) =~= self@.cells[wy as int]);
            assert(self@.cells =~= set_tile(self@.cells, wx as int, wy as int, items));
            return false;
        }
        self.tiles[wy][wx].stone.remove(k);
        proof {
            assert(remove_first(items, resource) == items.remove(k as int));
            assert(self.tiles@[wy as int]@[wx as int].stone@ == items.remove(k as int));
            assert forall|y2: int| 0 <= y2 < self.tiles@.len() implies #[trigger] self@.cells[y2] == set_tile(old_self@.cells, wx as int, wy as int, remove_first(items, resource))[y2] by {
                if y2 == wy {
                    assert forall|x2: int| 0 <= x2 < self.tiles@[y2]@.len() implies #[trigger] self@.cells[y2][x2] == set_tile(old_self@.cells, wx as int, wy as int, remove_first(items, resource))[y2][x2] by {
                        if x2 == wx {
                        } else {
                            assert(self.tiles@[y2]@[x2] == old_self.tiles@[y2]@[x2]);
                        }
                    }
                    assert(self@.cells[y2] =~= set_tile(old_self@.cells, wx as int, wy as int, remove_first(items, resource))[y2]);
                }
            }
            assert(self@.cells =~= set_tile(old_self@.cells, wx as int, wy as int, remove_first(items, resource)));
            assert(self.occupants() =~= old_self.occupants()) by {
                assert forall|y2: int| 0 <= y2 < self.tiles@.len() implies #[trigger] self.occupants()[y2] == old_self.occupants()[y2] by {
                    if y2 == wy {
                        assert(self.occupants()[y2] =~= old_self.occupants()[y2]);
                    }
                }
            }
        }
        true
    }

    /// Drops an item `resource` on the tile at `position`.
    pub fn put(&mut self, position: Position, resource: Resource)
        requires
            old(self).wf(),
            old(self)@.width > 0,
            old(self)@.height > 0,
        ensures
            final(self).wf(),
            final(self).occupants() == old(self).occupants(),
            final(self)@ == map_put(old(self)@, position, resource),
    {
        proof {
            lemma_area_bounds(self@.width, self@.height);
        }
        let wx = wrap_coord(position.x as isize, self.width);
        let wy = wrap_coord(position.y as isize, self.height);
        let ghost old_self = *self;
        proof {
            assert(self@.cells[wy as int].len() == self@.width);
            self.lemma_cells(wy as int, wx as int);
        }
        let ghost items = self.tiles@[wy as int]@[wx as int].stone@;
        self.tiles[wy][wx].stone.push(resource);
        proof {
            lemma_set_tile_shape(old_self@.cells, self@.width, self@.height, wx as int, wy as int, items.push(resource));
            assert forall|y2: int| 0 <= y2 < self.tiles@.len() implies #[trigger] self@.cells[y2] == set_tile(old_self@.cells, wx as int, wy as int, items.push(resource))[y2] by {
                if y2 == wy {
                    assert(self@.cells[y2] =~= set_tile(old_self@.cells, wx as int, wy as int, items.push(resource))[y2]);
                }
            }
            assert(self@.cells =~= set_tile(old_self@.cells, wx as int, wy as int, items.push(resource)));
            assert(self.occupants() =~= old_self.occupants()) by {
                assert forall|y2: int| 0 <= y2 < self.tiles@.len() implies #[trigger] self.occupants()[y2] == old_self.occupants()[y2] by {
                    if y2 == wy {
                        assert(self.occupants()[y2] =~= old_self.occupants()[y2]);
                    }
                }
            }
        }
    }
}

impl WorldMap {
    /// The tile at `(x, y)`, coordinates taken modulo the size, to change in
    /// place.
    pub fn get_mut(&mut self, x: isize, y: isize) -> (t: &mut Tile)
        requires
            old(self).wf(),
            old(self)@.width > 0,
            old(self)@.height > 0,
        ensures
            t@ == tile_at(old(self)@, x as int, y as int),
            final(self)@.width == old(self)@.width,
            final(self)@.height == old(self)@.height,
            final(self)@.cells =~~= set_tile(
                old(self)@.cells,
                wrap(x as int, old(self)@.width) as int,
                wrap(y as int, old(self)@.height) as int,
                final(t)@,
            ),
    {
        proof {
            lemma_area_bounds(self@.width, self@.height);
        }
        let wx = wrap_coord(x, self.width);
        let wy = wrap_coord(y, self.height);
        proof {
            assert(self@.cells[wy as int].len() == self@.width);
            self.lemma_cells(wy as int, wx as int);
        }
        &mut self.tiles[wy][wx]
    }

    /// Spawns `amount` items `resource`, one at a time, each on the least
    /// filled tile (see `least_filled`); returns where they went.
    fn spawn(&mut self, resource: Resource, amount: usize) -> (positions: Vec<Position>)
        requires
            old(self).wf(),
            old(self)@.width > 0,
            old(self)@.height > 0,
        ensures
            final(self).wf(),
            final(self).occupants() == old(self).occupants(),
            final(self)@.width == old(self)@.width,
            final(self)@.height == old(self)@.height,
            (final(self)@.cells, positions@) == spawn_spec(old(self)@.cells, resource, amount as nat),
    {
        let ghost start = *self;
        let mut positions: Vec<Position> = Vec::new();
        let mut i: usize = 0;
        assert(positions@ =~= Seq::<Position>::empty());
        while i < amount
            invariant
                i <= amount,
                self.wf(),
                self@.width == start@.width,
                self@.height == start@.height,
                self@.width > 0,
                self@.height > 0,
                self.occupants() == start.occupants(),
                (self@.cells, positions@) == spawn_spec(start@.cells, resource, i as nat),
            decreases amount - i,
        {
            let ghost c = self@.cells;
            let ghost init = Pick { x: 0, y: 0, count: usize::MAX as nat };
            let mut best_x: usize = 0;
            let mut best_y: usize = 0;
            let mut best_count: usize = usize::MAX;
            let mut y: usize = 0;
            while y < self.height
                invariant
                    c == self@.cells,
                    self.wf(),
                    self@.width > 0,
                    self@.height > 0,
                    y <= self@.height,
                    best_x < self@.width,
                    best_y < self@.height,
                    grid_pick(c, 0, init) == grid_pick(
                        c,
                        y as nat,
                        Pick { x: best_x as nat, y: best_y as nat, count: best_count as nat },
                    ),
                decreases self@.height - y,
            {
                let ghost row_start = Pick { x: best_x as nat, y: best_y as nat, count: best_count as nat };
                proof {
                    assert(c[y as int].len() == self@.width);
                    assert(self.tiles@[y as int]@.len() == self@.width);
                }
                let mut x: usize = 0;
                while x < self.width
                    invariant
                        c == self@.cells,
                        self.wf(),
                        self@.width > 0,
                        self@.height > 0,
                        y < self@.height,
                        x <= self@.width,
                        c[y as int].len() == self@.width,
                        self.tiles@[y as int]@.len() == self@.width,
                        best_x < self@.width,
                        best_y < self@.height,
                        grid_pick(c, 0, init) == grid_pick(c, (y + 1) as nat, row_pick(c[y as int], y as nat, 0, row_start)),
                        row_pick(c[y as int], y as nat, 0, row_start) == row_pick(
                            c[y as int],
                            y as nat,
                            x as nat,
                            Pick { x: best_x as nat, y: best_y as nat, count: best_count as nat },
                        ),
                    decreases self@.width - x,
                {
                    proof {
                        self.lemma_cells(y as int, x as int);
                    }
                    let count = self.tiles[y][x].stone.len();
                    if count < best_count {
                        best_x = x;
                        best_y = y;
                        best_count = count;
                    }
                    x = x + 1;
                }
                y = y + 1;
            }
            let ghost p = Pick { x: best_x as nat, y: best_y as nat, count: best_count as nat };
            assert(least_filled(c) == p);
            let ghost old_self = *self;
            proof {
                assert(self@.cells[best_y as int].len() == self@.width);
                self.lemma_cells(best_y as int, best_x as int);
            }
            let ghost items = self.tiles@[best_y as int]@[best_x as int].stone@;
            self.tiles[best_y][best_x].stone.push(resource);
            proof {
                lemma_set_tile_shape(c, self@.width, self@.height, best_x as int, best_y as int, items.push(resource));
                assert forall|y2: int| 0 <= y2 < self.tiles@.len() implies #[trigger] self@.cells[y2] == set_tile(c, best_x as int, best_y as int, items.push(resource))[y2] by {
                    if y2 == best_y {
                        assert forall|x2: int| 0 <= x2 < self.tiles@[y2]@.len() implies #[trigger] self@.cells[y2][x2] == set_tile(c, best_x as int, best_y as int, items.push(resource))[y2][x2] by {
                            if x2 != best_x {
                                assert(self.tiles@[y2]@[x2] == old_self.tiles@[y2]@[x2]);
                            }
                        }
                        assert(self@.cells[y2] =~= set_tile(c, best_x as int, best_y as int, items.push(resource))[y2]);
                    }
                }
                assert(self@.cells =~= set_tile(c, best_x as int, best_y as int, items.push(resource)));
                assert(self.occupants() =~= old_self.occupants()) by {
                    assert forall|y2: int| 0 <= y2 < self.tiles@.len() implies #[trigger] self.occupants()[y2] == old_self.occupants()[y2] by {
                        if y2 == best_y {
                            assert(self.occupants()[y2] =~= old_self.occupants()[y2]);
                        }
                    }
                }
            }
            positions.push(Position { x: best_x as i8, y: best_y as i8 });
            i = i + 1;
        }
        positions
    }

    /// Brings every resource, in protocol order, up to its target by
    /// spawning the missing items; returns where each item went.
    pub fn refill(&mut self) -> (positions: Vec<Position>)
        requires
            old(self).wf(),
            old(self)@.width > 0,
            old(self)@.height > 0,
        ensures
            final(self).wf(),
            final(self).occupants() == old(self).occupants(),
            final(self)@.width == old(self)@.width,
            final(self)@.height == old(self)@.height,
            (final(self)@.cells, positions@) == refill_spec(
                old(self)@.cells,
                old(self)@.width * old(self)@.height,
                0,
            ),
            positions@.len() == deficit_from(old(self)@.cells, old(self)@.width * old(self)@.height, 0),
    {
        proof {
            lemma_refill_once(self@);
        }
        let ghost start = *self;
        let ghost area = self@.width * self@.height;
        let mut positions: Vec<Position> = Vec::new();
        let mut i: usize = 0;
        while i < 7
            invariant
                i <= 7,
                self.wf(),
                self@.width == start@.width,
                self@.height == start@.height,
                self@.width > 0,
                self@.height > 0,
                area == self@.width * self@.height,
                self.occupants() == start.occupants(),
                refill_spec(start@.cells, area, 0).0 == refill_spec(self@.cells, area, i as int).0,
                refill_spec(start@.cells, area, 0).1 == positions@ + refill_spec(self@.cells, area, i as int).1,
            decreases 7 - i,
        {
            let resource = Resource::from_index(i);
            let current = self.count(resource);
            let max = self.max_resources(resource);
            let ghost c = self@.cells;
            let ghost before = positions@;
            if current < max {
                let mut spawned = self.spawn(resource, max - current);
                positions.append(&mut spawned);
                assert(refill_spec(c, area, i as int).1 =~= spawn_spec(c, resource, (max - current) as nat).1 + refill_spec(self@.cells, area, i + 1).1);
                assert(before + refill_spec(c, area, i as int).1 =~= positions@ + refill_spec(self@.cells, area, i + 1).1);
            } else {
                assert(refill_spec(c, area, i as int).1 =~= refill_spec(self@.cells, area, i + 1).1);
            }
            i = i + 1;
        }
        assert(positions@ + refill_spec(self@.cells, area, 7).1 =~= positions@);
        positions
    }

    /// Refills the map (see `refill`).
    pub fn populate(&mut self)
        requires
            old(self).wf(),
            old(self)@.width > 0,
            old(self)@.height > 0,
        ensures
            final(self).wf(),
            final(self)@ == (MapView {
                cells: refill_spec(old(self)@.cells, old(self)@.width * old(self)@.height, 0).0,
                ..old(self)@
            }),
    {
        self.refill();
    }
}

proof fn lemma_deplete_row_len(row: Seq<Seq<Resource>>, r: Resource, budget: nat)
    ensures
        deplete_row(row, r, budget).len() == row.len(),
    decreases row.len(),
{
    if row.len() > 0 {
        lemma_deplete_row_len(row.drop_last(), r, budget);
    }
}

proof fn lemma_deplete_grid_len(cells: Seq<Seq<Seq<Resource>>>, r: Resource, budget: nat)
    ensures
        deplete_grid(cells, r, budget).len() == cells.len(),
    decreases cells.len(),
{
    if cells.len() > 0 {
        lemma_deplete_grid_len(cells.drop_last(), r, budget);
    }
}

proof fn lemma_deplete_grid_shape(cells: Seq<Seq<Seq<Resource>>>, r: Resource, budget: nat, width: nat)
    requires
        forall|y: int| 0 <= y < cells.len() ==> #[trigger] cells[y].len() == width,
    ensures
        forall|y: int| 0 <= y < cells.len() ==> #[trigger] deplete_grid(cells, r, budget)[y].len() == width,
    decreases cells.len(),
{
    lemma_deplete_grid_len(cells, r, budget);
    if cells.len() > 0 {
        lemma_deplete_grid_shape(cells.drop_last(), r, budget, width);
        lemma_deplete_grid_len(cells.drop_last(), r, budget);
        let used = min_nat(grid_count(cells.drop_last(), r), budget);
        lemma_deplete_row_len(cells.last(), r, (budget - used) as nat);
        assert forall|y: int| 0 <= y < cells.len() implies #[trigger] deplete_grid(cells, r, budget)[y].len() == width by {
            if y < cells.len() - 1 {
                assert(cells.drop_last()[y].len() == width);
            }
        }
    }
}

impl WorldMap {
    /// Removes up to `amount` items `resource` from the map, scanning the
    /// tiles row by row and each tile's items from the first; returns how
    /// many were removed.
    pub fn deplete(&mut self, resource: Resource, amount: usize) -> (removed: usize)
        requires
            old(self).wf(),
        ensures
            final(self).wf(),
            final(self).occupants() == old(self).occupants(),
            final(self)@.width == old(self)@.width,
            final(self)@.height == old(self)@.height,
            final(self)@.cells == deplete_grid(old(self)@.cells, resource, amount as nat),
            removed == min_nat(grid_count(old(self)@.cells, resource), amount as nat),
    {
        let ghost start = *self;
        let ghost orig = self@.cells;
        let mut removed: usize = 0;
        let mut y: usize = 0;
        assert(orig.take(0) =~= Seq::<Seq<Seq<Resource>>>::empty());
        assert(deplete_grid(orig.take(0), resource, amount as nat) + orig.skip(0) =~= orig);
        while y < self.tiles.len()
            invariant
                y <= orig.len(),
                orig == start@.cells,
                self.tiles@.len() == orig.len(),
                self.width == start.width,
                self.height == start.height,
                self.occupants() == start.occupants(),
                grid_shape(orig, self@.width, self@.height),
                self@.cells == deplete_grid(orig.take(y as int), resource, amount as nat) + orig.skip(y as int),
                removed == min_nat(grid_count(orig.take(y as int), resource), amount as nat),
            decreases orig.len() - y,
        {
            let ghost gp = grid_count(orig.take(y as int), resource);
            let ghost row_budget = (amount - min_nat(gp, amount as nat)) as nat;
            let ghost done = deplete_grid(orig.take(y as int), resource, amount as nat);
            proof {
                lemma_deplete_grid_len(orig.take(y as int), resource, amount as nat);
                assert(self@.cells[y as int] == orig[y as int]);
                assert(orig[y as int].len() == self@.width);
                assert(self.tiles@[y as int]@.len() == self@.width);
                assert(orig[y as int].take(0) =~= Seq::<Seq<Resource>>::empty());
                assert(deplete_row(orig[y as int].take(0), resource, row_budget) + orig[y as int].skip(0) =~= orig[y as int]);
            }
            let mut x: usize = 0;
            while x < self.width
                invariant
                    y < orig.len(),
                    x <= self@.width,
                    orig == start@.cells,
                    self.tiles@.len() == orig.len(),
                    self.width == start.width,
                    self.height == start.height,
                    self.occupants() == start.occupants(),
                    grid_shape(orig, self@.width, self@.height),
                    done.len() == y,
                    done == deplete_grid(orig.take(y as int), resource, amount as nat),
                    gp == grid_count(orig.take(y as int), resource),
                    row_budget == (amount - min_nat(gp, amount as nat)) as nat,
                    self.tiles@[y as int]@.len() == self@.width,
                    self@.cells == done + seq![deplete_row(orig[y as int].take(x as int), resource, row_budget) + orig[y as int].skip(x as int)] + orig.skip(y + 1),
                    removed == min_nat(gp + row_count(orig[y as int].take(x as int), resource), amount as nat),
                decreases self@.width - x,
            {
                let ghost rp = row_count(orig[y as int].take(x as int), resource);
                let ghost tile_budget = (row_budget - min_nat(rp, row_budget)) as nat;
                let ghost before = *self;
                proof {
                    assert(self@.cells[y as int] == deplete_row(orig[y as int].take(x as int), resource, row_budget) + orig[y as int].skip(x as int));
                    lemma_deplete_row_len(orig[y as int].take(x as int), resource, row_budget);
                    assert(self@.cells[y as int][x as int] == orig[y as int][x as int]);
                    self.lemma_cells(y as int, x as int);
                }
                let ghost items = orig[y as int][x as int];
                let n = self.tiles[y][x].stone.len();
                let mut kept: Vec<Resource> = Vec::new();
                let mut k: usize = 0;
                assert(items.take(0) =~= Seq::<Resource>::empty());
                while k < n
                    invariant
                        *self == before,
                        y < self.tiles@.len(),
                        x < self.tiles@[y as int]@.len(),
                        n == items.len(),
                        items == self.tiles@[y as int]@[x as int].stone@,
                        k <= n,
                        kept@ == drop_upto(items.take(k as int), resource, tile_budget),
                        removed == min_nat(gp + rp + seq_count(items.take(k as int), resource), amount as nat),
                        tile_budget == (row_budget - min_nat(rp, row_budget)) as nat,
                        row_budget == (amount - min_nat(gp, amount as nat)) as nat,
                    decreases n - k,
                {
                    let e = self.tiles[y][x].stone[k];
                    assert(items.take(k + 1).drop_last() =~= items.take(k as int));
                    if removed < amount && e == resource {
                        removed = removed + 1;
                    } else {
                        kept.push(e);
                    }
                    k = k + 1;
                }
                assert(items.take(n as int) =~= items);
                self.tiles[y][x].stone = kept;
                proof {
                    assert(orig[y as int].take(x + 1).drop_last() =~= orig[y as int].take(x as int));
                    let new_row = deplete_row(orig[y as int].take(x + 1), resource, row_budget) + orig[y as int].skip(x + 1);
                    lemma_deplete_row_len(orig[y as int].take(x + 1), resource, row_budget);
                    assert forall|x2: int| 0 <= x2 < self@.width implies #[trigger] self@.cells[y as int][x2] == new_row[x2] by {
                        if x2 != x {
                            assert(self.tiles@[y as int]@[x2] == before.tiles@[y as int]@[x2]);
                            assert(before@.cells[y as int][x2] == self@.cells[y as int][x2]);
                        }
                    }
                    assert(self@.cells[y as int] =~= new_row);
                    assert forall|y2: int| 0 <= y2 < orig.len() implies #[trigger] self@.cells[y2] == (done + seq![new_row] + orig.skip(y + 1))[y2] by {
                        if y2 != y {
                            assert(self.tiles@[y2] == before.tiles@[y2]);
                            assert(self@.cells[y2] == before@.cells[y2]);
                            let old_row = deplete_row(orig[y as int].take(x as int), resource, row_budget) + orig[y as int].skip(x as int);
                            assert(before@.cells == done + seq![old_row] + orig.skip(y + 1));
                            if y2 < y {
                                assert((done + seq![new_row] + orig.skip(y + 1))[y2] == done[y2]);
                                assert((done + seq![old_row] + orig.skip(y + 1))[y2] == done[y2]);
                            } else {
                                assert((done + seq![new_row] + orig.skip(y + 1))[y2] == orig.skip(y + 1)[y2 - y - 1]);
                                assert((done + seq![old_row] + orig.skip(y + 1))[y2] == orig.skip(y + 1)[y2 - y - 1]);
                            }
                        }
                    }
                    assert(self@.cells =~= done + seq![new_row] + orig.skip(y + 1));
                    assert(self.occupants() =~= before.occupants()) by {
                        assert forall|y2: int| 0 <= y2 < self.tiles@.len() implies #[trigger] self.occupants()[y2] == before.occupants()[y2] by {
                            if y2 == y {
                                assert(self.occupants()[y2] =~= before.occupants()[y2]);
                            }
                        }
                    }
                }
                x = x + 1;
            }
            proof {
                assert(orig[y as int].take(self@.width as int) =~= orig[y as int]);
                assert(orig[y as int].skip(self@.width as int) =~= Seq::<Seq<Resource>>::empty());
                assert(orig.take(y + 1).drop_last() =~= orig.take(y as int));
                assert(self@.cells =~= deplete_grid(orig.take(y + 1), resource, amount as nat) + orig.skip(y + 1));
            }
            y = y + 1;
        }
        proof {
            assert(orig.take(orig.len() as int) =~= orig);
            assert(self@.cells =~= deplete_grid(orig, resource, amount as nat));
            lemma_deplete_grid_shape(orig, resource, amount as nat, self@.width);
        }
        removed
    }
}

proof fn lemma_seq_count_push(s: Seq<Resource>, e: Resource, r: Resource)
    ensures
        seq_count(s.push(e), r) == seq_count(s, r) + if e == r {
            1nat
        } else {
            0nat
        },
{
    assert(s.push(e).drop_last() =~= s);
}

proof fn lemma_seq_count_concat(a: Seq<Resource>, b: Seq<Resource>, r: Resource)
    ensures
        seq_count(a + b, r) == seq_count(a, r) + seq_count(b, r),
    decreases b.len(),
{
    if b.len() > 0 {
        lemma_seq_count_concat(a, b.drop_last(), r);
        assert((a + b).drop_last() =~= a + b.drop_last());
    } else {
        assert(a + b =~= a);
    }
}

proof fn lemma_first_index_found(s: Seq<Resource>, r: Resource)
    ensures
        match first_index(s, r) {
            Some(i) => 0 <= i < s.len() && s[i] == r,
            None => true,
        },
    decreases s.len(),
{
    if s.len() > 0 && s[0] != r {
        lemma_first_index_found(s.drop_first(), r);
    }
}

/// Removing the first `r` of a tile takes one `r` away, when there is one,
/// and leaves the count of every other resource as it was.
proof fn lemma_remove_first_count(s: Seq<Resource>, r: Resource, r2: Resource)
    ensures
        seq_count(remove_first(s, r), r2) + (if r2 == r && first_index(s, r) is Some {
            1nat
        } else {
            0nat
        }) == seq_count(s, r2),
{
    lemma_first_index_found(s, r);
    match first_index(s, r) {
        Some(i) => {
            let a = s.take(i);
            let b = s.skip(i + 1);
            let one = seq![s[i]];
            assert(s.remove(i) =~= a + b);
            assert(s =~= (a + one) + b);
            lemma_seq_count_concat(a, b, r2);
            lemma_seq_count_concat(a + one, b, r2);
            lemma_seq_count_concat(a, one, r2);
            assert(one.drop_last() =~= Seq::<Resource>::empty());
            assert(seq_count(Seq::<Resource>::empty(), r2) == 0);
            assert(seq_count(one, r2) == if s[i] == r2 {
                1nat
            } else {
                0nat
            });
        },
        None => {},
    }
}

/// A sequence without any `r` counts none.
proof fn lemma_none_counts_zero(s: Seq<Resource>, r: Resource)
    requires
        forall|i: int| 0 <= i < s.len() ==> s[i] != r,
    ensures
        seq_count(s, r) == 0,
    decreases s.len(),
{
    if s.len() > 0 {
        lemma_none_counts_zero(s.drop_last(), r);
    }
}

/// Where no `r` is found, there is none.
proof fn lemma_first_index_none(s: Seq<Resource>, r: Resource)
    requires
        first_index(s, r) is None,
    ensures
        forall|i: int| 0 <= i < s.len() ==> s[i] != r,
    decreases s.len(),
{
    if s.len() > 0 {
        lemma_first_index_none(s.drop_first(), r);
        assert forall|i: int| 0 <= i < s.len() implies s[i] != r by {
            if i > 0 {
                assert(s[i] == s.drop_first()[i - 1]);
            }
        }
    }
}

/// Adding an item `e` adds one to its count and leaves the others.
pub proof fn lemma_seq_count_push_pub(s: Seq<Resource>, e: Resource, r: Resource)
    ensures
        seq_count(s.push(e), r) == seq_count(s, r) + if e == r {
            1nat
        } else {
            0nat
        },
{
    lemma_seq_count_push(s, e, r);
}

/// A tile has a first `r` exactly when it holds at least one `r`.
pub proof fn lemma_first_index_count(s: Seq<Resource>, r: Resource)
    ensures
        (first_index(s, r) is Some) == (seq_count(s, r) > 0),
{
    if first_index(s, r) is None {
        lemma_first_index_none(s, r);
        lemma_none_counts_zero(s, r);
    } else {
        lemma_remove_first_count(s, r, r);
    }
}

/// Picking up an item `r` at `p` changes only the tile of `p`, which loses
/// its first `r`: one `r` fewer when it held any, the other resources as
/// they were.
pub proof fn lemma_map_take_tile(m: MapView, p: Position, r: Resource)
    requires
        grid_shape(m.cells, m.width, m.height),
        m.width > 0,
        m.height > 0,
    ensures
        grid_shape(map_take(m, p, r).cells, m.width, m.height),
        map_take(m, p, r).width == m.width,
        map_take(m, p, r).height == m.height,
        tile_at(map_take(m, p, r), p.x as int, p.y as int) == remove_first(
            tile_at(m, p.x as int, p.y as int),
            r,
        ),
        forall|r2: Resource|
            #![trigger seq_count(remove_first(tile_at(m, p.x as int, p.y as int), r), r2)]
            seq_count(remove_first(tile_at(m, p.x as int, p.y as int), r), r2) + (if r2 == r && seq_count(
                tile_at(m, p.x as int, p.y as int),
                r,
            ) > 0 {
                1nat
            } else {
                0nat
            }) == seq_count(tile_at(m, p.x as int, p.y as int), r2),
{
    let x = wrap(p.x as int, m.width) as int;
    let y = wrap(p.y as int, m.height) as int;
    let t = tile_at(m, p.x as int, p.y as int);
    lemma_set_tile_shape(m.cells, m.width, m.height, x, y, remove_first(t, r));
    if first_index(t, r) is None {
        lemma_first_index_none(t, r);
        lemma_none_counts_zero(t, r);
    }
    assert forall|r2: Resource|
        #![trigger seq_count(remove_first(t, r), r2)]
        seq_count(remove_first(t, r), r2) + (if r2 == r && seq_count(t, r) > 0 {
            1nat
        } else {
            0nat
        }) == seq_count(t, r2) by {
        lemma_remove_first_count(t, r, r2);
    }
}

/// Picking up an item `r` at `p` takes one `r` off the map when the tile
/// holds one, and leaves the count of every other resource as it was.
pub proof fn lemma_map_take_counts(m: MapView, p: Position, r: Resource, r2: Resource)
    requires
        grid_shape(m.cells, m.width, m.height),
        m.width > 0,
        m.height > 0,
    ensures
        grid_count(map_take(m, p, r).cells, r2) + (if r2 == r && first_index(
            tile_at(m, p.x as int, p.y as int),
            r,
        ) is Some {
            1nat
        } else {
            0nat
        }) == grid_count(m.cells, r2),
{
    let x = wrap(p.x as int, m.width) as int;
    let y = wrap(p.y as int, m.height) as int;
    let t = tile_at(m, p.x as int, p.y as int);
    let nt = remove_first(t, r);
    lemma_row_count_update(m.cells[y], x, nt, r2);
    lemma_grid_count_update(m.cells, y, m.cells[y].update(x, nt), r2);
    lemma_remove_first_count(t, r, r2);
}

/// Dropping an item `r` at `p` adds one `r` to the map and leaves the
/// count of every other resource as it was.
pub proof fn lemma_map_put_counts(m: MapView, p: Position, r: Resource, r2: Resource)
    requires
        grid_shape(m.cells, m.width, m.height),
        m.width > 0,
        m.height > 0,
    ensures
        grid_count(map_put(m, p, r).cells, r2) == grid_count(m.cells, r2) + if r2 == r {
            1nat
        } else {
            0nat
        },
{
    let x = wrap(p.x as int, m.width) as int;
    let y = wrap(p.y as int, m.height) as int;
    let t = tile_at(m, p.x as int, p.y as int);
    let nt = t.push(r);
    lemma_row_count_update(m.cells[y], x, nt, r2);
    lemma_grid_count_update(m.cells, y, m.cells[y].update(x, nt), r2);
    lemma_seq_count_push(t, r, r2);
}

proof fn lemma_row_count_update(row: Seq<Seq<Resource>>, x: int, t: Seq<Resource>, r: Resource)
    requires
        0 <= x < row.len(),
    ensures
        row_count(row.update(x, t), r) + seq_count(row[x], r) == row_count(row, r) + seq_count(t, r),
    decreases row.len(),
{
    if x < row.len() - 1 {
        lemma_row_count_update(row.drop_last(), x, t, r);
        assert(row.update(x, t).drop_last() =~= row.drop_last().update(x, t));
    } else {
        assert(row.update(x, t).drop_last() =~= row.drop_last());
    }
}

proof fn lemma_grid_count_update(
    cells: Seq<Seq<Seq<Resource>>>,
    y: int,
    row: Seq<Seq<Resource>>,
    r: Resource,
)
    requires
        0 <= y < cells.len(),
    ensures
        grid_count(cells.update(y, row), r) + row_count(cells[y], r) == grid_count(cells, r)
            + row_count(row, r),
    decreases cells.len(),
{
    if y < cells.len() - 1 {
        lemma_grid_count_update(cells.drop_last(), y, row, r);
        assert(cells.update(y, row).drop_last() =~= cells.drop_last().update(y, row));
    } else {
        assert(cells.update(y, row).drop_last() =~= cells.drop_last());
    }
}

proof fn lemma_row_pick_valid(row: Seq<Seq<Resource>>, y: nat, x: nat, best: Pick, height: nat)
    requires
        best.x < row.len(),
        best.y < height,
        y < height,
    ensures
        row_pick(row, y, x, best).x < row.len(),
        row_pick(row, y, x, best).y < height,
    decreases row.len() - x,
{
    if x < row.len() {
        let next = if row[x as int].len() < best.count {
            Pick { x, y, count: row[x as int].len() }
        } else {
            best
        };
        lemma_row_pick_valid(row, y, x + 1, next, height);
    }
}

proof fn lemma_grid_pick_valid(
    cells: Seq<Seq<Seq<Resource>>>,
    y: nat,
    best: Pick,
    width: nat,
    height: nat,
)
    requires
        grid_shape(cells, width, height),
        best.x < width,
        best.y < height,
    ensures
        grid_pick(cells, y, best).x < width,
        grid_pick(cells, y, best).y < height,
    decreases cells.len() - y,
{
    if y < cells.len() {
        lemma_row_pick_valid(cells[y as int], y, 0, best, height);
        lemma_grid_pick_valid(cells, y + 1, row_pick(cells[y as int], y, 0, best), width, height);
    }
}

/// Spawning `n` items `r` on a well-shaped, non-empty grid keeps its shape,
/// adds exactly `n` items `r`, and leaves the count of every other resource
/// as it was.
pub proof fn lemma_spawn_counts(
    cells: Seq<Seq<Seq<Resource>>>,
    r: Resource,
    n: nat,
    width: nat,
    height: nat,
)
    requires
        grid_shape(cells, width, height),
        width > 0,
        height > 0,
    ensures
        grid_shape(spawn_spec(cells, r, n).0, width, height),
        spawn_spec(cells, r, n).1.len() == n,
        forall|r2: Resource|
            #[trigger] grid_count(spawn_spec(cells, r, n).0, r2) == grid_count(cells, r2) + if r2 == r {
                n
            } else {
                0nat
            },
    decreases n,
{
    if n > 0 {
        lemma_spawn_counts(cells, r, (n - 1) as nat, width, height);
        let c = spawn_spec(cells, r, (n - 1) as nat).0;
        let p = least_filled(c);
        lemma_grid_pick_valid(c, 0, Pick { x: 0, y: 0, count: usize::MAX as nat }, width, height);
        let items = c[p.y as int][p.x as int].push(r);
        lemma_set_tile_shape(c, width, height, p.x as int, p.y as int, items);
        assert forall|r2: Resource|
            #[trigger] grid_count(spawn_spec(cells, r, n).0, r2) == grid_count(cells, r2) + if r2 == r {
                n
            } else {
                0nat
            } by {
            lemma_seq_count_push(c[p.y as int][p.x as int], r, r2);
            lemma_row_count_update(c[p.y as int], p.x as int, items, r2);
            lemma_grid_count_update(c, p.y as int, c[p.y as int].update(p.x as int, items), r2);
        }
    }
}

/// Refilling from resource `i` on (see `refill_spec`) keeps a well-shaped,
/// non-empty grid's shape; each resource from `i` on ends with the larger
/// of its count and its target, and each resource before `i` keeps its
/// count.
pub proof fn lemma_refill_spec_counts(cells: Seq<Seq<Seq<Resource>>>, area: nat, i: int, width: nat, height: nat)
    requires
        grid_shape(cells, width, height),
        width > 0,
        height > 0,
        0 <= i <= 7,
    ensures
        grid_shape(refill_spec(cells, area, i).0, width, height),
        forall|j: int|
            0 <= j < i ==> #[trigger] grid_count(refill_spec(cells, area, i).0, resource_at(j))
                == grid_count(cells, resource_at(j)),
        forall|j: int|
            i <= j < 7 ==> #[trigger] grid_count(refill_spec(cells, area, i).0, resource_at(j))
                == if grid_count(cells, resource_at(j)) < spec_max_for(area, resource_at(j)) {
                spec_max_for(area, resource_at(j))
            } else {
                grid_count(cells, resource_at(j))
            },
    decreases 7 - i,
{
    if i < 7 {
        let r = resource_at(i);
        let current = grid_count(cells, r);
        let max = spec_max_for(area, r);
        let c = if current < max {
            spawn_spec(cells, r, (max - current) as nat).0
        } else {
            cells
        };
        if current < max {
            lemma_spawn_counts(cells, r, (max - current) as nat, width, height);
        }
        lemma_refill_spec_counts(c, area, i + 1, width, height);
        assert forall|j: int| 0 <= j < 7 && j != i implies #[trigger] grid_count(c, resource_at(j)) == grid_count(cells, resource_at(j)) by {
            assert(resource_at(j) != r);
        }
    }
}

/// How many items the resources from position `i` on lack to reach their
/// targets on a map of `area` tiles.
pub open spec fn deficit_from(cells: Seq<Seq<Seq<Resource>>>, area: nat, i: int) -> nat
    decreases 7 - i,
{
    if i < 0 || i >= 7 {
        0
    } else {
        let current = grid_count(cells, resource_at(i));
        let max = spec_max_for(area, resource_at(i));
        (if current < max {
            (max - current) as nat
        } else {
            0nat
        }) + deficit_from(cells, area, i + 1)
    }
}

/// The deficit depends only on the counts of the resources it covers.
proof fn lemma_deficit_same(
    c1: Seq<Seq<Seq<Resource>>>,
    c2: Seq<Seq<Seq<Resource>>>,
    area: nat,
    i: int,
)
    requires
        0 <= i <= 7,
        forall|j: int| i <= j < 7 ==> #[trigger] grid_count(c1, resource_at(j)) == grid_count(c2, resource_at(j)),
    ensures
        deficit_from(c1, area, i) == deficit_from(c2, area, i),
    decreases 7 - i,
{
    if i < 7 {
        assert(grid_count(c1, resource_at(i)) == grid_count(c2, resource_at(i)));
        lemma_deficit_same(c1, c2, area, i + 1);
    }
}

/// Refilling from resource `i` on places one item per missing item.
proof fn lemma_refill_positions_len(
    cells: Seq<Seq<Seq<Resource>>>,
    area: nat,
    i: int,
    width: nat,
    height: nat,
)
    requires
        grid_shape(cells, width, height),
        width > 0,
        height > 0,
        0 <= i <= 7,
    ensures
        refill_spec(cells, area, i).1.len() == deficit_from(cells, area, i),
    decreases 7 - i,
{
    if i < 7 {
        let r = resource_at(i);
        let current = grid_count(cells, r);
        let max = spec_max_for(area, r);
        let c = if current < max {
            spawn_spec(cells, r, (max - current) as nat).0
        } else {
            cells
        };
        if current < max {
            lemma_spawn_counts(cells, r, (max - current) as nat, width, height);
        }
        lemma_refill_positions_len(c, area, i + 1, width, height);
        assert forall|j: int| i + 1 <= j < 7 implies #[trigger] grid_count(c, resource_at(j))
            == grid_count(cells, resource_at(j)) by {
            assert(resource_at(j) != r);
        }
        lemma_deficit_same(c, cells, area, i + 1);
    }
}

/// Refilling a grid where every resource from `i` on is at its target or
/// above changes nothing and places nothing.
proof fn lemma_refill_full(cells: Seq<Seq<Seq<Resource>>>, area: nat, i: int)
    requires
        0 <= i <= 7,
        forall|j: int|
            i <= j < 7 ==> #[trigger] grid_count(cells, resource_at(j)) >= spec_max_for(area, resource_at(j)),
    ensures
        refill_spec(cells, area, i) == (cells, Seq::<Position>::empty()),
    decreases 7 - i,
{
    if i < 7 {
        assert(grid_count(cells, resource_at(i)) >= spec_max_for(area, resource_at(i)));
        lemma_refill_full(cells, area, i + 1);
        assert(Seq::<Position>::empty() + Seq::<Position>::empty() =~= Seq::<Position>::empty());
    }
}

/// A refill places exactly one item per missing item, and a second refill
/// right after it changes nothing and places nothing.
pub proof fn lemma_refill_once(m: MapView)
    requires
        grid_shape(m.cells, m.width, m.height),
        m.width > 0,
        m.height > 0,
    ensures
        refill_spec(m.cells, m.width * m.height, 0).1.len() == deficit_from(m.cells, m.width * m.height, 0),
        refill_spec(refill_spec(m.cells, m.width * m.height, 0).0, m.width * m.height, 0) == (
            refill_spec(m.cells, m.width * m.height, 0).0,
            Seq::<Position>::empty(),
        ),
{
    let area = m.width * m.height;
    lemma_refill_positions_len(m.cells, area, 0, m.width, m.height);
    lemma_refill_spec_counts(m.cells, area, 0, m.width, m.height);
    let c = refill_spec(m.cells, area, 0).0;
    assert forall|j: int| 0 <= j < 7 implies #[trigger] grid_count(c, resource_at(j)) >= spec_max_for(
        area,
        resource_at(j),
    ) by {
        assert(grid_count(c, resource_at(j)) == if grid_count(m.cells, resource_at(j)) < spec_max_for(
            area,
            resource_at(j),
        ) {
            spec_max_for(area, resource_at(j))
        } else {
            grid_count(m.cells, resource_at(j))
        });
    }
    lemma_refill_full(c, area, 0);
}

/// Refilling a map brings every resource up to its target and never beyond
/// the larger of its previous count and its target.
pub proof fn lemma_refill_counts(m: MapView)
    requires
        grid_shape(m.cells, m.width, m.height),
        m.width > 0,
        m.height > 0,
    ensures
        grid_shape(refill_spec(m.cells, m.width * m.height, 0).0, m.width, m.height),
        forall|j: int|
            0 <= j < 7 ==> #[trigger] grid_count(
                refill_spec(m.cells, m.width * m.height, 0).0,
                resource_at(j),
            ) == if grid_count(m.cells, resource_at(j)) < spec_max_for(
                m.width * m.height,
                resource_at(j),
            ) {
                spec_max_for(m.width * m.height, resource_at(j))
            } else {
                grid_count(m.cells, resource_at(j))
            },
{
    lemma_refill_spec_counts(m.cells, m.width * m.height, 0, m.width, m.height);
}

proof fn lemma_drop_upto_counts(s: Seq<Resource>, r: Resource, budget: nat, r2: Resource)
    ensures
        seq_count(drop_upto(s, r, budget), r2) == if r2 == r {
            (seq_count(s, r) - min_nat(seq_count(s, r), budget)) as nat
        } else {
            seq_count(s, r2)
        },
    decreases s.len(),
{
    if s.len() > 0 {
        lemma_drop_upto_counts(s.drop_last(), r, budget, r2);
        let prev = drop_upto(s.drop_last(), r, budget);
        lemma_seq_count_push(prev, s.last(), r2);
    }
}

proof fn lemma_deplete_row_counts(row: Seq<Seq<Resource>>, r: Resource, budget: nat, r2: Resource)
    ensures
        row_count(deplete_row(row, r, budget), r2) == if r2 == r {
            (row_count(row, r) - min_nat(row_count(row, r), budget)) as nat
        } else {
            row_count(row, r2)
        },
    decreases row.len(),
{
    if row.len() > 0 {
        lemma_deplete_row_counts(row.drop_last(), r, budget, r2);
        let used = min_nat(row_count(row.drop_last(), r), budget);
        lemma_drop_upto_counts(row.last(), r, (budget - used) as nat, r2);
        let d = deplete_row(row, r, budget);
        assert(d.drop_last() =~= deplete_row(row.drop_last(), r, budget));
    }
}

/// Depleting a grid removes `min(count, budget)` items `r` and leaves the
/// count of every other resource as it was.
pub proof fn lemma_deplete_counts(cells: Seq<Seq<Seq<Resource>>>, r: Resource, budget: nat, r2: Resource)
    ensures
        grid_count(deplete_grid(cells, r, budget), r2) == if r2 == r {
            (grid_count(cells, r) - min_nat(grid_count(cells, r), budget)) as nat
        } else {
            grid_count(cells, r2)
        },
    decreases cells.len(),
{
    if cells.len() > 0 {
        lemma_deplete_counts(cells.drop_last(), r, budget, r2);
        let used = min_nat(grid_count(cells.drop_last(), r), budget);
        lemma_deplete_row_counts(cells.last(), r, (budget - used) as nat, r2);
        let d = deplete_grid(cells, r, budget);
        assert(d.drop_last() =~= deplete_grid(cells.drop_last(), r, budget));
    }
}

/// An empty grid holds nothing.
pub proof fn lemma_empty_grid_count(width: nat, height: nat, r: Resource)
    ensures
        grid_count(empty_grid(width, height), r) == 0,
        grid_shape(empty_grid(width, height), width, height),
    decreases height,
{
    if height > 0 {
        lemma_empty_grid_count(width, (height - 1) as nat, r);
        assert(empty_grid(width, height).drop_last() =~= empty_grid(width, (height - 1) as nat));
        lemma_empty_row_count(width, r);
    }
}

/// An empty row holds nothing.
proof fn lemma_empty_row_count(width: nat, r: Resource)
    ensures
        row_count(Seq::new(width, |x: int| Seq::<Resource>::empty()), r) == 0,
    decreases width,
{
    if width > 0 {
        lemma_empty_row_count((width - 1) as nat, r);
        assert(Seq::new(width, |x: int| Seq::<Resource>::empty()).drop_last() =~= Seq::new(
            (width - 1) as nat,
            |x: int| Seq::<Resource>::empty(),
        ));
        assert(seq_count(Seq::<Resource>::empty(), r) == 0);
    }
}

/// The map is a torus: a tile is found again one width to the right and
/// one height further down.
pub proof fn lemma_tiles_wrap(m: MapView, x: int, y: int)
    requires
        m.width > 0,
        m.height > 0,
    ensures
        tile_at(m, x + m.width, y) == tile_at(m, x, y),
        tile_at(m, x, y + m.height) == tile_at(m, x, y),
{
    vstd::arithmetic::div_mod::lemma_mod_add_multiples_vanish(x, m.width as int);
    vstd::arithmetic::div_mod::lemma_mod_add_multiples_vanish(y, m.height as int);
    assert(x + m.width == m.width as int + x);
    assert(y + m.height == m.height as int + y);
}

/// A coordinate already in `0..m` is its own wrap.
pub proof fn lemma_wrap_small(v: int, m: nat)
    requires
        0 <= v < m,
    ensures
        wrap(v, m) == v,
{
    vstd::arithmetic::div_mod::lemma_small_mod(v as nat, m);
}

/// A coordinate taken modulo a size.
pub fn wrap_coord(v: isize, m: usize) -> (r: usize)
    requires
        0 < m <= isize::MAX,
    ensures
        r == wrap(v as int, m as nat),
        r < m,
{
    let mi = m as isize;
    match v.checked_rem_euclid(mi) {
        Some(r) => r as usize,
        None => 0,
    }
}

pub proof fn lemma_area_bounds(width: nat, height: nat)
    requires
        width * height <= isize::MAX,
        width > 0,
        height > 0,
    ensures
        width <= isize::MAX,
        height <= isize::MAX,
{
    assert(width <= width * height) by (nonlinear_arith)
        requires
            height > 0,
    ;
    assert(height <= width * height) by (nonlinear_arith)
        requires
            width > 0,
    ;
}

} // verus!
