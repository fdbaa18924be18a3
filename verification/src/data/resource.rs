use vstd::prelude::*;

verus! {

/// Whether a packet comes from a client or goes to one.
#[derive(Clone, Copy, Debug, PartialEq, Eq, Structural)]
pub enum PacketDirection {
    Incoming,
    Outgoing,
}

/// The way a player faces on the map.
#[derive(Clone, Copy, PartialEq, Eq, Debug, Structural)]
pub enum Direction {
    Est,
    South,
    North,
    West,
    NoDirection,
}

/// A quarter turn to the right, to the left, or no turn.
#[derive(Clone, Copy, PartialEq, Eq, Debug, Structural)]
pub enum Rotation {
    Right,
    Left,
    NoRotation,
}

/// The seven kinds of item that lie on tiles and fill inventories.
#[derive(Clone, Copy, Debug, PartialEq, Eq, Hash, Structural)]
pub enum Resource {
    Food,
    Linemate,
    Deraumere,
    Sibur,
    Mendiane,
    Phiras,
    Thystame,
}

/// How many kinds of resource there are.
pub const RESOURCE_KINDS: usize = 7;

/// The resource kinds in their protocol order.
pub open spec fn resource_at(i: int) -> Resource {
    if i == 0 {
        Resource::Food
    } else if i == 1 {
        Resource::Linemate
    } else if i == 2 {
        Resource::Deraumere
    } else if i == 3 {
        Resource::Sibur
    } else if i == 4 {
        Resource::Mendiane
    } else if i == 5 {
        Resource::Phiras
    } else {
        Resource::Thystame
    }
}

/// The first resource, from position `i` of the protocol order on, whose
/// name is `name`.
pub open spec fn resource_named_from(name: Seq<char>, i: int) -> Option<Resource>
    decreases 7 - i,
{
    if i < 0 || i >= 7 {
        None
    } else if resource_at(i).spec_name() == name {
        Some(resource_at(i))
    } else {
        resource_named_from(name, i + 1)
    }
}

/// The resource whose name is `name`, if any.
pub open spec fn resource_named(name: Seq<char>) -> Option<Resource> {
    resource_named_from(name, 0)
}

/// The target number of items of `resource` on a map of `area` tiles: the
/// resource's density percentage of the area, rounded down, and at least one.
pub open spec fn spec_max_for(area: nat, resource: Resource) -> nat {
    let n = area * resource.density_percent() / 100;
    if n < 1 {
        1
    } else {
        n
    }
}

impl Resource {
    /// The position of the resource in the protocol order (food first,
    /// thystame last).
    pub open spec fn slot(self) -> nat {
        match self {
            Resource::Food => 0,
            Resource::Linemate => 1,
            Resource::Deraumere => 2,
            Resource::Sibur => 3,
            Resource::Mendiane => 4,
            Resource::Phiras => 5,
            Resource::Thystame => 6,
        }
    }

    /// The resource's name in the protocol.
    pub open spec fn spec_name(self) -> Seq<char> {
        match self {
            Resource::Food => "food"@,
            Resource::Linemate => "linemate"@,
            Resource::Deraumere => "deraumere"@,
            Resource::Sibur => "sibur"@,
            Resource::Mendiane => "mendiane"@,
            Resource::Phiras => "phiras"@,
            Resource::Thystame => "thystame"@,
        }
    }

    /// The share of the map's area, in percent, that the resource fills.
    pub open spec fn density_percent(self) -> nat {
        match self {
            Resource::Food => 50,
            Resource::Linemate => 30,
            Resource::Deraumere => 15,
            Resource::Sibur => 10,
            Resource::Mendiane => 10,
            Resource::Phiras => 8,
            Resource::Thystame => 5,
        }
    }

    /// The position of the resource in the protocol order.
    pub fn index(self) -> (i: usize)
        ensures
            i == self.slot(),
            i < 7,
            resource_at(i as int) == self,
    {
        match self {
            Resource::Food => 0,
            Resource::Linemate => 1,
            Resource::Deraumere => 2,
            Resource::Sibur => 3,
            Resource::Mendiane => 4,
            Resource::Phiras => 5,
            Resource::Thystame => 6,
        }
    }

    /// The resource at position `i` of the protocol order.
    pub fn from_index(i: usize) -> (r: Resource)
        requires
            i < 7,
        ensures
            r == resource_at(i as int),
            r.slot() == i,
    {
        if i == 0 {
            Resource::Food
        } else if i == 1 {
            Resource::Linemate
        } else if i == 2 {
            Resource::Deraumere
        } else if i == 3 {
            Resource::Sibur
        } else if i == 4 {
            Resource::Mendiane
        } else if i == 5 {
            Resource::Phiras
        } else {
            Resource::Thystame
        }
    }

    /// The resource's name in the protocol.
    pub fn name(self) -> (r: &'static str)
        ensures
            r@ == self.spec_name(),
    {
        match self {
            Resource::Food => "food",
            Resource::Linemate => "linemate",
            Resource::Deraumere => "deraumere",
            Resource::Sibur => "sibur",
            Resource::Mendiane => "mendiane",
            Resource::Phiras => "phiras",
            Resource::Thystame => "thystame",
        }
    }

    /// The share of the map's area, in percent, that the resource fills.
    pub fn get_density(&self) -> (p: usize)
        ensures
            p == self.density_percent(),
    {
        match self {
            Resource::Food => 50,
            Resource::Linemate => 30,
            Resource::Deraumere => 15,
            Resource::Sibur => 10,
            Resource::Mendiane => 10,
            Resource::Phiras => 8,
            Resource::Thystame => 5,
        }
    }
}

/// The target number of items of `resource` on a map of `area` tiles.
pub fn max_for(area: usize, resource: Resource) -> (n: usize)
    ensures
        n == spec_max_for(area as nat, resource),
{
    let p = resource.get_density();
    // area * p / 100, computed without an intermediate product that could overflow
    let n = (area / 100) * p + (area % 100) * p / 100;
    proof {
        let q = area / 100;
        let r = area % 100;
        assert(area == q * 100 + r);
        assert(area * p == q * p * 100 + r * p) by (nonlinear_arith)
            requires
                area == q * 100 + r,
        ;
        assert((q * p * 100 + r * p) / 100 == q * p + (r * p) / 100) by (nonlinear_arith)
            requires
                0 <= r * p,
        ;
        assert(q * p <= area) by (nonlinear_arith)
            requires
                q == area / 100,
                p <= 50,
        ;
    }
    if n < 1 {
        1
    } else {
        n
    }
}

} // verus!
