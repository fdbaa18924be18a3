use vstd::prelude::*;

use crate::action::{action_of, Action, ActionView, EActionView};
use crate::text::{starts_with, str_eq, suffix_string};

use super::map::Position;
use super::resource::{resource_named, resource_named_from, Resource};

verus! {

/// What a command line sent by a player's client means: the action it
/// queues, or the error text.
pub open spec fn parse_spec(buf: Seq<char>) -> Result<ActionView, Seq<char>> {
    if buf.len() == 0 {
        Err("Empty packet"@)
    } else if buf == "Forward"@ {
        Ok(action_of(7, EActionView::Forward))
    } else if buf == "Right"@ {
        Ok(action_of(7, EActionView::Right))
    } else if buf == "Left"@ {
        Ok(action_of(7, EActionView::Left))
    } else if buf == "Look"@ {
        Ok(action_of(7, EActionView::Look))
    } else if buf == "Inventory"@ {
        Ok(action_of(1, EActionView::Inventory))
    } else if buf == "Fork"@ {
        Ok(action_of(42, EActionView::Fork))
    } else if buf == "Eject"@ {
        Ok(action_of(7, EActionView::Eject))
    } else if buf == "Incantation"@ {
        Ok(
            action_of(
                300,
                EActionView::Incantation {
                    position: Position { x: 0, y: 0 },
                    level: 0,
                    participants: Seq::empty(),
                },
            ),
        )
    } else if buf.len() > 10 && buf.take(10) == "Broadcast "@ {
        Ok(action_of(7, EActionView::Broadcast(buf.skip(10))))
    } else if buf.len() >= 5 && buf.take(5) == "Take "@ {
        match resource_named(buf.skip(5)) {
            Some(r) => Ok(action_of(7, EActionView::Take(r))),
            None => Err("KO"@),
        }
    } else if buf.len() >= 4 && buf.take(4) == "Set "@ {
        match resource_named(buf.skip(4)) {
            Some(r) => Ok(action_of(7, EActionView::Place(r))),
            None => Err("KO"@),
        }
    } else {
        Err("KO"@)
    }
}

/// Turns a command line into the action it queues.
pub fn parse(buf: &str) -> (r: Result<Action, String>)
    ensures
        match (r, parse_spec(buf@)) {
            (Ok(a), Ok(v)) => a@ == v,
            (Err(e), Err(v)) => e@ == v,
            _ => false,
        },
{
    proof {
        reveal_strlit("Broadcast ");
        reveal_strlit("Take ");
        reveal_strlit("Set ");
    }
    if buf.unicode_len() == 0 {
        return Err(String::from_str("Empty packet"));
    }
    if str_eq(buf, "Forward") {
        Ok(Action::new_forward())
    } else if str_eq(buf, "Right") {
        Ok(Action::new_right())
    } else if str_eq(buf, "Left") {
        Ok(Action::new_left())
    } else if str_eq(buf, "Look") {
        Ok(Action::new_look())
    } else if str_eq(buf, "Inventory") {
        Ok(Action::new_inventory())
    } else if str_eq(buf, "Fork") {
        Ok(Action::new_fork())
    } else if str_eq(buf, "Eject") {
        Ok(Action::new_eject())
    } else if str_eq(buf, "Incantation") {
        let empty: Vec<u8> = Vec::new();
        let a = Action::new_incantation(Position { x: 0, y: 0 }, 0, empty);
        assert(empty@ =~= Seq::<u8>::empty());
        Ok(a)
    } else if starts_with(buf, "Broadcast ") && buf.unicode_len() > 10 {
        Ok(Action::new_broadcast(suffix_string(buf, 10)))
    } else if starts_with(buf, "Take ") {
        let name = suffix_string(buf, 5);
        match parse_resource(name.as_str()) {
            Ok(r) => Ok(Action::new_take(r)),
            Err(e) => Err(e),
        }
    } else if starts_with(buf, "Set ") {
        let name = suffix_string(buf, 4);
        match parse_resource(name.as_str()) {
            Ok(r) => Ok(Action::new_set(r)),
            Err(e) => Err(e),
        }
    } else {
        Err(String::from_str("KO"))
    }
}

/// The resource with the given protocol name.
pub fn parse_resource(name: &str) -> (r: Result<Resource, String>)
    ensures
        match r {
            Ok(res) => resource_named(name@) == Some(res),
            Err(e) => resource_named(name@) is None && e@ == "KO"@,
        },
{
    let mut i: usize = 0;
    while i < 7
        invariant
            i <= 7,
            resource_named(name@) == resource_named_from(name@, i as int),
        decreases 7 - i,
    {
        let res = Resource::from_index(i);
        if str_eq(res.name(), name) {
            return Ok(res);
        }
        i = i + 1;
    }
    Err(String::from_str("KO"))
}


/// Every resource's name is read back as that resource.
pub proof fn lemma_name_round_trip(r: Resource)
    ensures
        resource_named(r.spec_name()) == Some(r),
{
    reveal_strlit("food");
    reveal_strlit("linemate");
    reveal_strlit("deraumere");
    reveal_strlit("sibur");
    reveal_strlit("mendiane");
    reveal_strlit("phiras");
    reveal_strlit("thystame");
    assert("food"@.len() == 4 && "sibur"@.len() == 5 && "phiras"@.len() == 6 && "deraumere"@.len() == 9);
    assert("linemate"@.len() == 8 && "mendiane"@.len() == 8 && "thystame"@.len() == 8);
    assert("linemate"@[0] == 'l' && "mendiane"@[0] == 'm' && "thystame"@[0] == 't');
    reveal_with_fuel(resource_named_from, 8);
    match r {
        Resource::Food => {},
        Resource::Linemate => {},
        Resource::Deraumere => {},
        Resource::Sibur => {},
        Resource::Mendiane => {},
        Resource::Phiras => {},
        Resource::Thystame => {},
    }
}

/// `Take` and `Set` followed by a resource's name queue the command for
/// that resource, to complete after 7 ticks.
pub proof fn lemma_parse_take_set(r: Resource)
    ensures
        parse_spec("Take "@ + r.spec_name()) == Ok::<ActionView, Seq<char>>(action_of(7, EActionView::Take(r))),
        parse_spec("Set "@ + r.spec_name()) == Ok::<ActionView, Seq<char>>(action_of(7, EActionView::Place(r))),
{
    lemma_name_round_trip(r);
    reveal_strlit("Take ");
    reveal_strlit("Set ");
    reveal_strlit("Forward");
    reveal_strlit("Right");
    reveal_strlit("Left");
    reveal_strlit("Look");
    reveal_strlit("Inventory");
    reveal_strlit("Fork");
    reveal_strlit("Eject");
    reveal_strlit("Incantation");
    reveal_strlit("Broadcast ");
    let t = "Take "@ + r.spec_name();
    let u = "Set "@ + r.spec_name();
    assert(t.take(5) =~= "Take "@);
    assert(t.skip(5) =~= r.spec_name());
    assert(u.take(4) =~= "Set "@);
    assert(u.skip(4) =~= r.spec_name());
    assert(t.take(10) != "Broadcast "@ || t.len() <= 10) by {
        if t.len() > 10 {
            assert(t.take(10)[0] == 'T');
        }
    }
    assert(u.take(10) != "Broadcast "@ || u.len() <= 10) by {
        if u.len() > 10 {
            assert(u.take(10)[0] == 'S');
        }
    }
    assert(u.take(5) != "Take "@ || u.len() < 5) by {
        if u.len() >= 5 {
            assert(u.take(5)[0] == 'S');
        }
    }
    assert(t != "Forward"@ && t != "Right"@ && t != "Left"@ && t != "Look"@ && t != "Inventory"@) by {
        assert(t[1] == 'a');
    }
    assert(t != "Fork"@ && t != "Eject"@ && t != "Incantation"@) by {
        assert(t[1] == 'a');
    }
    assert(u != "Forward"@ && u != "Right"@ && u != "Left"@ && u != "Look"@ && u != "Inventory"@) by {
        assert(u[0] == 'S');
    }
    assert(u != "Fork"@ && u != "Eject"@ && u != "Incantation"@) by {
        assert(u[0] == 'S');
    }
}

} // verus!
