//! The commands a player queues, and how long each takes.
use vstd::prelude::*;

use crate::data::{EntityId, Position, Resource};

verus! {

/// What a queued command does when it completes.
#[derive(Clone, Debug, PartialEq)]
pub enum EAction {
    Forward,
    Right,
    Left,
    Look,
    Inventory,
    Fork,
    Eject,
    Broadcast(String),
    Take(Resource),
    Place(Resource),
    Incantation { position: Position, level: usize, participants: Vec<EntityId> },
}

/// The value of an `EAction`, with its text and its list of participants
/// taken by their contents.
pub enum EActionView {
    Forward,
    Right,
    Left,
    Look,
    Inventory,
    Fork,
    Eject,
    Broadcast(Seq<char>),
    Take(Resource),
    Place(Resource),
    Incantation { position: Position, level: usize, participants: Seq<EntityId> },
}

impl View for EAction {
    type V = EActionView;

    open spec fn view(&self) -> EActionView {
        match self {
            EAction::Forward => EActionView::Forward,
            EAction::Right => EActionView::Right,
            EAction::Left => EActionView::Left,
            EAction::Look => EActionView::Look,
            EAction::Inventory => EActionView::Inventory,
            EAction::Fork => EActionView::Fork,
            EAction::Eject => EActionView::Eject,
            EAction::Broadcast(text) => EActionView::Broadcast(text@),
            EAction::Take(r) => EActionView::Take(*r),
            EAction::Place(r) => EActionView::Place(*r),
            EAction::Incantation { position, level, participants } => EActionView::Incantation {
                position: *position,
                level: *level,
                participants: participants@,
            },
        }
    }
}

impl EAction {
    /// A copy of the action, equal to it in value.
    pub fn duplicate(&self) -> (r: EAction)
        ensures
            r@ == self@,
    {
        match self {
            EAction::Forward => EAction::Forward,
            EAction::Right => EAction::Right,
            EAction::Left => EAction::Left,
            EAction::Look => EAction::Look,
            EAction::Inventory => EAction::Inventory,
            EAction::Fork => EAction::Fork,
            EAction::Eject => EAction::Eject,
            EAction::Broadcast(text) => EAction::Broadcast(text.clone()),
            EAction::Take(r) => EAction::Take(*r),
            EAction::Place(r) => EAction::Place(*r),
            EAction::Incantation { position, level, participants } => {
                let copy = participants.clone();
                assert(copy@ =~= participants@);
                EAction::Incantation { position: *position, level: *level, participants: copy }
            },
        }
    }
}

/// A queued command: what it does, and how many ticks remain until it
/// completes.
#[derive(Clone, Debug, PartialEq)]
pub struct Action {
    timeleft: usize,
    action: EAction,
}

/// The value of an `Action`.
pub struct ActionView {
    pub timeleft: nat,
    pub kind: EActionView,
}

impl View for Action {
    type V = ActionView;

    closed spec fn view(&self) -> ActionView {
        ActionView { timeleft: self.timeleft as nat, kind: self.action@ }
    }
}

/// An action of the given kind that completes after `ticks` ticks.
pub open spec fn action_of(ticks: nat, kind: EActionView) -> ActionView {
    ActionView { timeleft: ticks, kind }
}

impl Action {
    /// Counts one tick down, stopping at zero.
    pub fn reduce_timeleft(&mut self)
        ensures
            final(self)@.kind == old(self)@.kind,
            final(self)@.timeleft == if old(self)@.timeleft > 0 {
                (old(self)@.timeleft - 1) as nat
            } else {
                0
            },
    {
        if self.timeleft > 0 {
            self.timeleft -= 1;
        }
    }

    /// What the action does.
    pub fn kind(&self) -> (k: EAction)
        ensures
            k@ == self@.kind,
    {
        self.action.duplicate()
    }

    /// Ticks left before the action completes.
    pub fn timeleft(&self) -> (t: usize)
        ensures
            t == self@.timeleft,
    {
        self.timeleft
    }

    /// Whether no tick is left.
    pub fn is_complete(&self) -> (b: bool)
        ensures
            b == (self@.timeleft == 0),
    {
        self.timeleft == 0
    }

    pub fn new_forward() -> (a: Self)
        ensures
            a@ == action_of(7, EActionView::Forward),
    {
        Self { timeleft: 7, action: EAction::Forward }
    }

    pub fn new_right() -> (a: Self)
        ensures
            a@ == action_of(7, EActionView::Right),
    {
        Self { timeleft: 7, action: EAction::Right }
    }

    pub fn new_left() -> (a: Self)
        ensures
            a@ == action_of(7, EActionView::Left),
    {
        Self { timeleft: 7, action: EAction::Left }
    }

    pub fn new_look() -> (a: Self)
        ensures
            a@ == action_of(7, EActionView::Look),
    {
        Self { timeleft: 7, action: EAction::Look }
    }

    pub fn new_inventory() -> (a: Self)
        ensures
            a@ == action_of(1, EActionView::Inventory),
    {
        Self { timeleft: 1, action: EAction::Inventory }
    }

    pub fn new_fork() -> (a: Self)
        ensures
            a@ == action_of(42, EActionView::Fork),
    {
        Self { timeleft: 42, action: EAction::Fork }
    }

    pub fn new_eject() -> (a: Self)
        ensures
            a@ == action_of(7, EActionView::Eject),
    {
        Self { timeleft: 7, action: EAction::Eject }
    }

    pub fn new_broadcast(text: String) -> (a: Self)
        ensures
            a@ == action_of(7, EActionView::Broadcast(text@)),
    {
        Self { timeleft: 7, action: EAction::Broadcast(text) }
    }

    pub fn new_take(resource: Resource) -> (a: Self)
        ensures
            a@ == action_of(7, EActionView::Take(resource)),
    {
        Self { timeleft: 7, action: EAction::Take(resource) }
    }

    pub fn new_set(resource: Resource) -> (a: Self)
        ensures
            a@ == action_of(7, EActionView::Place(resource)),
    {
        Self { timeleft: 7, action: EAction::Place(resource) }
    }

    pub fn new_incantation(position: Position, level: usize, participants: Vec<EntityId>) -> (a:
        Self)
        ensures
            a@ == action_of(
                300,
                EActionView::Incantation { position, level, participants: participants@ },
            ),
    {
        Self { timeleft: 300, action: EAction::Incantation { position, level, participants } }
    }
}

} // verus!
