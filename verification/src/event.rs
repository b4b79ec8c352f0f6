//! What a frame asks of the host: sounds to play, and visuals to add or drop.

use vstd::prelude::*;
use crate::store::EntityId;
use crate::store::Kind;
use crate::vector::Point;

verus! {

/// Why a sound is to be played. The host picks the sound.
#[derive(Clone, Copy, Debug, PartialEq, Eq, Structural)]
pub enum Cause {
    /// An entity turned at the edge of the field.
    BoundaryBounce,
    /// The player ran into a hazard.
    FatalImpact,
    /// The player picked something up.
    Pickup,
}

/// One request to the host.
#[derive(Clone, Copy, Debug, PartialEq, Eq, Structural)]
pub enum Event {
    /// Play a sound.
    Sound { cause: Cause },
    /// An entity came into being.
    Created { id: EntityId, kind: Kind, position: Point },
    /// An entity is gone.
    Destroyed { id: EntityId },
}

/// `count` requests for a sound with the same cause.
pub open spec fn sounds(cause: Cause, count: nat) -> Seq<Event> {
    Seq::new(count, |i: int| Event::Sound { cause })
}

/// The notices that the entities `ids` are gone, in their order.
pub open spec fn destroyed_events(ids: Seq<EntityId>) -> Seq<Event> {
    ids.map_values(|id: EntityId| Event::Destroyed { id })
}

/// Appends the notices that the entities `ids` are gone to `events`.
pub fn push_destroyed(events: &mut Vec<Event>, ids: &Vec<EntityId>)
    ensures
        final(events)@ == old(events)@ + destroyed_events(ids@),
{
    let mut i: usize = 0;
    assert(events@ =~= old(events)@ + destroyed_events(ids@.take(0)));
    while i < ids.len()
        invariant
            i <= ids.len(),
            events@ == old(events)@ + destroyed_events(ids@.take(i as int)),
        decreases ids.len() - i,
    {
        events.push(Event::Destroyed { id: ids[i] });
        i = i + 1;
        assert(events@ =~= old(events)@ + destroyed_events(ids@.take(i as int)));
    }
    assert(ids@.take(ids.len() as int) =~= ids@);
}

/// Appends `count` requests for a sound to `events`.
pub fn push_sounds(events: &mut Vec<Event>, cause: Cause, count: usize)
    ensures
        final(events)@ == old(events)@ + sounds(cause, count as nat),
{
    let mut i: usize = 0;
    assert(events@ =~= old(events)@ + sounds(cause, 0));
    while i < count
        invariant
            i <= count,
            events@ == old(events)@ + sounds(cause, i as nat),
        decreases count - i,
    {
        events.push(Event::Sound { cause });
        i = i + 1;
        assert(events@ =~= old(events)@ + sounds(cause, i as nat));
    }
}

/// Appends the events of `more` to `events`.
pub fn append(events: &mut Vec<Event>, more: &Vec<Event>)
    ensures
        final(events)@ == old(events)@ + more@,
{
    let mut i: usize = 0;
    assert(events@ =~= old(events)@ + more@.take(0));
    while i < more.len()
        invariant
            i <= more.len(),
            events@ == old(events)@ + more@.take(i as int),
        decreases more.len() - i,
    {
        events.push(more[i]);
        i = i + 1;
        assert(events@ =~= old(events)@ + more@.take(i as int));
    }
    assert(more@.take(more.len() as int) =~= more@);
}

} // verus!
