use vstd::prelude::*;
use crate::faction::FactionId;
use crate::grid::{EntityId, GridCoord, TerrainType};

verus! {

// Timestamps count microseconds of simulation time.

/// A map has been (re)built.
#[derive(Clone, Debug)]
pub struct MapLoadedEvent {
    pub map_name: String,
    pub width: i32,
    pub height: i32,
}

/// Request to change the terrain of one cell.
#[derive(Clone, Copy, Debug, PartialEq, Eq, Structural)]
pub struct TerrainModifiedEvent {
    pub coord: GridCoord,
    pub new_terrain: TerrainType,
    pub timestamp: u64,
}

/// A unit moved between cells.
#[derive(Clone, Copy, Debug, PartialEq, Eq, Structural)]
pub struct UnitMoveEvent {
    pub entity: EntityId,
    pub from: GridCoord,
    pub to: GridCoord,
    pub timestamp: u64,
}

/// A building was placed; `size` is its width and height in cells.
#[derive(Clone, Copy, Debug, PartialEq, Eq)]
pub struct BuildingPlacedEvent {
    pub entity: EntityId,
    pub faction: FactionId,
    pub position: GridCoord,
    pub size: (i32, i32),
    pub timestamp: u64,
}

/// Cells around `center` became visible to `faction`.
#[derive(Clone, Copy, Debug, PartialEq, Eq, Structural)]
pub struct TerrainRevealedEvent {
    pub center: GridCoord,
    pub radius: i32,
    pub faction: FactionId,
    pub timestamp: u64,
}

/// Request for a path for `entity`.
#[derive(Clone, Copy, Debug, PartialEq, Eq, Structural)]
pub struct PathfindingRequestEvent {
    pub entity: EntityId,
    pub from: GridCoord,
    pub to: GridCoord,
    pub timestamp: u64,
}

/// Answer to a path request: the cells from start to goal, empty on failure.
#[derive(Clone, Debug)]
pub struct PathfindingResultEvent {
    pub entity: EntityId,
    pub path: Vec<GridCoord>,
    pub success: bool,
    pub timestamp: u64,
}

/// Request to load the named map.
#[derive(Clone, Debug)]
pub struct LoadMapCommand {
    pub map_name: String,
}

/// An ordered broadcast channel of one event kind.
///
/// Events sent during a tick are visible, in the order sent, to every reader
/// that runs after the writer in that same tick; `clear` ends the tick.
/// Events are never changed once sent.
pub struct EventChannel<T> {
    events: Vec<T>,
}

impl<T> EventChannel<T> {
    pub closed spec fn view(self) -> Seq<T> {
        self.events@
    }

    pub fn new() -> (r: EventChannel<T>)
        ensures
            r.view() == Seq::<T>::empty(),
    {
        EventChannel { events: Vec::new() }
    }

    /// Appends an event after all those already sent.
    pub fn send(&mut self, event: T)
        ensures
            final(self).view() == old(self).view().push(event),
    {
        self.events.push(event);
    }

    /// The events sent so far, oldest first.
    pub fn read(&self) -> (r: &Vec<T>)
        ensures
            r@ == self.view(),
    {
        &self.events
    }

    pub fn len(&self) -> (r: usize)
        ensures
            r == self.view().len(),
    {
        self.events.len()
    }

    /// Drops every event: the tick boundary.
    pub fn clear(&mut self)
        ensures
            final(self).view() == Seq::<T>::empty(),
    {
        self.events = Vec::new();
    }
}

} // verus!
