use vstd::prelude::*;

verus! {

/// Who an entity belongs to.
#[derive(Clone, Copy, Debug, PartialEq, Eq, Hash, Structural)]
pub enum FactionId {
    /// A specific player, by number.
    Player(u32),
    /// Neutral, passive units.
    Neutral,
    /// Hostile non-player units.
    Creep,
    /// Map elements.
    Environment,
}

/// Alliance grouping.
#[derive(Clone, Copy, Debug, PartialEq, Eq, Hash, Structural)]
pub enum TeamId {
    /// A specific team, by number.
    Team(u32),
    /// No team affiliation.
    Neutral,
    /// Free-for-all: hostile to everyone, each other included.
    FFA,
}

/// What drives an entity's decisions.
#[derive(Clone, Copy, Debug, PartialEq, Eq, Hash, Structural)]
pub enum ControllerType {
    Human,
    AI,
    /// Driven by map logic.
    Automatic,
}

/// Ownership of a controllable entity. The three parts change together.
#[derive(Clone, Copy, Debug, PartialEq, Eq, Structural)]
pub struct Ownership {
    pub faction: FactionId,
    pub team: TeamId,
    pub controller_type: ControllerType,
}

/// Two teams are allied when they are the same team and that team is not FFA.
pub open spec fn spec_are_allied(a: TeamId, b: TeamId) -> bool {
    a == b && !(a is FFA)
}

/// Whether entities of teams `a` and `b` are allies.
pub fn are_allied(a: TeamId, b: TeamId) -> (r: bool)
    ensures
        r == spec_are_allied(a, b),
{
    match a {
        TeamId::FFA => false,
        _ => a == b,
    }
}

impl Ownership {
    /// Whether the two owners are allies.
    pub fn is_allied_with(&self, other: &Ownership) -> (r: bool)
        ensures
            r == spec_are_allied(self.team, other.team),
    {
        are_allied(self.team, other.team)
    }

    /// Hands the entity to a new owner: faction, team and controller all at once.
    pub fn transfer_to(&mut self, faction: FactionId, team: TeamId, controller_type: ControllerType)
        ensures
            *final(self) == (Ownership { faction, team, controller_type }),
    {
        *self = Ownership { faction, team, controller_type };
    }
}

impl Default for Ownership {
    /// Neutral faction, neutral team, driven by map logic.
    fn default() -> (r: Ownership)
        ensures
            r == (Ownership {
                faction: FactionId::Neutral,
                team: TeamId::Neutral,
                controller_type: ControllerType::Automatic,
            }),
    {
        Ownership {
            faction: FactionId::Neutral,
            team: TeamId::Neutral,
            controller_type: ControllerType::Automatic,
        }
    }
}

} // verus!
