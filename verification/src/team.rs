//! Teams and values held once per team.

use vstd::prelude::*;

verus! {

/// One of the two sides of a match.
#[derive(Clone, Copy, Debug, PartialEq, Eq, Structural)]
pub enum Team {
    A,
    B,
}

impl Team {
    /// The opposing side.
    pub open spec fn spec_other(&self) -> Team {
        match *self {
            Team::A => Team::B,
            Team::B => Team::A,
        }
    }

    /// The opposing side.
    #[verifier::when_used_as_spec(spec_other)]
    pub fn other(&self) -> (r: Team)
        ensures
            r == self.spec_other(),
    {
        match self {
            Team::A => Team::B,
            Team::B => Team::A,
        }
    }
}

/// A value for team A and one for team B.
#[derive(Clone, Copy, Debug, PartialEq, Eq)]
pub struct TeamPair<T> {
    pub a: T,
    pub b: T,
}

impl<T> TeamPair<T> {
    pub fn new(a: T, b: T) -> (r: Self)
        ensures
            r.a == a,
            r.b == b,
    {
        Self { a, b }
    }

    /// The value held for `team`.
    pub open spec fn of(self, team: Team) -> T {
        match team {
            Team::A => self.a,
            Team::B => self.b,
        }
    }

    /// The pair with the two sides exchanged: what the other team sees as its own.
    pub open spec fn spec_swapped(self) -> Self {
        TeamPair { a: self.b, b: self.a }
    }

    /// A reference to the value held for `team`.
    pub fn get(&self, team: Team) -> (r: &T)
        ensures
            *r == self.of(team),
    {
        match team {
            Team::A => &self.a,
            Team::B => &self.b,
        }
    }

    /// Replaces the value held for `team` and leaves the other side alone.
    pub fn set(&mut self, team: Team, value: T)
        ensures
            final(self).of(team) == value,
            final(self).of(team.other()) == old(self).of(team.other()),
    {
        match team {
            Team::A => { self.a = value; },
            Team::B => { self.b = value; },
        }
    }

    /// Both values, team A's first.
    pub fn iter(&self) -> (r: (&T, &T))
        ensures
            *r.0 == self.a,
            *r.1 == self.b,
    {
        (&self.a, &self.b)
    }

    /// Both values for writing, team A's first.
    pub fn iter_mut(&mut self) -> (r: (&mut T, &mut T))
        ensures
            *r.0 == old(self).a,
            *r.1 == old(self).b,
            *final(self) == (TeamPair { a: *final(r.0), b: *final(r.1) }),
    {
        (&mut self.a, &mut self.b)
    }

    /// Exchanges the two sides.
    pub fn swapped(self) -> (r: Self)
        ensures
            r == self.spec_swapped(),
    {
        TeamPair { a: self.b, b: self.a }
    }
}

/// Taking the other side twice gives the side one started from.
pub proof fn lemma_other_involution(team: Team)
    ensures
        team.other().other() == team,
        team.other() != team,
{
}

/// Exchanging the sides of a pair twice gives the pair back.
pub proof fn lemma_swapped_involution<T>(pair: TeamPair<T>)
    ensures
        pair.spec_swapped().spec_swapped() == pair,
{
}

} // verus!
