//! The entities of the scene and the state machine of a mover.

use vstd::prelude::*;

verus! {

/// Distance, in world units, below which the light counts its target as
/// reached and looks for another one.
pub const CHASE_STOP_DISTANCE: u16 = 2;

/// Distance, in world units, below which a mover flees from the light.
pub const FLEE_DISTANCE: u16 = 3 * CHASE_STOP_DISTANCE;

/// The behavioural state of a mover.
///
/// `Wandering` is part of the state space, but no transition leads to it.
#[derive(Clone, Copy, Debug, PartialEq, Eq, Structural)]
pub enum SpaceshipState {
    Fleeing,
    Wandering,
    Idle,
}

/// The steering behaviour that a mover's state selects for one tick.
#[derive(Clone, Copy, Debug, PartialEq, Eq, Structural)]
pub enum Behavior {
    /// Accelerate straight away from the light.
    Flee,
    /// Decelerate to rest.
    Stop,
}

impl SpaceshipState {
    /// The state that follows `self` once it is known whether the light is
    /// nearer than [`FLEE_DISTANCE`].
    pub open spec fn spec_transition(self, near_light: bool) -> SpaceshipState {
        if near_light {
            SpaceshipState::Fleeing
        } else {
            SpaceshipState::Idle
        }
    }

    /// The behaviour that `self` dispatches.
    pub open spec fn spec_behavior(self) -> Behavior {
        match self {
            SpaceshipState::Fleeing => Behavior::Flee,
            _ => Behavior::Stop,
        }
    }

    /// Evaluates the transition policy: a mover flees exactly while the
    /// light is near, and rests otherwise, whatever it did before.
    #[verifier::when_used_as_spec(spec_transition)]
    pub fn transition(self, near_light: bool) -> (next: SpaceshipState)
        ensures
            next == self.spec_transition(near_light),
            next == SpaceshipState::Fleeing <==> near_light,
            next == SpaceshipState::Idle <==> !near_light,
    {
        if near_light {
            SpaceshipState::Fleeing
        } else {
            SpaceshipState::Idle
        }
    }

    /// Chooses the steering behaviour for a mover in this state: fleeing
    /// movers flee, all others come to a stop.
    #[verifier::when_used_as_spec(spec_behavior)]
    pub fn behavior(self) -> (b: Behavior)
        ensures
            b == self.spec_behavior(),
            b == Behavior::Flee <==> self == SpaceshipState::Fleeing,
    {
        match self {
            SpaceshipState::Fleeing => Behavior::Flee,
            _ => Behavior::Stop,
        }
    }
}

/// A mover: an identified kinematic body with a behavioural state.
///
/// `B` is the caller's representation of position, orientation, velocity
/// and angular rate.
pub struct Spaceship<B> {
    pub id: u16,
    pub body: B,
    pub state: SpaceshipState,
}

impl<B> Spaceship<B> {
    /// A mover at rest in the `Idle` state.
    pub fn new(id: u16, body: B) -> (ship: Self)
        ensures
            ship.id == id,
            ship.body == body,
            ship.state == SpaceshipState::Idle,
    {
        Spaceship { id, body, state: SpaceshipState::Idle }
    }
}

/// The pursuing light: a translating body and the mover it chases.
///
/// The target is held by id, not by reference; it may name a mover that is
/// no longer registered.
pub struct Light<L> {
    pub body: L,
    pub chase_target_id: Option<u16>,
}

impl<L> Light<L> {
    /// A light that chases nothing yet.
    pub fn new(body: L) -> (light: Self)
        ensures
            light.body == body,
            light.chase_target_id.is_none(),
    {
        Light { body, chase_target_id: None }
    }
}

/// No sequence of transitions reaches `Wandering`, and the state after a
/// transition does not depend on the state before it.
pub proof fn lemma_transition_memoryless(a: SpaceshipState, b: SpaceshipState, near_light: bool)
    ensures
        a.spec_transition(near_light) == b.spec_transition(near_light),
        a.spec_transition(near_light) != SpaceshipState::Wandering,
{
}

/// Only a mover that is near the light is told to flee.
pub proof fn lemma_flee_iff_near(before: SpaceshipState, near_light: bool)
    ensures
        before.spec_transition(near_light).spec_behavior() == Behavior::Flee <==> near_light,
{
}

} // verus!
