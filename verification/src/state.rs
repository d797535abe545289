//! The scene: the table of movers, the light, and the decisions of a tick.

use crate::entity::{Behavior, Light, Spaceship, SpaceshipState};
use crate::random::choose_id;
use rand::rngs::StdRng;
use std::collections::HashMap;
use vstd::prelude::*;
use vstd::std_specs::iter::IteratorSpec;

verus! {

broadcast use vstd::std_specs::hash::group_hash_axioms;

/// What the light does in one tick.
#[derive(Clone, Copy, Debug, PartialEq, Eq, Structural)]
pub enum LightAction {
    /// Seek the registered mover with this id, then integrate.
    Chase(u16),
    /// Take no steering action.
    Rest,
}

/// The scene as contracts see it.
pub ghost struct StateView<L, B> {
    pub instances: Map<u16, Spaceship<B>>,
    pub light: Light<L>,
}

/// The movers, filed under their ids, and the light that chases them.
pub struct State<L, B> {
    instances: HashMap<u16, Spaceship<B>>,
    light: Light<L>,
}

impl<L, B> StateView<L, B> {
    /// Every mover is filed under the id that it carries.
    pub open spec fn filed_by_id(self) -> bool {
        forall|id: u16| #[trigger]
            self.instances.contains_key(id) ==> self.instances[id].id == id
    }

    /// The light's target, if it has one, is a registered mover.
    pub open spec fn target_resolves(self) -> bool {
        self.light.chase_target_id matches Some(id) ==> self.instances.contains_key(id)
    }

    /// The movers that the light can turn to once it has reached `prev`:
    /// every registered mover but `prev` itself.
    pub open spec fn candidates(self, prev: u16) -> Set<u16> {
        self.instances.dom().remove(prev)
    }

    /// `next` is an admissible new target after `prev` was reached: one of
    /// the candidates, or nothing when there is no candidate.
    pub open spec fn admits_retarget(self, prev: u16, next: Option<u16>) -> bool {
        match next {
            Some(id) => self.candidates(prev).contains(id),
            None => self.candidates(prev) =~= Set::<u16>::empty(),
        }
    }

    /// `target` is an admissible first target: a registered mover, or
    /// nothing when no mover is registered.
    pub open spec fn admits_adoption(self, target: Option<u16>) -> bool {
        match target {
            Some(id) => self.instances.contains_key(id),
            None => self.instances.dom() =~= Set::<u16>::empty(),
        }
    }

    /// The table after the mover filed under `id` went through one
    /// transition of its state machine.
    pub open spec fn after_transition(self, id: u16, near_light: bool) -> Map<u16, Spaceship<B>> {
        let cube = self.instances[id];
        self.instances.insert(
            id,
            Spaceship { id: cube.id, body: cube.body, state: cube.state.spec_transition(near_light) },
        )
    }
}

impl<L, B> View for State<L, B> {
    type V = StateView<L, B>;

    closed spec fn view(&self) -> StateView<L, B> {
        StateView { instances: self.instances@, light: self.light }
    }
}

impl<L, B> State<L, B> {
    #[verifier::type_invariant]
    spec fn well_filed(self) -> bool {
        self@.filed_by_id()
    }

    /// The id that walking the table yields first, if it holds any mover.
    /// It is the same for as long as the table is not changed.
    pub closed spec fn first_id(&self) -> Option<u16> {
        let keys = vstd::std_specs::hash::into_iter_keys(self.instances.keys());
        if keys.len() > 0 {
            Some(keys[0])
        } else {
            None
        }
    }

    /// A scene with the given light and no mover.
    pub fn new(light: Light<L>) -> (state: Self)
        ensures
            state@.instances == Map::<u16, Spaceship<B>>::empty(),
            state@.light == light,
            state@.filed_by_id(),
    {
        State { instances: HashMap::new(), light }
    }

    /// Registers a mover at rest. A mover already filed under `id` is
    /// replaced.
    pub fn add_cube(&mut self, id: u16, body: B)
        ensures
            final(self)@.instances == old(self)@.instances.insert(
                id,
                Spaceship { id, body, state: SpaceshipState::Idle },
            ),
            final(self)@.light == old(self)@.light,
            final(self)@.filed_by_id(),
    {
        proof {
            use_type_invariant(&*self);
        }
        let cube = Spaceship::new(id, body);
        let mut table = HashMap::new();
        core::mem::swap(&mut table, &mut self.instances);
        table.insert(id, cube);
        self.instances = table;
    }

    /// The light.
    pub fn light(&self) -> (light: &Light<L>)
        ensures
            *light == self@.light,
    {
        &self.light
    }

    /// Whether a mover is filed under `id`.
    pub fn contains(&self, id: u16) -> (found: bool)
        ensures
            found == self@.instances.contains_key(id),
    {
        self.instances.contains_key(&id)
    }

    /// The mover filed under `id`, if there is one. It carries that id.
    pub fn cube(&self, id: u16) -> (cube: Option<&Spaceship<B>>)
        ensures
            cube.is_some() <==> self@.instances.contains_key(id),
            cube matches Some(c) ==> *c == self@.instances[id] && c.id == id,
            self@.filed_by_id(),
    {
        proof {
            use_type_invariant(self);
        }
        self.instances.get(&id)
    }

    /// The number of registered movers.
    pub fn len(&self) -> (n: usize)
        ensures
            n == self@.instances.len(),
    {
        self.instances.len()
    }

    /// The ids of all registered movers, each once, in no particular order.
    pub fn ids(&self) -> (ids: Vec<u16>)
        ensures
            ids@.to_set() == self@.instances.dom(),
            ids@.no_duplicates(),
    {
        let mut ids: Vec<u16> = Vec::new();
        let ghost keys: Seq<&u16> = self.instances.keys().remaining();
        for key in it: self.instances.keys()
            invariant
                it.seq().unref().to_set() == self.instances@.dom(),
                it.seq().no_duplicates(),
                ids@.len() == it.index(),
                forall|j: int| 0 <= j < ids@.len() ==> ids@[j] == *it.seq()[j],
                keys == it.seq(),
        {
            ids.push(*key);
        }
        proof {
            assert(ids@ =~= keys.unref());
            assert forall|i: int, j: int| 0 <= i < j < ids@.len() implies ids@[i] != ids@[j] by {
                assert(keys[i] != keys[j]);
            }
        }
        ids
    }

    /// The ids of all registered movers but `prev`, each once.
    pub fn other_ids(&self, prev: u16) -> (ids: Vec<u16>)
        ensures
            ids@.to_set() == self@.candidates(prev),
            ids@.no_duplicates(),
    {
        let all = self.ids();
        let mut others: Vec<u16> = Vec::new();
        let mut i: usize = 0;
        while i < all.len()
            invariant
                i <= all.len(),
                all@.no_duplicates(),
                others@.no_duplicates(),
                others@.to_set() == all@.take(i as int).to_set().remove(prev),
            decreases all.len() - i,
        {
            let id = all[i];
            proof {
                lemma_prefix_lacks_next(all@, i as int);
                all@.lemma_take_succ_push(i as int);
                all@.take(i as int).lemma_push_to_set_commute(id);
            }
            if id != prev {
                proof {
                    assert(!others@.to_set().contains(id));
                    lemma_push_fresh(others@, id);
                    others@.lemma_push_to_set_commute(id);
                }
                others.push(id);
            }
            assert(others@.to_set() =~= all@.take(i + 1).to_set().remove(prev));
            i += 1;
        }
        proof {
            assert(all@.take(all.len() as int) =~= all@);
        }
        others
    }

    /// Puts the light's body after integration back into the scene.
    pub fn set_light_body(&mut self, body: L)
        ensures
            final(self)@.light.body == body,
            final(self)@.light.chase_target_id == old(self)@.light.chase_target_id,
            final(self)@.instances == old(self)@.instances,
            final(self).first_id() == old(self).first_id(),
    {
        proof {
            use_type_invariant(&*self);
        }
        self.light.body = body;
    }

    /// Points the light at `target`, or at nothing.
    pub fn set_chase_target(&mut self, target: Option<u16>)
        ensures
            final(self)@.light.chase_target_id == target,
            final(self)@.light.body == old(self)@.light.body,
            final(self)@.instances == old(self)@.instances,
            final(self).first_id() == old(self).first_id(),
    {
        proof {
            use_type_invariant(&*self);
        }
        self.light.chase_target_id = target;
    }

    /// Puts the body of the mover filed under `id` after integration back
    /// into the table. Returns whether there is such a mover; if not,
    /// nothing changes.
    pub fn set_cube_body(&mut self, id: u16, body: B) -> (found: bool)
        ensures
            found == old(self)@.instances.contains_key(id),
            final(self)@.light == old(self)@.light,
            found ==> final(self)@.instances == old(self)@.instances.insert(
                id,
                Spaceship { id, body, state: old(self)@.instances[id].state },
            ),
            !found ==> final(self)@.instances == old(self)@.instances,
            final(self)@.filed_by_id(),
    {
        proof {
            use_type_invariant(&*self);
        }
        let mut table = HashMap::new();
        core::mem::swap(&mut table, &mut self.instances);
        let ghost before = table@;
        let found = match table.remove(&id) {
            Some(cube) => {
                table.insert(id, Spaceship { id, body, state: cube.state });
                assert(table@ =~= before.insert(id, Spaceship { id, body, state: cube.state }));
                true
            },
            None => {
                assert(table@ =~= before);
                false
            },
        };
        self.instances = table;
        found
    }

    /// Decides what the light does this tick and settles its target.
    ///
    /// - With no target, the light adopts a registered mover, if there is
    ///   one, and rests for this tick.
    /// - With a target that is registered, the light chases it.
    /// - With a target that is no longer registered, the light drops it and
    ///   rests; the next tick starts without a target.
    pub fn light_action(&mut self) -> (action: LightAction)
        ensures
            final(self)@.instances == old(self)@.instances,
            final(self)@.light.body == old(self)@.light.body,
            match old(self)@.light.chase_target_id {
                Some(id) => if old(self)@.instances.contains_key(id) {
                    &&& action == LightAction::Chase(id)
                    &&& final(self)@.light.chase_target_id == Some(id)
                } else {
                    &&& action == LightAction::Rest
                    &&& final(self)@.light.chase_target_id.is_none()
                },
                None => {
                    &&& action == LightAction::Rest
                    &&& final(self)@.light.chase_target_id == old(self).first_id()
                    &&& old(self)@.admits_adoption(final(self)@.light.chase_target_id)
                },
            },
            final(self)@.target_resolves(),
            final(self).first_id() == old(self).first_id(),
    {
        proof {
            use_type_invariant(&*self);
        }
        match self.light.chase_target_id {
            Some(id) => {
                if self.instances.contains_key(&id) {
                    LightAction::Chase(id)
                } else {
                    self.light.chase_target_id = None;
                    LightAction::Rest
                }
            },
            None => {
                let keys = self.instances.keys();
                let ghost order = keys.remaining();
                let adopted = match first(keys) {
                    Some(id) => {
                        assert(order.unref()[0] == *id);
                        assert(order.unref().to_set().contains(*id));
                        Some(*id)
                    },
                    None => {
                        assert(order.unref() =~= Seq::<u16>::empty());
                        assert(self.instances@.dom() =~= Set::<u16>::empty());
                        None
                    },
                };
                self.light.chase_target_id = adopted;
                LightAction::Rest
            },
        }
    }

    /// Settles the light's target after a chase step, given whether the
    /// light now is within the stop distance of its target.
    ///
    /// If it is, the light drops the target and turns to one of the other
    /// registered movers, drawn with `rng`; with no other mover it is left
    /// without a target. If it is not, or the light had no target, nothing
    /// changes.
    pub fn chase_outcome(&mut self, reached: bool, rng: &mut StdRng)
        ensures
            final(self)@.instances == old(self)@.instances,
            final(self)@.light.body == old(self)@.light.body,
            match old(self)@.light.chase_target_id {
                Some(prev) => if reached {
                    old(self)@.admits_retarget(prev, final(self)@.light.chase_target_id)
                } else {
                    final(self)@.light.chase_target_id == Some(prev)
                },
                None => final(self)@.light.chase_target_id.is_none(),
            },
            old(self)@.target_resolves() ==> final(self)@.target_resolves(),
            final(self).first_id() == old(self).first_id(),
    {
        proof {
            use_type_invariant(&*self);
        }
        if reached {
            match self.light.chase_target_id {
                Some(prev) => {
                    let others = self.other_ids(prev);
                    let picked = choose_id(&others, rng);
                    proof {
                        match picked {
                            Some(id) => {
                                assert(others@.to_set().contains(id));
                            },
                            None => {
                                assert(others@ =~= Seq::<u16>::empty());
                                assert(others@.to_set() =~= Set::<u16>::empty());
                            },
                        }
                    }
                    self.light.chase_target_id = picked;
                },
                None => {},
            }
        }
    }

    /// Runs the state machine of the mover filed under `id` for one tick,
    /// given whether the light is nearer than the flee distance, and
    /// returns the behaviour that the new state dispatches.
    ///
    /// Returns `None`, and changes nothing, if no mover is filed under
    /// `id`.
    pub fn cube_action(&mut self, id: u16, near_light: bool) -> (behavior: Option<Behavior>)
        ensures
            final(self)@.light == old(self)@.light,
            behavior.is_some() <==> old(self)@.instances.contains_key(id),
            behavior.is_none() ==> final(self)@.instances == old(self)@.instances,
            behavior matches Some(b) ==> {
                &&& b == old(self)@.instances[id].state.spec_transition(near_light).spec_behavior()
                &&& final(self)@.instances == old(self)@.after_transition(id, near_light)
            },
            final(self)@.instances.dom() == old(self)@.instances.dom(),
            final(self)@.filed_by_id(),
    {
        proof {
            use_type_invariant(&*self);
        }
        let mut table = HashMap::new();
        core::mem::swap(&mut table, &mut self.instances);
        let ghost before = table@;
        let behavior = match table.remove(&id) {
            Some(cube) => {
                let next = cube.state.transition(near_light);
                table.insert(id, Spaceship { id: cube.id, body: cube.body, state: next });
                assert(table@ =~= before.insert(
                    id,
                    Spaceship { id: cube.id, body: cube.body, state: next },
                ));
                Some(next.behavior())
            },
            None => {
                assert(table@ =~= before);
                None
            },
        };
        self.instances = table;
        behavior
    }
}

/// The item that an iterator yields first, if it yields any.
fn first<I: Iterator>(iter: I) -> (item: Option<I::Item>)
    ensures
        iter.obeys_prophetic_iter_laws() ==> match item {
            Some(x) => iter.remaining().len() > 0 && x == iter.remaining()[0],
            None => iter.remaining().len() == 0,
        },
{
    let mut iter = iter;
    iter.next()
}

/// A prefix of a sequence without duplicates lacks the element that follows
/// it.
proof fn lemma_prefix_lacks_next(s: Seq<u16>, i: int)
    requires
        s.no_duplicates(),
        0 <= i < s.len(),
    ensures
        !s.take(i).to_set().contains(s[i]),
{
    if s.take(i).contains(s[i]) {
        let j = choose|j: int| 0 <= j < i && s.take(i)[j] == s[i];
        assert(s[j] == s[i]);
    }
}

/// Appending an element that a duplicate-free sequence lacks keeps it
/// duplicate-free.
proof fn lemma_push_fresh(s: Seq<u16>, v: u16)
    requires
        s.no_duplicates(),
        !s.to_set().contains(v),
    ensures
        s.push(v).no_duplicates(),
{
    assert forall|i: int, j: int| 0 <= i < s.push(v).len() && 0 <= j < s.push(v).len() && i != j
        implies s.push(v)[i] != s.push(v)[j] by {
        if i < s.len() {
            assert(s.contains(s[i]));
        }
        if j < s.len() {
            assert(s.contains(s[j]));
        }
    }
}

/// When exactly one mover other than the reached one is registered, the
/// light's next target is that mover.
pub proof fn lemma_sole_candidate<L, B>(
    scene: StateView<L, B>,
    prev: u16,
    other: u16,
    next: Option<u16>,
)
    requires
        scene.candidates(prev) =~= set![other],
        scene.admits_retarget(prev, next),
    ensures
        next == Some(other),
{
    assert(scene.candidates(prev).contains(other));
}

/// A new target is never the mover that was just reached, and it is
/// always registered.
pub proof fn lemma_retarget_is_other<L, B>(scene: StateView<L, B>, prev: u16, next: u16)
    requires
        scene.admits_retarget(prev, Some(next)),
    ensures
        next != prev,
        scene.instances.contains_key(next),
{
}

} // verus!
