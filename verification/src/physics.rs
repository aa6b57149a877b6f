//! Physics requests: running, pausing and toggling the simulation,
//! despawning bodies, and the order of the physics systems in a frame.

use vstd::prelude::*;
use std::collections::BTreeMap;
use crate::multibody::ChildMap;

verus! {

/// A request to the physics.
#[derive(Debug, Clone, Copy, PartialEq, Eq, Hash, Structural)]
pub enum PhysicEvent {
    PausePhysics,
    RunPhysics,
    TogglePhysics,
    /// Despawn the body whose entity has these bits, with the links of its
    /// multibody if it is a multibody root.
    DespawnBody(u64),
    DespawnAll,
}

/// Whether the physics runs.
#[derive(Debug, Clone, Copy, PartialEq, Eq, Hash, Structural)]
pub enum PhysicState {
    Stopped,
    Running,
}

/// What the physics does for a request.
#[derive(Debug, Clone, Copy, PartialEq, Eq, Hash, Structural)]
pub enum PhysicAction {
    /// Go to this state from the next frame on.
    SetState(PhysicState),
    /// Despawn this body (and the links of its multibody).
    Despawn(u64),
    /// Despawn every body.
    DespawnAll,
}

/// The other state.
pub open spec fn flip(s: PhysicState) -> PhysicState {
    match s {
        PhysicState::Stopped => PhysicState::Running,
        PhysicState::Running => PhysicState::Stopped,
    }
}

/// The action for a request, given the state the physics is in.
pub open spec fn physic_action_spec(current: PhysicState, event: PhysicEvent) -> PhysicAction {
    match event {
        PhysicEvent::PausePhysics => PhysicAction::SetState(PhysicState::Stopped),
        PhysicEvent::RunPhysics => PhysicAction::SetState(PhysicState::Running),
        PhysicEvent::TogglePhysics => PhysicAction::SetState(flip(current)),
        PhysicEvent::DespawnBody(id) => PhysicAction::Despawn(id),
        PhysicEvent::DespawnAll => PhysicAction::DespawnAll,
    }
}

/// The other state.
pub fn toggled(s: PhysicState) -> (r: PhysicState)
    ensures
        r == flip(s),
{
    match s {
        PhysicState::Stopped => PhysicState::Running,
        PhysicState::Running => PhysicState::Stopped,
    }
}

/// Decides what the physics does for a request: pausing stops it, running
/// runs it, toggling goes to the other state, despawn requests are passed on.
pub fn physic_action(current: PhysicState, event: PhysicEvent) -> (r: PhysicAction)
    ensures
        r == physic_action_spec(current, event),
{
    match event {
        PhysicEvent::PausePhysics => PhysicAction::SetState(PhysicState::Stopped),
        PhysicEvent::RunPhysics => PhysicAction::SetState(PhysicState::Running),
        PhysicEvent::TogglePhysics => PhysicAction::SetState(toggled(current)),
        PhysicEvent::DespawnBody(id) => PhysicAction::Despawn(id),
        PhysicEvent::DespawnAll => PhysicAction::DespawnAll,
    }
}

/// The state that the requests of one frame leave for the next frame: the
/// state set by the last request that sets one, all of them read against
/// the state the frame started in; `None` when no request sets a state.
pub open spec fn next_state_spec(current: PhysicState, events: Seq<PhysicEvent>) -> Option<PhysicState>
    decreases events.len(),
{
    if events.len() == 0 {
        None
    } else {
        match physic_action_spec(current, events.last()) {
            PhysicAction::SetState(s) => Some(s),
            _ => next_state_spec(current, events.drop_last()),
        }
    }
}

/// The state that the requests of one frame leave for the next frame.
pub fn next_state(current: PhysicState, events: &Vec<PhysicEvent>) -> (r: Option<PhysicState>)
    ensures
        r == next_state_spec(current, events@),
{
    let mut r: Option<PhysicState> = None;
    let mut i: usize = 0;
    while i < events.len()
        invariant
            i <= events@.len(),
            r == next_state_spec(current, events@.take(i as int)),
        decreases events.len() - i,
    {
        proof {
            assert(events@.take(i + 1).drop_last() == events@.take(i as int));
            assert(events@.take(i + 1).last() == events@[i as int]);
        }
        if let PhysicAction::SetState(s) = physic_action(current, events[i]) {
            r = Some(s);
        }
        i = i + 1;
    }
    assert(events@.take(events@.len() as int) == events@);
    r
}

/// Toggling twice comes back to the state one started from.
pub proof fn lemma_toggle_twice(s: PhysicState)
    ensures
        flip(flip(s)) == s,
{
}

/// Pausing and running do not depend on the state the physics is in.
pub proof fn lemma_pause_run_absolute(a: PhysicState, b: PhysicState)
    ensures
        physic_action_spec(a, PhysicEvent::PausePhysics) == physic_action_spec(b, PhysicEvent::PausePhysics),
        physic_action_spec(a, PhysicEvent::RunPhysics) == physic_action_spec(b, PhysicEvent::RunPhysics),
{
}

/// The physics state after the requests of a frame: the last request that
/// pauses, runs or toggles decides it (pausing stops, running runs, toggling
/// gives the other state than the frame started in), and despawn requests
/// after it do not change it; a frame without such a request leaves the
/// state as it was.
pub proof fn lemma_last_state_request_wins(current: PhysicState, events: Seq<PhysicEvent>, i: int)
    requires
        0 <= i < events.len(),
        events[i] is PausePhysics || events[i] is RunPhysics || events[i] is TogglePhysics,
        forall|j: int| i < j < events.len() ==> (#[trigger] events[j] is DespawnBody || events[j] is DespawnAll),
    ensures
        next_state_spec(current, events) == Some(match events[i] {
            PhysicEvent::PausePhysics => PhysicState::Stopped,
            PhysicEvent::RunPhysics => PhysicState::Running,
            _ => if current == PhysicState::Running {
                PhysicState::Stopped
            } else {
                PhysicState::Running
            },
        }),
    decreases events.len(),
{
    if i < events.len() - 1 {
        assert(events.drop_last()[i] == events[i]);
        assert forall|j: int| i < j < events.drop_last().len() implies (#[trigger] events.drop_last()[j] is DespawnBody
            || events.drop_last()[j] is DespawnAll) by {
            assert(events.drop_last()[j] == events[j]);
        }
        assert(events[events.len() - 1] is DespawnBody || events[events.len() - 1] is DespawnAll);
        lemma_last_state_request_wins(current, events.drop_last(), i);
    }
}

/// Despawn requests alone leave the physics state as it was.
pub proof fn lemma_despawns_keep_state(current: PhysicState, events: Seq<PhysicEvent>)
    requires
        forall|j: int| 0 <= j < events.len() ==> (#[trigger] events[j] is DespawnBody || events[j] is DespawnAll),
    ensures
        next_state_spec(current, events) is None,
    decreases events.len(),
{
    if events.len() > 0 {
        assert forall|j: int| 0 <= j < events.drop_last().len() implies (#[trigger] events.drop_last()[j] is DespawnBody
            || events.drop_last()[j] is DespawnAll) by {
            assert(events.drop_last()[j] == events[j]);
        }
        assert(events[events.len() - 1] is DespawnBody || events[events.len() - 1] is DespawnAll);
        lemma_despawns_keep_state(current, events.drop_last());
    }
}

/// The entities to despawn for a despawn request: the body itself, then, if
/// it is a multibody root, the entity of every link in its map, in the map's
/// key order. Despawning a multibody root despawns every link of its map.
pub fn entities_to_despawn(entity: u64, root: Option<&ChildMap>) -> (r: Vec<u64>)
    ensures
        r@ == seq![entity] + match root {
            None => Seq::<u64>::empty(),
            Some(m) => m.key_order().map_values(|k: Seq<char>| m@[k]),
        },
        match root {
            None => true,
            Some(m) => forall|k: Seq<char>| #[trigger] m@.dom().contains(k) ==> r@.contains(m@[k]),
        },
{
    let mut r: Vec<u64> = Vec::new();
    r.push(entity);
    if let Some(m) = root {
        let children = m.values();
        let mut i: usize = 0;
        while i < children.len()
            invariant
                i <= children@.len(),
                r@ == seq![entity] + children@.take(i as int),
            decreases children.len() - i,
        {
            r.push(children[i]);
            i = i + 1;
            assert(children@.take(i as int) == children@.take(i - 1).push(children@[i - 1]));
        }
        assert(children@.take(children@.len() as int) == children@);
        proof {
            assert forall|k: Seq<char>| #[trigger] m@.dom().contains(k) implies r@.contains(m@[k]) by {
                lemma_despawn_covers_links(entity, m, r@, k);
            }
        }
    } else {
        assert(r@ == seq![entity] + Seq::<u64>::empty());
    }
    r
}

/// Every link of a map is among the entities listed in its key order.
proof fn lemma_despawn_covers_links(entity: u64, m: &ChildMap, r: Seq<u64>, k: Seq<char>)
    requires
        r == seq![entity] + m.key_order().map_values(|q: Seq<char>| m@[q]),
        m.key_order().to_set() == m@.dom(),
        m@.dom().contains(k),
    ensures
        r.contains(m@[k]),
{
    assert(m.key_order().to_set().contains(k));
    let i = choose|i: int| 0 <= i < m.key_order().len() && m.key_order()[i] == k;
    assert(r[i + 1] == m@[k]);
}

// ----------------------------------------------------------------------
// Bodies attached to a body
// ----------------------------------------------------------------------

/// Whether one of `joints` joins the bodies `a` and `b`, either way round.
pub open spec fn joined(joints: Seq<(u64, u64)>, a: u64, b: u64) -> bool {
    exists|t: int| 0 <= t < joints.len() && (#[trigger] joints[t] == (a, b) || joints[t] == (b, a))
}

/// Both bodies of a joint are listed in `r`.
pub open spec fn covered(r: Seq<u64>, e: (u64, u64)) -> bool {
    r.contains(e.0) && r.contains(e.1)
}

/// How many of `joints` have a body that `r` does not list.
pub open spec fn uncovered(joints: Seq<(u64, u64)>, r: Seq<u64>) -> nat
    decreases joints.len(),
{
    if joints.len() == 0 {
        0
    } else {
        uncovered(joints.drop_last(), r) + if covered(r, joints.last()) {
            0nat
        } else {
            1nat
        }
    }
}

proof fn lemma_uncovered_shrinks(joints: Seq<(u64, u64)>, r: Seq<u64>, r2: Seq<u64>)
    requires
        forall|x: u64| r.contains(x) ==> r2.contains(x),
    ensures
        uncovered(joints, r2) <= uncovered(joints, r),
    decreases joints.len(),
{
    if joints.len() > 0 {
        lemma_uncovered_shrinks(joints.drop_last(), r, r2);
    }
}

proof fn lemma_uncovered_drops(joints: Seq<(u64, u64)>, r: Seq<u64>, r2: Seq<u64>, t: int)
    requires
        forall|x: u64| r.contains(x) ==> r2.contains(x),
        0 <= t < joints.len(),
        !covered(r, joints[t]),
        covered(r2, joints[t]),
    ensures
        uncovered(joints, r2) < uncovered(joints, r),
    decreases joints.len(),
{
    lemma_uncovered_shrinks(joints.drop_last(), r, r2);
    if t < joints.len() - 1 {
        assert(joints.drop_last()[t] == joints[t]);
        lemma_uncovered_drops(joints.drop_last(), r, r2, t);
    }
}

fn listed(r: &Vec<u64>, x: u64) -> (b: bool)
    ensures
        b == r@.contains(x),
{
    let mut i: usize = 0;
    while i < r.len()
        invariant
            i <= r@.len(),
            forall|j: int| 0 <= j < i ==> r@[j] != x,
        decreases r.len() - i,
    {
        if r[i] == x {
            return true;
        }
        i = i + 1;
    }
    false
}

/// The bodies attached to `start` through `joints`, each once, as a
/// multibody's mass gathers them: `start` first, then each body joined to
/// one listed before it, until every body joined to a listed one is listed.
pub fn attached_bodies(start: u64, joints: &Vec<(u64, u64)>) -> (r: Vec<u64>)
    ensures
        r@.len() > 0,
        r@[0] == start,
        r@.no_duplicates(),
        forall|i: int| 0 < i < r@.len() ==> exists|j: int| 0 <= j < i && joined(joints@, r@[j], #[trigger] r@[i]),
        forall|i: int, b: u64| 0 <= i < r@.len() && #[trigger] joined(joints@, r@[i], b) ==> r@.contains(b),
{
    let js = joints;
    let mut r: Vec<u64> = Vec::new();
    r.push(start);
    let mut k: usize = 0;
    while k < r.len()
        invariant
            r@.len() > 0,
            r@[0] == start,
            k <= r@.len(),
            r@.no_duplicates(),
            forall|i: int| 0 < i < r@.len() ==> exists|j: int| 0 <= j < i && joined(js@, r@[j], #[trigger] r@[i]),
            forall|i: int, b: u64| 0 <= i < k && #[trigger] joined(js@, r@[i], b) ==> r@.contains(b),
        decreases uncovered(js@, r@), r@.len() - k,
    {
        let node = r[k];
        let ghost r0 = r@;
        let mut t: usize = 0;
        while t < js.len()
            invariant
                0 <= k < r@.len(),
                r@[k as int] == node,
                r@.len() >= r0.len(),
                r@.subrange(0, r0.len() as int) == r0,
                r@[0] == start,
                t <= js@.len(),
                r@.no_duplicates(),
                forall|i: int| 0 < i < r@.len() ==> exists|j: int| 0 <= j < i && joined(js@, r@[j], #[trigger] r@[i]),
                forall|x: u64| r0.contains(x) ==> r@.contains(x),
                uncovered(js@, r@) <= uncovered(js@, r0),
                r@.len() > r0.len() ==> uncovered(js@, r@) < uncovered(js@, r0),
                forall|u: int| 0 <= u < t ==> #[trigger] covered(r@, js@[u]) || (js@[u].0 != node && js@[u].1 != node),
            decreases js.len() - t,
        {
            let (a, b) = js[t];
            let ghost before = r@;
            proof {
                assert(r@.contains(node)) by {
                    assert(r@[k as int] == node);
                }
            }
            if a == node && !listed(&r, b) {
                r.push(b);
                proof {
                    assert(joined(js@, node, b)) by {
                        assert(js@[t as int] == (node, b));
                    }
                    assert forall|x: u64| before.contains(x) implies r@.contains(x) by {
                        let i = choose|i: int| 0 <= i < before.len() && before[i] == x;
                        assert(r@[i] == x);
                    }
                    assert(r@[before.len() as int] == b);
                    lemma_uncovered_drops(js@, before, r@, t as int);
                    lemma_uncovered_shrinks(js@, r0, before);
                }
            } else if b == node && !listed(&r, a) {
                r.push(a);
                proof {
                    assert(joined(js@, node, a)) by {
                        assert(js@[t as int] == (a, node));
                    }
                    assert forall|x: u64| before.contains(x) implies r@.contains(x) by {
                        let i = choose|i: int| 0 <= i < before.len() && before[i] == x;
                        assert(r@[i] == x);
                    }
                    assert(r@[before.len() as int] == a);
                    lemma_uncovered_drops(js@, before, r@, t as int);
                    lemma_uncovered_shrinks(js@, r0, before);
                }
            }
            proof {
                assert forall|x: u64| before.contains(x) implies r@.contains(x) by {
                    let i = choose|i: int| 0 <= i < before.len() && before[i] == x;
                    assert(r@[i] == x);
                }
                assert forall|i: int| 0 < i < r@.len() implies exists|j: int|
                    0 <= j < i && joined(js@, r@[j], #[trigger] r@[i]) by {
                    if i < before.len() {
                        assert(r@[i] == before[i]);
                        let j = choose|j: int| 0 <= j < i && joined(js@, before[j], #[trigger] before[i]);
                        assert(r@[j] == before[j]);
                    } else {
                        assert(r@[k as int] == node);
                    }
                }
                assert forall|u: int| 0 <= u < t + 1 implies #[trigger] covered(r@, js@[u]) || (js@[u].0 != node
                    && js@[u].1 != node) by {
                    if u < t && covered(before, js@[u]) {
                    }
                }
            }
            t = t + 1;
        }
        proof {
            assert forall|i: int, b: u64| 0 <= i < k + 1 && #[trigger] joined(js@, r@[i], b) implies r@.contains(b) by {
                if i < k {
                    assert(r@[i] == r0[i]);
                    assert(joined(js@, r0[i], b));
                } else {
                    let u = choose|u: int| 0 <= u < js@.len() && (#[trigger] js@[u] == (r@[i], b) || js@[u] == (b, r@[i]));
                    assert(covered(r@, js@[u]) || (js@[u].0 != node && js@[u].1 != node));
                }
            }
        }
        k = k + 1;
    }
    r
}

// ----------------------------------------------------------------------
// Order of the physics systems
// ----------------------------------------------------------------------

/// The labels of the physics systems.
#[derive(Debug, Clone, Copy, PartialEq, Eq, Hash, Structural)]
pub enum PhysicsSystem {
    AddRigidBodies,
    AddJoints,
    AddColliders,
    AddMultibodies,
    UpdateImpulse,
    UpdateForce,
    UpdateGravityScale,
    UpdateMultibodyMass,
    UpdateJointMotors,
    PipelineStep,
    SendCollisionEvents,
    UpdateBevyWorld,
}

/// The systems that a system is scheduled after.
pub open spec fn after_spec(s: PhysicsSystem) -> Seq<PhysicsSystem> {
    match s {
        PhysicsSystem::AddRigidBodies => Seq::empty(),
        PhysicsSystem::AddJoints => seq![PhysicsSystem::AddRigidBodies],
        PhysicsSystem::AddColliders => seq![PhysicsSystem::AddRigidBodies],
        PhysicsSystem::AddMultibodies => seq![PhysicsSystem::AddJoints],
        PhysicsSystem::UpdateImpulse => seq![PhysicsSystem::AddColliders],
        PhysicsSystem::UpdateForce => seq![PhysicsSystem::AddColliders],
        PhysicsSystem::UpdateGravityScale => seq![PhysicsSystem::AddColliders],
        PhysicsSystem::UpdateMultibodyMass => seq![PhysicsSystem::AddColliders],
        PhysicsSystem::UpdateJointMotors => seq![PhysicsSystem::AddColliders],
        PhysicsSystem::PipelineStep => seq![PhysicsSystem::UpdateImpulse],
        PhysicsSystem::SendCollisionEvents => seq![PhysicsSystem::PipelineStep],
        PhysicsSystem::UpdateBevyWorld => seq![PhysicsSystem::PipelineStep],
    }
}

/// How many systems at most run before a system in the physics schedule.
pub open spec fn depth(s: PhysicsSystem) -> nat {
    match s {
        PhysicsSystem::AddRigidBodies => 0,
        PhysicsSystem::AddJoints => 1,
        PhysicsSystem::AddColliders => 1,
        PhysicsSystem::AddMultibodies => 2,
        PhysicsSystem::UpdateImpulse => 2,
        PhysicsSystem::UpdateForce => 2,
        PhysicsSystem::UpdateGravityScale => 2,
        PhysicsSystem::UpdateMultibodyMass => 2,
        PhysicsSystem::UpdateJointMotors => 2,
        PhysicsSystem::PipelineStep => 3,
        PhysicsSystem::SendCollisionEvents => 4,
        PhysicsSystem::UpdateBevyWorld => 4,
    }
}

impl PhysicsSystem {
    /// The systems that this system is scheduled after.
    pub fn runs_after(&self) -> (r: Vec<PhysicsSystem>)
        ensures
            r@ == after_spec(*self),
    {
        let r = match self {
            PhysicsSystem::AddRigidBodies => Vec::new(),
            PhysicsSystem::AddJoints => vec![PhysicsSystem::AddRigidBodies],
            PhysicsSystem::AddColliders => vec![PhysicsSystem::AddRigidBodies],
            PhysicsSystem::AddMultibodies => vec![PhysicsSystem::AddJoints],
            PhysicsSystem::UpdateImpulse => vec![PhysicsSystem::AddColliders],
            PhysicsSystem::UpdateForce => vec![PhysicsSystem::AddColliders],
            PhysicsSystem::UpdateGravityScale => vec![PhysicsSystem::AddColliders],
            PhysicsSystem::UpdateMultibodyMass => vec![PhysicsSystem::AddColliders],
            PhysicsSystem::UpdateJointMotors => vec![PhysicsSystem::AddColliders],
            PhysicsSystem::PipelineStep => vec![PhysicsSystem::UpdateImpulse],
            PhysicsSystem::SendCollisionEvents => vec![PhysicsSystem::PipelineStep],
            PhysicsSystem::UpdateBevyWorld => vec![PhysicsSystem::PipelineStep],
        };
        assert(r@ == after_spec(*self));
        r
    }
}

/// The physics schedule has no cycle: every system is scheduled after
/// systems of smaller depth only, so the step runs after the bodies, joints
/// and colliders were added and before the world is updated.
pub proof fn lemma_schedule_acyclic(s: PhysicsSystem, i: int)
    requires
        0 <= i < after_spec(s).len(),
    ensures
        depth(after_spec(s)[i]) < depth(s),
{
}


// ----------------------------------------------------------------------
// Spawned bodies
// ----------------------------------------------------------------------

/// What the physics reports about a newly spawned body. `J` describes a
/// joint (its kind, axis, limits and motor settings).
pub enum SpawnedEvent<J> {
    /// A body that is not a multibody root.
    RigidBodySpawned { id: u64, name: String },
    /// A multibody root, with the joints of its links by entity id (a
    /// `BTreeMap`, so in ascending order of the ids, each id once).
    MultibodySpawned { id: u64, name: String, joints: BTreeMap<u64, J> },
}

/// The joints of the links by entity id: each link that has a joint maps
/// its id to that joint, a later link with the same id replacing an earlier
/// one, as collecting the pairs into a map does.
pub open spec fn joints_by_id<J>(entries: Seq<(u64, Option<J>)>) -> Map<u64, J>
    decreases entries.len(),
{
    if entries.len() == 0 {
        Map::empty()
    } else {
        let rest = joints_by_id(entries.drop_last());
        match entries.last().1 {
            Some(j) => rest.insert(entries.last().0, j),
            None => rest,
        }
    }
}

/// Whether entry `i` of `entries` is a link with id `id` that has a joint.
pub open spec fn has_joint_at<J>(entries: Seq<(u64, Option<J>)>, i: int, id: u64) -> bool {
    0 <= i < entries.len() && entries[i].0 == id && entries[i].1 is Some
}

/// The joints reported by id: an id is reported exactly when some link with
/// that id has a joint, and it is reported with the joint of the last such
/// link.
pub proof fn lemma_joints_by_id<J>(entries: Seq<(u64, Option<J>)>, id: u64)
    ensures
        joints_by_id(entries).dom().contains(id) <==> exists|i: int| #[trigger] has_joint_at(entries, i, id),
        forall|i: int|
            #[trigger] has_joint_at(entries, i, id) && (forall|j: int| i < j < entries.len() ==> !has_joint_at(
                entries,
                j,
                id,
            )) ==> joints_by_id(entries)[id] == entries[i].1->0,
    decreases entries.len(),
{
    if entries.len() > 0 {
        let front = entries.drop_last();
        let n = entries.len() - 1;
        lemma_joints_by_id(front, id);
        assert forall|i: int| 0 <= i < n implies #[trigger] has_joint_at(entries, i, id) == has_joint_at(front, i, id) by {
            assert(front[i] == entries[i]);
        }
        if has_joint_at(entries, n, id) {
            assert forall|i: int| #[trigger] has_joint_at(entries, i, id) && (forall|j: int|
                i < j < entries.len() ==> !has_joint_at(entries, j, id)) implies joints_by_id(entries)[id]
                == entries[i].1->0 by {
                if i < n {
                    assert(!has_joint_at(entries, n, id));
                }
            }
        } else {
            if exists|i: int| #[trigger] has_joint_at(entries, i, id) {
                let i = choose|i: int| #[trigger] has_joint_at(entries, i, id);
                assert(i < n);
                assert(has_joint_at(front, i, id));
            }
            if exists|i: int| #[trigger] has_joint_at(front, i, id) {
                let i = choose|i: int| #[trigger] has_joint_at(front, i, id);
                assert(has_joint_at(entries, i, id));
            }
            assert forall|i: int| #[trigger] has_joint_at(entries, i, id) && (forall|j: int|
                i < j < entries.len() ==> !has_joint_at(entries, j, id)) implies joints_by_id(entries)[id]
                == entries[i].1->0 by {
                assert(i < n);
                assert(has_joint_at(front, i, id));
                assert forall|j: int| i < j < front.len() implies !has_joint_at(front, j, id) by {
                    assert(!has_joint_at(entries, j, id));
                }
                assert(front[i] == entries[i]);
            }
        }
    }
}

/// `u64` keys are ordered as a `BTreeMap` needs them to be.
pub open spec fn u64_keys_ordered() -> bool {
    vstd::laws_cmp::obeys_cmp::<u64>()
}

proof fn lemma_u64_keys_ordered()
    ensures
        u64_keys_ordered(),
{
    broadcast use vstd::laws_cmp::group_laws_cmp;
}

/// The report for a newly spawned body with entity id `id` and name `name`.
/// A multibody root (`root` holds its multibody name and, for each link of
/// its map, the link's entity id and its revolute or prismatic joint if it
/// has one) is reported with the links that have such a joint, by id; any
/// other body is reported by its own name.
pub fn spawned_event<J>(id: u64, name: String, root: Option<(String, Vec<(u64, Option<J>)>)>) -> (r: SpawnedEvent<J>)
    ensures
        match root {
            None => r == SpawnedEvent::<J>::RigidBodySpawned { id, name },
            Some((root_name, entries)) => match r {
                SpawnedEvent::MultibodySpawned { id: rid, name: rname, joints } => rid == id && rname
                    == root_name && joints@ == joints_by_id(entries@),
                _ => false,
            },
        },
{
    match root {
        None => SpawnedEvent::RigidBodySpawned { id, name },
        Some((root_name, entries)) => {
            proof {
                lemma_u64_keys_ordered();
            }
            let ghost all = entries@;
            let mut entries = entries;
            let mut joints: BTreeMap<u64, J> = BTreeMap::new();
            let mut k: usize = 0;
            assert(all.len() == entries.len());
            assert(all.take(0) == Seq::<(u64, Option<J>)>::empty());
            while entries.len() > 0
                invariant
                    u64_keys_ordered(),
                    k + entries@.len() == all.len(),
                    all.len() <= usize::MAX,
                    entries@ == all.skip(k as int),
                    joints@ == joints_by_id(all.take(k as int)),
                decreases entries.len(),
            {
                let (e, j) = entries.remove(0);
                proof {
                    assert(all[k as int] == (e, j));
                    assert(all.take(k + 1).drop_last() == all.take(k as int));
                    assert(all.take(k + 1).last() == all[k as int]);
                }
                if let Some(j) = j {
                    let _replaced = joints.insert(e, j);
                }
                k = k + 1;
                assert(entries@ == all.skip(k as int));
            }
            assert(all.take(k as int) == all);
            SpawnedEvent::MultibodySpawned { id, name: root_name, joints }
        },
    }
}

} // verus!
