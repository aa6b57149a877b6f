//! Requests that the outside world sends to the simulator, and what the
//! simulator answers.

use vstd::prelude::*;

verus! {

/// A request to the simulator. `C` is a motor command: joint ids and the
/// positions they are to reach.
pub enum SimulatorRequestEvent<C> {
    GetState,
    ExitApp,
    IsAlive,
    ApplyMotorCommand { entity: u64, command: C },
}

/// An answer of the simulator. `S` is the serializable state of the
/// multibodies.
pub enum SimulatorResponseEvent<S> {
    MultibodyStates(S),
    WillExitApp,
    Alive,
    /// What the wire format calls `Ok`: a success, with a message.
    Success(String),
    /// What the wire format calls `Err`: a failure, with a message.
    Failure(String),
}

/// What the simulator does for a system request: exit the app, or answer.
pub enum SystemAction<S> {
    ExitApp,
    Respond(SimulatorResponseEvent<S>),
}

/// The actions that one request leads to: `ExitApp` exits the app and
/// answers that it will, `IsAlive` answers that the simulator is alive, and
/// the other requests are handled elsewhere.
pub open spec fn system_actions<C, S>(req: SimulatorRequestEvent<C>) -> Seq<SystemAction<S>> {
    match req {
        SimulatorRequestEvent::ExitApp => seq![
            SystemAction::ExitApp,
            SystemAction::Respond(SimulatorResponseEvent::WillExitApp),
        ],
        SimulatorRequestEvent::IsAlive => seq![SystemAction::Respond(SimulatorResponseEvent::Alive)],
        _ => Seq::empty(),
    }
}

/// The actions for a sequence of requests, request by request.
pub open spec fn all_system_actions<C, S>(reqs: Seq<SimulatorRequestEvent<C>>) -> Seq<SystemAction<S>>
    decreases reqs.len(),
{
    if reqs.len() == 0 {
        Seq::empty()
    } else {
        all_system_actions(reqs.drop_last()) + system_actions(reqs.last())
    }
}

/// Handles the system requests of a frame: for each `ExitApp` the app is
/// asked to exit and `WillExitApp` is answered, for each `IsAlive` `Alive`
/// is answered.
pub fn handle_system_events<C, S>(reqs: &Vec<SimulatorRequestEvent<C>>) -> (r: Vec<SystemAction<S>>)
    ensures
        r@ == all_system_actions::<C, S>(reqs@),
{
    let mut r: Vec<SystemAction<S>> = Vec::new();
    let mut i: usize = 0;
    while i < reqs.len()
        invariant
            i <= reqs@.len(),
            r@ == all_system_actions::<C, S>(reqs@.take(i as int)),
        decreases reqs.len() - i,
    {
        proof {
            assert(reqs@.take(i + 1).drop_last() == reqs@.take(i as int));
            assert(reqs@.take(i + 1).last() == reqs@[i as int]);
        }
        match &reqs[i] {
            SimulatorRequestEvent::ExitApp => {
                r.push(SystemAction::ExitApp);
                r.push(SystemAction::Respond(SimulatorResponseEvent::WillExitApp));
            },
            SimulatorRequestEvent::IsAlive => {
                r.push(SystemAction::Respond(SimulatorResponseEvent::Alive));
            },
            _ => {},
        }
        i = i + 1;
        assert(r@ == all_system_actions::<C, S>(reqs@.take(i as int)));
    }
    assert(reqs@.take(reqs@.len() as int) == reqs@);
    r
}

/// Whether an answer carries the state of the multibodies.
pub open spec fn is_states<S>(e: SimulatorResponseEvent<S>) -> bool {
    e is MultibodyStates
}

/// The first answer among `events` that carries the state of the
/// multibodies, as the Python API reports it after a step.
pub fn first_multibody_states<S>(events: &Vec<SimulatorResponseEvent<S>>) -> (r: Option<&S>)
    ensures
        match r {
            Some(s) => exists|i: int|
                0 <= i < events@.len() && events@[i] == SimulatorResponseEvent::MultibodyStates(*s)
                    && forall|j: int| 0 <= j < i ==> !is_states(#[trigger] events@[j]),
            None => forall|j: int| 0 <= j < events@.len() ==> !is_states(#[trigger] events@[j]),
        },
{
    let mut i: usize = 0;
    while i < events.len()
        invariant
            i <= events@.len(),
            forall|j: int| 0 <= j < i ==> !is_states(#[trigger] events@[j]),
        decreases events.len() - i,
    {
        if let SimulatorResponseEvent::MultibodyStates(s) = &events[i] {
            return Some(s);
        }
        i = i + 1;
    }
    None
}


/// The motor targets that the requests carry: for each `ApplyMotorCommand`,
/// in order, each of its (joint entity, position) pairs in order.
pub open spec fn motor_targets_spec<V>(reqs: Seq<SimulatorRequestEvent<Vec<(u64, V)>>>) -> Seq<(u64, V)>
    decreases reqs.len(),
{
    if reqs.len() == 0 {
        Seq::empty()
    } else {
        motor_targets_spec(reqs.drop_last()) + match reqs.last() {
            SimulatorRequestEvent::ApplyMotorCommand { entity: _, command } => command@,
            _ => Seq::empty(),
        }
    }
}

/// Collects the position targets of the motor command requests of a frame;
/// each becomes a position command for the revolute joint held by the
/// entity.
pub fn motor_targets<V>(reqs: Vec<SimulatorRequestEvent<Vec<(u64, V)>>>) -> (r: Vec<(u64, V)>)
    ensures
        r@ == motor_targets_spec(reqs@),
{
    let ghost all = reqs@;
    let mut reqs = reqs;
    let mut r: Vec<(u64, V)> = Vec::new();
    let mut k: usize = 0;
    assert(all.len() == reqs.len());
    assert(all.take(0) == Seq::<SimulatorRequestEvent<Vec<(u64, V)>>>::empty());
    while reqs.len() > 0
        invariant
            k + reqs@.len() == all.len(),
            all.len() <= usize::MAX,
            reqs@ == all.skip(k as int),
            r@ == motor_targets_spec(all.take(k as int)),
        decreases reqs.len(),
    {
        let req = reqs.remove(0);
        proof {
            assert(all[k as int] == req);
            assert(all.take(k + 1).drop_last() == all.take(k as int));
            assert(all.take(k + 1).last() == all[k as int]);
        }
        if let SimulatorRequestEvent::ApplyMotorCommand { entity: _, command } = req {
            let mut command = command;
            let ghost cmd = command@;
            let ghost before = r@;
            let mut j: usize = 0;
            assert(cmd.len() == command.len());
            while command.len() > 0
                invariant
                    j + command@.len() == cmd.len(),
                    cmd.len() <= usize::MAX,
                    command@ == cmd.skip(j as int),
                    r@ == before + cmd.take(j as int),
                decreases command.len(),
            {
                let t = command.remove(0);
                assert(cmd[j as int] == t);
                r.push(t);
                j = j + 1;
                assert(cmd.take(j as int) == cmd.take(j - 1).push(t));
                assert(command@ == cmd.skip(j as int));
            }
            assert(cmd.take(j as int) == cmd);
        }
        k = k + 1;
        assert(reqs@ == all.skip(k as int));
    }
    assert(all.take(k as int) == all);
    r
}

} // verus!
