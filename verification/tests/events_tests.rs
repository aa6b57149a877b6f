use kesko::models::{spawn_menu, spawn_window_open, Model, SpawnEvent};
use kesko::physics::{
    attached_bodies, entities_to_despawn, next_state, physic_action, toggled, PhysicAction, PhysicEvent, PhysicState,
    PhysicsSystem,
};
use kesko::multibody::ChildMap;
use kesko::tcp::gather_responses;
use kesko::simulator::motor_targets;
use kesko::simulator::{
    first_multibody_states, handle_system_events, SimulatorRequestEvent, SimulatorResponseEvent,
    SystemAction,
};

#[test]
fn model_names() {
    assert_eq!(Model::Car.name(), "Car");
    assert_eq!(Model::Snake.name(), "Snake");
    assert_eq!(Model::Spider.name(), "Spider");
    assert_eq!(Model::Sphere.name(), "Sphere");
    assert_eq!(Model::Wheely.name(), "Wheely");
    assert_eq!(Model::Humanoid.name(), "Humanoid");
    assert_eq!(Model::Arena.name(), "Arena");
    assert_eq!(Model::Plane.name(), "Plane");
}

#[test]
fn wheeled_models() {
    assert!(Model::Car.has_wheels());
    assert!(Model::Wheely.has_wheels());
    assert!(!Model::Sphere.has_wheels());
    assert!(!Model::Arena.has_wheels());
}

#[test]
fn spawn_menu_lists_five_models() {
    assert_eq!(spawn_menu(), vec![Model::Sphere, Model::Car, Model::Snake, Model::Spider, Model::Wheely]);
}

#[test]
fn spawn_window_opens_on_request() {
    let none: Vec<SpawnEvent<u8>> = vec![SpawnEvent::Spawn { model: Model::Car, placement: 0 }];
    assert!(!spawn_window_open(false, &none));
    assert!(spawn_window_open(true, &none));
    let open: Vec<SpawnEvent<u8>> = vec![SpawnEvent::Spawn { model: Model::Car, placement: 0 }, SpawnEvent::OpenWindow];
    assert!(spawn_window_open(false, &open));
}

#[test]
fn system_events_exit_and_alive() {
    let reqs: Vec<SimulatorRequestEvent<u8>> = vec![
        SimulatorRequestEvent::GetState,
        SimulatorRequestEvent::IsAlive,
        SimulatorRequestEvent::ApplyMotorCommand { entity: 3, command: 1 },
        SimulatorRequestEvent::ExitApp,
    ];
    let actions: Vec<SystemAction<()>> = handle_system_events(&reqs);
    assert_eq!(actions.len(), 3);
    assert!(matches!(actions[0], SystemAction::Respond(SimulatorResponseEvent::Alive)));
    assert!(matches!(actions[1], SystemAction::ExitApp));
    assert!(matches!(actions[2], SystemAction::Respond(SimulatorResponseEvent::WillExitApp)));
}

#[test]
fn first_states_are_reported() {
    let events: Vec<SimulatorResponseEvent<u32>> = vec![
        SimulatorResponseEvent::Alive,
        SimulatorResponseEvent::MultibodyStates(5),
        SimulatorResponseEvent::Success("ok".to_owned()),
        SimulatorResponseEvent::MultibodyStates(6),
    ];
    assert_eq!(first_multibody_states(&events), Some(&5));
    let none: Vec<SimulatorResponseEvent<u32>> =
        vec![SimulatorResponseEvent::WillExitApp, SimulatorResponseEvent::Failure("no".to_owned())];
    assert_eq!(first_multibody_states(&none), None);
    let empty: Vec<SimulatorResponseEvent<u32>> = Vec::new();
    assert_eq!(first_multibody_states(&empty), None);
}

#[test]
fn physic_actions() {
    assert_eq!(physic_action(PhysicState::Running, PhysicEvent::PausePhysics), PhysicAction::SetState(PhysicState::Stopped));
    assert_eq!(physic_action(PhysicState::Stopped, PhysicEvent::RunPhysics), PhysicAction::SetState(PhysicState::Running));
    assert_eq!(physic_action(PhysicState::Stopped, PhysicEvent::TogglePhysics), PhysicAction::SetState(PhysicState::Running));
    assert_eq!(physic_action(PhysicState::Running, PhysicEvent::TogglePhysics), PhysicAction::SetState(PhysicState::Stopped));
    assert_eq!(physic_action(PhysicState::Running, PhysicEvent::DespawnBody(4)), PhysicAction::Despawn(4));
    assert_eq!(physic_action(PhysicState::Running, PhysicEvent::DespawnAll), PhysicAction::DespawnAll);
}

#[test]
fn toggle_twice_restores_state() {
    assert_eq!(toggled(toggled(PhysicState::Running)), PhysicState::Running);
    assert_eq!(toggled(toggled(PhysicState::Stopped)), PhysicState::Stopped);
}

#[test]
fn next_state_uses_last_request() {
    assert_eq!(next_state(PhysicState::Running, &vec![]), None);
    assert_eq!(next_state(PhysicState::Running, &vec![PhysicEvent::DespawnAll]), None);
    assert_eq!(
        next_state(PhysicState::Running, &vec![PhysicEvent::PausePhysics, PhysicEvent::RunPhysics]),
        Some(PhysicState::Running)
    );
    // both toggles are read against the state the frame started in
    assert_eq!(
        next_state(PhysicState::Running, &vec![PhysicEvent::TogglePhysics, PhysicEvent::TogglePhysics]),
        Some(PhysicState::Stopped)
    );
    assert_eq!(
        next_state(PhysicState::Stopped, &vec![PhysicEvent::RunPhysics, PhysicEvent::DespawnBody(1)]),
        Some(PhysicState::Running)
    );
}

#[test]
fn despawning_a_root_despawns_its_links() {
    assert_eq!(entities_to_despawn(9, None), vec![9]);
    let mut m = ChildMap::new();
    m.insert("a".to_owned(), 10);
    m.insert("b".to_owned(), 11);
    assert_eq!(entities_to_despawn(9, Some(&m)), vec![9, 10, 11]);
}

#[test]
fn physics_schedule() {
    assert!(PhysicsSystem::AddRigidBodies.runs_after().is_empty());
    assert_eq!(PhysicsSystem::AddJoints.runs_after(), vec![PhysicsSystem::AddRigidBodies]);
    assert_eq!(PhysicsSystem::AddMultibodies.runs_after(), vec![PhysicsSystem::AddJoints]);
    assert_eq!(PhysicsSystem::PipelineStep.runs_after(), vec![PhysicsSystem::UpdateImpulse]);
    assert_eq!(PhysicsSystem::UpdateBevyWorld.runs_after(), vec![PhysicsSystem::PipelineStep]);
    assert_eq!(PhysicsSystem::SendCollisionEvents.runs_after(), vec![PhysicsSystem::PipelineStep]);
    assert_eq!(PhysicsSystem::UpdateJointMotors.runs_after(), vec![PhysicsSystem::AddColliders]);
}

#[test]
fn motor_targets_in_order() {
    let reqs: Vec<SimulatorRequestEvent<Vec<(u64, i32)>>> = vec![
        SimulatorRequestEvent::ApplyMotorCommand { entity: 1, command: vec![(10, 1), (11, -2)] },
        SimulatorRequestEvent::GetState,
        SimulatorRequestEvent::ApplyMotorCommand { entity: 2, command: vec![] },
        SimulatorRequestEvent::ApplyMotorCommand { entity: 3, command: vec![(12, 3)] },
    ];
    assert_eq!(motor_targets(reqs), vec![(10, 1), (11, -2), (12, 3)]);
    let none: Vec<SimulatorRequestEvent<Vec<(u64, i32)>>> = vec![SimulatorRequestEvent::IsAlive];
    assert!(motor_targets(none).is_empty());
}

#[test]
fn responses_gathered_in_order() {
    assert_eq!(gather_responses(vec![1], vec![2, 3], vec![4]), Some(vec![1, 2, 3, 4]));
    assert_eq!(gather_responses(Vec::<u8>::new(), vec![], vec![5]), Some(vec![5]));
    assert_eq!(gather_responses(Vec::<u8>::new(), vec![], vec![]), None);
}

#[test]
fn attached_bodies_of_a_multibody() {
    // a tree: 1 - 2 - 3, 2 - 4; 9 - 10 is another multibody
    let joints = vec![(1, 2), (2, 3), (2, 4), (9, 10)];
    let mut from_3 = attached_bodies(3, &joints);
    assert_eq!(from_3[0], 3);
    from_3.sort();
    assert_eq!(from_3, vec![1, 2, 3, 4]);
    assert_eq!(attached_bodies(10, &joints), vec![10, 9]);
    assert_eq!(attached_bodies(7, &joints), vec![7]);
}
