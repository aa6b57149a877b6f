use kesko::controls::{
    car_control_events, car_motor_commands, control_change, drive_from_keys, physic_state_key,
    wheely_control_events, wheely_joint_label, wheely_motor_command, CarControlEvent, CarDirection, CarKeys, CarMotor,
    CarVelocity, ControlChange, Drive, KeyState, Scale, SelectionEvent, WheelyControlEvent, WheelyJoint,
    WheelyKeys, WheelyMotor,
};
use kesko::multibody::ChildMap;
use kesko::physics::PhysicEvent;

const UP: KeyState = KeyState { pressed: false, just_pressed: false, just_released: false };
const DOWN: KeyState = KeyState { pressed: true, just_pressed: true, just_released: false };
const HELD: KeyState = KeyState { pressed: true, just_pressed: false, just_released: false };
const RELEASED: KeyState = KeyState { pressed: false, just_pressed: false, just_released: true };

#[test]
fn drive_of_key_pairs() {
    assert_eq!(drive_from_keys(DOWN, UP), Some(Drive::Positive));
    assert_eq!(drive_from_keys(DOWN, DOWN), Some(Drive::Positive));
    assert_eq!(drive_from_keys(UP, DOWN), Some(Drive::Negative));
    assert_eq!(drive_from_keys(RELEASED, HELD), Some(Drive::Stop));
    assert_eq!(drive_from_keys(HELD, RELEASED), Some(Drive::Stop));
    assert_eq!(drive_from_keys(HELD, UP), None);
}

#[test]
fn car_keys() {
    let k = CarKeys { w: DOWN, s: UP, a: UP, d: UP };
    assert_eq!(car_control_events(k), vec![CarControlEvent::Velocity(CarVelocity::Forward)]);
    let k = CarKeys { w: RELEASED, s: UP, a: DOWN, d: UP };
    assert_eq!(
        car_control_events(k),
        vec![CarControlEvent::Velocity(CarVelocity::NoVelocity), CarControlEvent::Direction(CarDirection::Left)]
    );
    // A held while D goes up steers back to the left
    let k = CarKeys { w: UP, s: HELD, a: HELD, d: RELEASED };
    assert_eq!(car_control_events(k), vec![CarControlEvent::Direction(CarDirection::Left)]);
    let k = CarKeys { w: UP, s: DOWN, a: RELEASED, d: HELD };
    assert_eq!(
        car_control_events(k),
        vec![CarControlEvent::Velocity(CarVelocity::Backward), CarControlEvent::Direction(CarDirection::Right)]
    );
    let k = CarKeys { w: UP, s: UP, a: RELEASED, d: UP };
    assert_eq!(car_control_events(k), vec![CarControlEvent::Direction(CarDirection::NoAngle)]);
    assert!(car_control_events(CarKeys { w: HELD, s: UP, a: HELD, d: UP }).is_empty());
}

fn car_joints() -> ChildMap {
    let mut m = ChildMap::new();
    m.insert("right_rear_wheel_x".to_owned(), 1);
    m.insert("left_rear_wheel_x".to_owned(), 2);
    m.insert("left_front_wheel_y".to_owned(), 3);
    m.insert("right_front_wheel_y".to_owned(), 4);
    m
}

#[test]
fn car_motors() {
    let m = car_joints();
    assert_eq!(
        car_motor_commands(CarControlEvent::Velocity(CarVelocity::Forward), &m),
        vec![(1, CarMotor::Velocity(Scale::NegFull)), (2, CarMotor::Velocity(Scale::Full))]
    );
    assert_eq!(
        car_motor_commands(CarControlEvent::Velocity(CarVelocity::NoVelocity), &m),
        vec![(1, CarMotor::Velocity(Scale::Zero)), (2, CarMotor::Velocity(Scale::Zero))]
    );
    assert_eq!(
        car_motor_commands(CarControlEvent::Direction(CarDirection::Right), &m),
        vec![(3, CarMotor::Position(Scale::Full)), (4, CarMotor::Position(Scale::NegFull))]
    );
    let mut partial = ChildMap::new();
    partial.insert("left_rear_wheel_x".to_owned(), 2);
    assert_eq!(
        car_motor_commands(CarControlEvent::Velocity(CarVelocity::Backward), &partial),
        vec![(2, CarMotor::Velocity(Scale::NegFull))]
    );
    assert!(car_motor_commands(CarControlEvent::Direction(CarDirection::Left), &partial).is_empty());
}

#[test]
fn wheely_keys() {
    let k = WheelyKeys { q: DOWN, a: UP, e: UP, d: DOWN, r: RELEASED, f: UP, t: UP, g: UP };
    assert_eq!(
        wheely_control_events(k),
        vec![
            WheelyControlEvent { joint: WheelyJoint::LeftWheel, drive: Drive::Positive },
            WheelyControlEvent { joint: WheelyJoint::RightWheel, drive: Drive::Negative },
            WheelyControlEvent { joint: WheelyJoint::ArmLink1, drive: Drive::Stop },
        ]
    );
    let idle = WheelyKeys { q: UP, a: UP, e: UP, d: UP, r: UP, f: UP, t: UP, g: HELD };
    assert!(wheely_control_events(idle).is_empty());
}

#[test]
fn wheely_motors() {
    let mut m = ChildMap::new();
    m.insert("left_wheel".to_owned(), 1);
    m.insert("right_wheel".to_owned(), 2);
    m.insert("arm_joint_1".to_owned(), 3);
    m.insert("arm_joint_2".to_owned(), 4);
    let e = WheelyControlEvent { joint: WheelyJoint::LeftWheel, drive: Drive::Stop };
    assert_eq!(
        wheely_motor_command(e, &m),
        (1, WheelyMotor::VelocityRevolute { joint: WheelyJoint::LeftWheel, scale: Scale::Zero })
    );
    let e = WheelyControlEvent { joint: WheelyJoint::RightWheel, drive: Drive::Negative };
    assert_eq!(
        wheely_motor_command(e, &m),
        (2, WheelyMotor::VelocityRevolute { joint: WheelyJoint::RightWheel, scale: Scale::NegFull })
    );
    let e = WheelyControlEvent { joint: WheelyJoint::ArmLink1, drive: Drive::Stop };
    assert_eq!(wheely_motor_command(e, &m), (3, WheelyMotor::HoldPosition));
    let e = WheelyControlEvent { joint: WheelyJoint::ArmLink2, drive: Drive::Positive };
    assert_eq!(
        wheely_motor_command(e, &m),
        (4, WheelyMotor::VelocityPrismatic { joint: WheelyJoint::ArmLink2, scale: Scale::Full })
    );
}

#[test]
fn controller_follows_selection() {
    assert_eq!(
        control_change(SelectionEvent::Selected(5), Some("car"), "car"),
        Some(ControlChange::Attach(5))
    );
    assert_eq!(
        control_change(SelectionEvent::Deselected(5), Some("car"), "car"),
        Some(ControlChange::Detach(5))
    );
    assert_eq!(control_change(SelectionEvent::Selected(5), Some("wheely"), "car"), None);
    assert_eq!(control_change(SelectionEvent::Selected(5), None, "car"), None);
}

#[test]
fn space_toggles_physics() {
    assert_eq!(physic_state_key(DOWN), Some(PhysicEvent::TogglePhysics));
    assert_eq!(physic_state_key(HELD), None);
    assert_eq!(physic_state_key(RELEASED), None);
}

#[test]
fn wheely_joint_labels() {
    assert_eq!(wheely_joint_label(WheelyJoint::LeftWheel), "left_wheel");
    assert_eq!(wheely_joint_label(WheelyJoint::RightWheel), "right_wheel");
    assert_eq!(wheely_joint_label(WheelyJoint::ArmLink1), "arm_joint_1");
    assert_eq!(wheely_joint_label(WheelyJoint::ArmLink2), "arm_joint_2");
}
