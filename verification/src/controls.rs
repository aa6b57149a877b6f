//! Keyboard control of the built-in robots: which control events the keys
//! of a frame raise, and which joint motors the events drive.

use vstd::prelude::*;
use crate::multibody::ChildMap;
use crate::physics::PhysicEvent;

verus! {

/// The state of one key in a frame.
#[derive(Debug, Clone, Copy, PartialEq, Eq, Hash, Structural)]
pub struct KeyState {
    /// The key is held down.
    pub pressed: bool,
    /// The key went down in this frame.
    pub just_pressed: bool,
    /// The key went up in this frame.
    pub just_released: bool,
}

/// A direction to drive a joint in, or stopping it.
#[derive(Debug, Clone, Copy, PartialEq, Eq, Hash, Structural)]
pub enum Drive {
    Positive,
    Negative,
    Stop,
}

/// The drive that a pair of keys asks for: the positive key going down, else
/// the negative key going down, else either of them going up.
pub open spec fn drive_spec(positive: KeyState, negative: KeyState) -> Option<Drive> {
    if positive.just_pressed {
        Some(Drive::Positive)
    } else if negative.just_pressed {
        Some(Drive::Negative)
    } else if positive.just_released || negative.just_released {
        Some(Drive::Stop)
    } else {
        None
    }
}

/// The drive that a pair of keys asks for in this frame.
pub fn drive_from_keys(positive: KeyState, negative: KeyState) -> (r: Option<Drive>)
    ensures
        r == drive_spec(positive, negative),
{
    if positive.just_pressed {
        Some(Drive::Positive)
    } else if negative.just_pressed {
        Some(Drive::Negative)
    } else if positive.just_released || negative.just_released {
        Some(Drive::Stop)
    } else {
        None
    }
}

/// A motor target in units of a controller setting: the setting, its
/// negation, or zero.
#[derive(Debug, Clone, Copy, PartialEq, Eq, Hash, Structural)]
pub enum Scale {
    Full,
    NegFull,
    Zero,
}

/// The opposite target.
pub open spec fn neg(s: Scale) -> Scale {
    match s {
        Scale::Full => Scale::NegFull,
        Scale::NegFull => Scale::Full,
        Scale::Zero => Scale::Zero,
    }
}

fn negate(s: Scale) -> (r: Scale)
    ensures
        r == neg(s),
{
    match s {
        Scale::Full => Scale::NegFull,
        Scale::NegFull => Scale::Full,
        Scale::Zero => Scale::Zero,
    }
}

/// The target for a drive.
pub open spec fn drive_scale(d: Drive) -> Scale {
    match d {
        Drive::Positive => Scale::Full,
        Drive::Negative => Scale::NegFull,
        Drive::Stop => Scale::Zero,
    }
}

fn scale_of(d: Drive) -> (r: Scale)
    ensures
        r == drive_scale(d),
{
    match d {
        Drive::Positive => Scale::Full,
        Drive::Negative => Scale::NegFull,
        Drive::Stop => Scale::Zero,
    }
}

/// A selection event of the multibody picker.
#[derive(Debug, Clone, Copy, PartialEq, Eq, Hash, Structural)]
pub enum SelectionEvent {
    Selected(u64),
    Deselected(u64),
}

/// Whether a robot's controller is attached to or detached from a body.
#[derive(Debug, Clone, Copy, PartialEq, Eq, Hash, Structural)]
pub enum ControlChange {
    Attach(u64),
    Detach(u64),
}

/// What selecting or deselecting a body does to the controller of a robot
/// model: a selected body named as the model gets the controller, a
/// deselected one loses it; other bodies are left alone.
pub fn control_change(event: SelectionEvent, body_name: Option<&str>, model_name: &str) -> (r: Option<ControlChange>)
    ensures
        r == (match body_name {
            Some(n) if n@ == model_name@ => match event {
                SelectionEvent::Selected(e) => Some(ControlChange::Attach(e)),
                SelectionEvent::Deselected(e) => Some(ControlChange::Detach(e)),
            },
            _ => None,
        }),
{
    match body_name {
        Some(n) => {
            let a = n.to_owned();
            let b = model_name.to_owned();
            if a == b {
                match event {
                    SelectionEvent::Selected(e) => Some(ControlChange::Attach(e)),
                    SelectionEvent::Deselected(e) => Some(ControlChange::Detach(e)),
                }
            } else {
                None
            }
        },
        None => None,
    }
}

/// The physics request of the space bar: going down toggles the physics
/// between running and paused.
pub fn physic_state_key(space: KeyState) -> (r: Option<PhysicEvent>)
    ensures
        r == (if space.just_pressed {
            Some(PhysicEvent::TogglePhysics)
        } else {
            None
        }),
{
    if space.just_pressed {
        Some(PhysicEvent::TogglePhysics)
    } else {
        None
    }
}

// ----------------------------------------------------------------------
// The car
// ----------------------------------------------------------------------

/// Name of the car model.
pub open spec fn car_name() -> Seq<char> {
    "car"@
}

pub open spec fn right_front_wheel_turn() -> Seq<char> {
    "right_front_wheel_y"@
}

pub open spec fn left_front_wheel_turn() -> Seq<char> {
    "left_front_wheel_y"@
}

pub open spec fn right_rear_wheel() -> Seq<char> {
    "right_rear_wheel_x"@
}

pub open spec fn left_rear_wheel() -> Seq<char> {
    "left_rear_wheel_x"@
}

#[derive(Debug, Clone, Copy, PartialEq, Eq, Hash, Structural)]
pub enum CarVelocity {
    Forward,
    Backward,
    NoVelocity,
}

#[derive(Debug, Clone, Copy, PartialEq, Eq, Hash, Structural)]
pub enum CarDirection {
    Left,
    Right,
    NoAngle,
}

#[derive(Debug, Clone, Copy, PartialEq, Eq, Hash, Structural)]
pub enum CarControlEvent {
    Velocity(CarVelocity),
    Direction(CarDirection),
}

/// The keys that drive the car: W and S for speed, A and D for steering.
#[derive(Debug, Clone, Copy, PartialEq, Eq, Hash, Structural)]
pub struct CarKeys {
    pub w: KeyState,
    pub s: KeyState,
    pub a: KeyState,
    pub d: KeyState,
}

/// The speed request of the keys: W going down drives forward, S going down
/// backward, and W or S going up stops.
pub open spec fn car_velocity_spec(k: CarKeys) -> Option<CarVelocity> {
    if k.w.just_pressed {
        Some(CarVelocity::Forward)
    } else if k.s.just_pressed {
        Some(CarVelocity::Backward)
    } else if k.s.just_released || k.w.just_released {
        Some(CarVelocity::NoVelocity)
    } else {
        None
    }
}

/// The steering request of the keys: A going down, or A held while D goes
/// up, steers left; D going down, or D held while A goes up, steers right;
/// otherwise D or A going up straightens the wheels.
pub open spec fn car_direction_spec(k: CarKeys) -> Option<CarDirection> {
    if k.a.just_pressed || (k.a.pressed && k.d.just_released) {
        Some(CarDirection::Left)
    } else if k.d.just_pressed || (k.d.pressed && k.a.just_released) {
        Some(CarDirection::Right)
    } else if k.d.just_released || k.a.just_released {
        Some(CarDirection::NoAngle)
    } else {
        None
    }
}

/// The control events of the car for the keys of a frame: the speed request
/// first, then the steering request.
pub open spec fn car_events_spec(k: CarKeys) -> Seq<CarControlEvent> {
    (match car_velocity_spec(k) {
        Some(v) => seq![CarControlEvent::Velocity(v)],
        None => Seq::empty(),
    }) + (match car_direction_spec(k) {
        Some(d) => seq![CarControlEvent::Direction(d)],
        None => Seq::empty(),
    })
}

/// The control events of the car for the keys of a frame: the speed request
/// first, then the steering request.
pub fn car_control_events(k: CarKeys) -> (r: Vec<CarControlEvent>)
    ensures
        r@ == car_events_spec(k),
{
    let mut r: Vec<CarControlEvent> = Vec::new();
    if k.w.just_pressed {
        r.push(CarControlEvent::Velocity(CarVelocity::Forward));
    } else if k.s.just_pressed {
        r.push(CarControlEvent::Velocity(CarVelocity::Backward));
    } else if k.s.just_released || k.w.just_released {
        r.push(CarControlEvent::Velocity(CarVelocity::NoVelocity));
    }
    if k.a.just_pressed || (k.a.pressed && k.d.just_released) {
        r.push(CarControlEvent::Direction(CarDirection::Left));
    } else if k.d.just_pressed || (k.d.pressed && k.a.just_released) {
        r.push(CarControlEvent::Direction(CarDirection::Right));
    } else if k.d.just_released || k.a.just_released {
        r.push(CarControlEvent::Direction(CarDirection::NoAngle));
    }
    r
}

/// A motor command for a joint of the car, in units of the car controller:
/// a wheel speed (in units of its maximum speed, with its damping factor) or
/// a steering angle (in units of its maximum angle, with its damping and
/// stiffness).
#[derive(Debug, Clone, Copy, PartialEq, Eq, Hash, Structural)]
pub enum CarMotor {
    Velocity(Scale),
    Position(Scale),
}

/// The commands, as (joint, command) pairs, that a control event of the car
/// sends, given the map of the car's links; a joint missing from the map
/// gets no command. The rear wheels turn in opposite senses, as do the
/// steering joints.
pub open spec fn car_motor_spec(event: CarControlEvent, joints: Map<Seq<char>, u64>) -> Seq<(u64, CarMotor)> {
    let (first, second) = match event {
        CarControlEvent::Velocity(v) => {
            let s = match v {
                CarVelocity::Forward => Scale::Full,
                CarVelocity::Backward => Scale::NegFull,
                CarVelocity::NoVelocity => Scale::Zero,
            };
            ((right_rear_wheel(), CarMotor::Velocity(neg(s))), (left_rear_wheel(), CarMotor::Velocity(s)))
        },
        CarControlEvent::Direction(d) => {
            let s = match d {
                CarDirection::Left => Scale::Full,
                CarDirection::Right => Scale::NegFull,
                CarDirection::NoAngle => Scale::Zero,
            };
            ((left_front_wheel_turn(), CarMotor::Position(neg(s))), (right_front_wheel_turn(), CarMotor::Position(s)))
        },
    };
    (if joints.dom().contains(first.0) {
        seq![(joints[first.0], first.1)]
    } else {
        Seq::empty()
    }) + (if joints.dom().contains(second.0) {
        seq![(joints[second.0], second.1)]
    } else {
        Seq::empty()
    })
}

fn push_if_present(r: &mut Vec<(u64, CarMotor)>, joints: &ChildMap, name: &str, motor: CarMotor)
    ensures
        final(r)@ == old(r)@ + (if joints@.dom().contains(name@) {
            seq![(joints@[name@], motor)]
        } else {
            Seq::empty()
        }),
{
    if let Some(e) = joints.get(name) {
        r.push((e, motor));
    }
}

/// The joint commands that a control event of the car sends.
pub fn car_motor_commands(event: CarControlEvent, joints: &ChildMap) -> (r: Vec<(u64, CarMotor)>)
    ensures
        r@ == car_motor_spec(event, joints@),
{
    let mut r: Vec<(u64, CarMotor)> = Vec::new();
    match event {
        CarControlEvent::Velocity(v) => {
            let s = match v {
                CarVelocity::Forward => Scale::Full,
                CarVelocity::Backward => Scale::NegFull,
                CarVelocity::NoVelocity => Scale::Zero,
            };
            let rr = "right_rear_wheel_x";
            let lr = "left_rear_wheel_x";
            proof {
                reveal_strlit("right_rear_wheel_x");
                reveal_strlit("left_rear_wheel_x");
            }
            push_if_present(&mut r, joints, rr, CarMotor::Velocity(negate(s)));
            push_if_present(&mut r, joints, lr, CarMotor::Velocity(s));
        },
        CarControlEvent::Direction(d) => {
            let s = match d {
                CarDirection::Left => Scale::Full,
                CarDirection::Right => Scale::NegFull,
                CarDirection::NoAngle => Scale::Zero,
            };
            let lf = "left_front_wheel_y";
            let rf = "right_front_wheel_y";
            proof {
                reveal_strlit("left_front_wheel_y");
                reveal_strlit("right_front_wheel_y");
            }
            push_if_present(&mut r, joints, lf, CarMotor::Position(negate(s)));
            push_if_present(&mut r, joints, rf, CarMotor::Position(s));
        },
    }
    r
}

// ----------------------------------------------------------------------
// Wheely
// ----------------------------------------------------------------------

/// Name of the Wheely model.
pub open spec fn wheely_name() -> Seq<char> {
    "wheely"@
}

/// The joints of Wheely that the keys drive.
#[derive(Debug, Clone, Copy, PartialEq, Eq, Hash, Structural)]
pub enum WheelyJoint {
    LeftWheel,
    RightWheel,
    ArmLink1,
    ArmLink2,
}

/// The name of the link of a Wheely joint.
pub open spec fn wheely_joint_name(j: WheelyJoint) -> Seq<char> {
    match j {
        WheelyJoint::LeftWheel => "left_wheel"@,
        WheelyJoint::RightWheel => "right_wheel"@,
        WheelyJoint::ArmLink1 => "arm_joint_1"@,
        WheelyJoint::ArmLink2 => "arm_joint_2"@,
    }
}

/// The name of the link of a Wheely joint, as the link is named when
/// Wheely is spawned.
pub fn wheely_joint_label(j: WheelyJoint) -> (r: &'static str)
    ensures
        r@ == wheely_joint_name(j),
{
    match j {
        WheelyJoint::LeftWheel => {
            proof {
                reveal_strlit("left_wheel");
            }
            "left_wheel"
        },
        WheelyJoint::RightWheel => {
            proof {
                reveal_strlit("right_wheel");
            }
            "right_wheel"
        },
        WheelyJoint::ArmLink1 => {
            proof {
                reveal_strlit("arm_joint_1");
            }
            "arm_joint_1"
        },
        WheelyJoint::ArmLink2 => {
            proof {
                reveal_strlit("arm_joint_2");
            }
            "arm_joint_2"
        },
    }
}

/// A control event of Wheely: a joint and how to drive it (`Positive` is
/// forward for the wheels).
#[derive(Debug, Clone, Copy, PartialEq, Eq, Hash, Structural)]
pub struct WheelyControlEvent {
    pub joint: WheelyJoint,
    pub drive: Drive,
}

/// The keys that drive Wheely: Q and A for the left wheel, E and D for the
/// right wheel, R and F for the first arm link, T and G for the second.
#[derive(Debug, Clone, Copy, PartialEq, Eq, Hash, Structural)]
pub struct WheelyKeys {
    pub q: KeyState,
    pub a: KeyState,
    pub e: KeyState,
    pub d: KeyState,
    pub r: KeyState,
    pub f: KeyState,
    pub t: KeyState,
    pub g: KeyState,
}

/// The event of one joint for a pair of keys.
pub open spec fn joint_event(j: WheelyJoint, positive: KeyState, negative: KeyState) -> Seq<WheelyControlEvent> {
    match drive_spec(positive, negative) {
        Some(d) => seq![WheelyControlEvent { joint: j, drive: d }],
        None => Seq::empty(),
    }
}

/// The control events of Wheely for the keys of a frame: left wheel, right
/// wheel, first and second arm link, each at most once.
pub open spec fn wheely_events_spec(k: WheelyKeys) -> Seq<WheelyControlEvent> {
    joint_event(WheelyJoint::LeftWheel, k.q, k.a) + joint_event(WheelyJoint::RightWheel, k.e, k.d)
        + joint_event(WheelyJoint::ArmLink1, k.r, k.f) + joint_event(WheelyJoint::ArmLink2, k.t, k.g)
}

fn push_joint_event(r: &mut Vec<WheelyControlEvent>, j: WheelyJoint, positive: KeyState, negative: KeyState)
    ensures
        final(r)@ == old(r)@ + joint_event(j, positive, negative),
{
    if let Some(d) = drive_from_keys(positive, negative) {
        r.push(WheelyControlEvent { joint: j, drive: d });
    }
}

/// The control events of Wheely for the keys of a frame.
pub fn wheely_control_events(k: WheelyKeys) -> (r: Vec<WheelyControlEvent>)
    ensures
        r@ == wheely_events_spec(k),
{
    let mut r: Vec<WheelyControlEvent> = Vec::new();
    push_joint_event(&mut r, WheelyJoint::LeftWheel, k.q, k.a);
    push_joint_event(&mut r, WheelyJoint::RightWheel, k.e, k.d);
    push_joint_event(&mut r, WheelyJoint::ArmLink1, k.r, k.f);
    push_joint_event(&mut r, WheelyJoint::ArmLink2, k.t, k.g);
    r
}

/// A motor command for a joint of Wheely, in units of the Wheely controller:
/// a revolute speed (wheels and first arm link), a prismatic speed (second
/// arm link), or holding the position with stiffness 1.
#[derive(Debug, Clone, Copy, PartialEq, Eq, Hash, Structural)]
pub enum WheelyMotor {
    VelocityRevolute { joint: WheelyJoint, scale: Scale },
    VelocityPrismatic { joint: WheelyJoint, scale: Scale },
    HoldPosition,
}

/// The command of a Wheely control event: the wheels are driven at their
/// speed, forward, backward or zero; the arm links are driven at their own
/// speeds and hold their position when their keys go up.
pub open spec fn wheely_motor_spec(e: WheelyControlEvent) -> WheelyMotor {
    match e.joint {
        WheelyJoint::LeftWheel | WheelyJoint::RightWheel => WheelyMotor::VelocityRevolute {
            joint: e.joint,
            scale: drive_scale(e.drive),
        },
        WheelyJoint::ArmLink1 => match e.drive {
            Drive::Stop => WheelyMotor::HoldPosition,
            _ => WheelyMotor::VelocityRevolute { joint: e.joint, scale: drive_scale(e.drive) },
        },
        WheelyJoint::ArmLink2 => match e.drive {
            Drive::Stop => WheelyMotor::HoldPosition,
            _ => WheelyMotor::VelocityPrismatic { joint: e.joint, scale: drive_scale(e.drive) },
        },
    }
}

/// The joint command, as (joint entity, command), that a control event of
/// Wheely sends. The joint must be in the map of Wheely's links.
pub fn wheely_motor_command(e: WheelyControlEvent, joints: &ChildMap) -> (r: (u64, WheelyMotor))
    requires
        joints@.dom().contains(wheely_joint_name(e.joint)),
    ensures
        r == (joints@[wheely_joint_name(e.joint)], wheely_motor_spec(e)),
{
    let name = wheely_joint_label(e.joint);
    let entity = match joints.get(name) {
        Some(x) => x,
        None => 0,
    };
    let motor = match e.joint {
        WheelyJoint::LeftWheel | WheelyJoint::RightWheel => WheelyMotor::VelocityRevolute {
            joint: e.joint,
            scale: scale_of(e.drive),
        },
        WheelyJoint::ArmLink1 => match e.drive {
            Drive::Stop => WheelyMotor::HoldPosition,
            _ => WheelyMotor::VelocityRevolute { joint: e.joint, scale: scale_of(e.drive) },
        },
        WheelyJoint::ArmLink2 => match e.drive {
            Drive::Stop => WheelyMotor::HoldPosition,
            _ => WheelyMotor::VelocityPrismatic { joint: e.joint, scale: scale_of(e.drive) },
        },
    };
    (entity, motor)
}

/// The two rear wheels of the car always get opposite speeds, so that the
/// car drives straight.
pub proof fn lemma_car_rear_wheels_opposite(v: CarVelocity, joints: Map<Seq<char>, u64>)
    requires
        joints.dom().contains(right_rear_wheel()),
        joints.dom().contains(left_rear_wheel()),
    ensures
        car_motor_spec(CarControlEvent::Velocity(v), joints).len() == 2,
        ({
            let c = car_motor_spec(CarControlEvent::Velocity(v), joints);
            c[0].1 matches CarMotor::Velocity(a) && c[1].1 matches CarMotor::Velocity(b) && a == neg(b)
        }),
{
}

// ----------------------------------------------------------------------
// Laws of the keyboard controls
// ----------------------------------------------------------------------

/// The speed keys of the car: W going down asks for forward speed, else S
/// going down for backward speed, else W or S going up (either of them)
/// stops the car; the speed event comes first and there is at most one.
/// When neither key goes down or up there is no speed event.
pub proof fn lemma_car_speed_keys(k: CarKeys)
    ensures
        ({
            let es = car_events_spec(k);
            let asked = k.w.just_pressed || k.s.just_pressed || k.w.just_released || k.s.just_released;
            &&& es.len() <= 2
            &&& asked ==> es.len() >= 1 && es[0] == CarControlEvent::Velocity(
                if k.w.just_pressed {
                    CarVelocity::Forward
                } else if k.s.just_pressed {
                    CarVelocity::Backward
                } else {
                    CarVelocity::NoVelocity
                },
            )
            &&& forall|i: int| 0 <= i < es.len() && (i > 0 || !asked) ==> #[trigger] es[i] is Direction
        }),
{
}

/// The steering keys of the car: A going down (or A held while D goes up)
/// steers left, else D going down (or D held while A goes up) steers right,
/// else A or D going up straightens the wheels; the steering event comes
/// last and there is at most one.
pub proof fn lemma_car_steering_keys(k: CarKeys)
    ensures
        ({
            let es = car_events_spec(k);
            let left = k.a.just_pressed || (k.a.pressed && k.d.just_released);
            let right = k.d.just_pressed || (k.d.pressed && k.a.just_released);
            let asked = left || right || k.a.just_released || k.d.just_released;
            &&& asked ==> es.len() >= 1 && es[es.len() - 1] == CarControlEvent::Direction(
                if left {
                    CarDirection::Left
                } else if right {
                    CarDirection::Right
                } else {
                    CarDirection::NoAngle
                },
            )
            &&& forall|i: int| 0 <= i < es.len() && (i < es.len() - 1 || !asked) ==> #[trigger] es[i] is Velocity
        }),
{
}

/// The opposite motor command.
pub open spec fn motor_neg(m: CarMotor) -> CarMotor {
    match m {
        CarMotor::Velocity(s) => CarMotor::Velocity(neg(s)),
        CarMotor::Position(s) => CarMotor::Position(neg(s)),
    }
}

/// Steering left and steering right drive the same joints to opposite
/// angles, as driving forward and backward drive the same wheels at
/// opposite speeds; straightening and stopping send zero.
pub proof fn lemma_car_opposite_commands(joints: Map<Seq<char>, u64>)
    ensures
        ({
            let l = car_motor_spec(CarControlEvent::Direction(CarDirection::Left), joints);
            let r = car_motor_spec(CarControlEvent::Direction(CarDirection::Right), joints);
            &&& l.len() == r.len()
            &&& forall|i: int| 0 <= i < l.len() ==> (#[trigger] l[i]).0 == r[i].0 && l[i].1 == motor_neg(r[i].1)
        }),
        ({
            let f = car_motor_spec(CarControlEvent::Velocity(CarVelocity::Forward), joints);
            let b = car_motor_spec(CarControlEvent::Velocity(CarVelocity::Backward), joints);
            &&& f.len() == b.len()
            &&& forall|i: int| 0 <= i < f.len() ==> (#[trigger] f[i]).0 == b[i].0 && f[i].1 == motor_neg(b[i].1)
        }),
        forall|i: int|
            0 <= i < car_motor_spec(CarControlEvent::Direction(CarDirection::NoAngle), joints).len() ==> (#[trigger] car_motor_spec(
                CarControlEvent::Direction(CarDirection::NoAngle),
                joints,
            )[i]).1 == CarMotor::Position(Scale::Zero),
        forall|i: int|
            0 <= i < car_motor_spec(CarControlEvent::Velocity(CarVelocity::NoVelocity), joints).len() ==> (#[trigger] car_motor_spec(
                CarControlEvent::Velocity(CarVelocity::NoVelocity),
                joints,
            )[i]).1 == CarMotor::Velocity(Scale::Zero),
{
}

/// With both steering joints present, steering left turns the right front
/// joint to the full angle and the left front joint to its negation, and
/// steering right the other way round.
pub proof fn lemma_car_steer_left(joints: Map<Seq<char>, u64>)
    requires
        joints.dom().contains("left_front_wheel_y"@),
        joints.dom().contains("right_front_wheel_y"@),
    ensures
        car_motor_spec(CarControlEvent::Direction(CarDirection::Left), joints) == seq![
            (joints["left_front_wheel_y"@], CarMotor::Position(Scale::NegFull)),
            (joints["right_front_wheel_y"@], CarMotor::Position(Scale::Full)),
        ],
        car_motor_spec(CarControlEvent::Direction(CarDirection::Right), joints) == seq![
            (joints["left_front_wheel_y"@], CarMotor::Position(Scale::Full)),
            (joints["right_front_wheel_y"@], CarMotor::Position(Scale::NegFull)),
        ],
{
}

/// The keys of a Wheely joint: Q and A the left wheel, E and D the right
/// wheel, R and F the first arm link, T and G the second.
pub open spec fn wheely_keys_of(k: WheelyKeys, j: WheelyJoint) -> (KeyState, KeyState) {
    match j {
        WheelyJoint::LeftWheel => (k.q, k.a),
        WheelyJoint::RightWheel => (k.e, k.d),
        WheelyJoint::ArmLink1 => (k.r, k.f),
        WheelyJoint::ArmLink2 => (k.t, k.g),
    }
}

/// Each joint of Wheely is driven by its own two keys only: its positive
/// key going down drives it positive, else its negative key going down
/// negative, else either going up stops it; each joint gets at most one
/// event, and none when its keys neither go down nor up.
pub proof fn lemma_wheely_keys(k: WheelyKeys, j: WheelyJoint)
    ensures
        ({
            let es = wheely_events_spec(k);
            let (p, n) = wheely_keys_of(k, j);
            &&& forall|a: int, b: int|
                0 <= a < es.len() && 0 <= b < es.len() && (#[trigger] es[a]).joint == j && (#[trigger] es[b]).joint == j
                    ==> a == b
            &&& (p.just_pressed || n.just_pressed || p.just_released || n.just_released) ==> exists|i: int|
                0 <= i < es.len() && #[trigger] es[i] == WheelyControlEvent {
                    joint: j,
                    drive: if p.just_pressed {
                        Drive::Positive
                    } else if n.just_pressed {
                        Drive::Negative
                    } else {
                        Drive::Stop
                    },
                }
            &&& !(p.just_pressed || n.just_pressed || p.just_released || n.just_released) ==> forall|i: int|
                0 <= i < es.len() ==> (#[trigger] es[i]).joint != j
        }),
{
    let a1 = joint_event(WheelyJoint::LeftWheel, k.q, k.a);
    let a2 = joint_event(WheelyJoint::RightWheel, k.e, k.d);
    let a3 = joint_event(WheelyJoint::ArmLink1, k.r, k.f);
    let a4 = joint_event(WheelyJoint::ArmLink2, k.t, k.g);
    let es = wheely_events_spec(k);
    assert(es == a1 + a2 + a3 + a4);
    let o2 = a1.len() as int;
    let o3 = o2 + a2.len();
    let o4 = o3 + a3.len();
    assert(es.len() == o4 + a4.len());
    assert forall|i: int| 0 <= i < es.len() implies (#[trigger] es[i]).joint == (if i < o2 {
        WheelyJoint::LeftWheel
    } else if i < o3 {
        WheelyJoint::RightWheel
    } else if i < o4 {
        WheelyJoint::ArmLink1
    } else {
        WheelyJoint::ArmLink2
    }) && (i < o2 ==> es[i] == a1[i]) && (o2 <= i < o3 ==> es[i] == a2[i - o2]) && (o3 <= i < o4 ==> es[i]
        == a3[i - o3]) && (o4 <= i ==> es[i] == a4[i - o4]) by {
        if i < o2 {
            assert(es[i] == a1[i]);
        } else if i < o3 {
            assert(es[i] == a2[i - o2]);
        } else if i < o4 {
            assert(es[i] == a3[i - o3]);
        } else {
            assert(es[i] == a4[i - o4]);
        }
    }
    let (p, n) = wheely_keys_of(k, j);
    if p.just_pressed || n.just_pressed || p.just_released || n.just_released {
        match j {
            WheelyJoint::LeftWheel => {
                assert(es[0] == a1[0]);
            },
            WheelyJoint::RightWheel => {
                assert(es[o2] == a2[0]);
            },
            WheelyJoint::ArmLink1 => {
                assert(es[o3] == a3[0]);
            },
            WheelyJoint::ArmLink2 => {
                assert(es[o4] == a4[0]);
            },
        }
    }
}

/// The commands of Wheely's joints: driving a joint positive or negative
/// sends opposite speeds (a sliding speed for the second arm link, a
/// turning speed for the others); releasing the keys stops a wheel and
/// makes an arm link hold its position.
pub proof fn lemma_wheely_commands(j: WheelyJoint)
    ensures
        wheely_motor_spec(WheelyControlEvent { joint: j, drive: Drive::Positive }) == (if j == WheelyJoint::ArmLink2 {
            WheelyMotor::VelocityPrismatic { joint: j, scale: Scale::Full }
        } else {
            WheelyMotor::VelocityRevolute { joint: j, scale: Scale::Full }
        }),
        wheely_motor_spec(WheelyControlEvent { joint: j, drive: Drive::Negative }) == (if j == WheelyJoint::ArmLink2 {
            WheelyMotor::VelocityPrismatic { joint: j, scale: Scale::NegFull }
        } else {
            WheelyMotor::VelocityRevolute { joint: j, scale: Scale::NegFull }
        }),
        wheely_motor_spec(WheelyControlEvent { joint: j, drive: Drive::Stop }) == (if j == WheelyJoint::LeftWheel || j
            == WheelyJoint::RightWheel {
            WheelyMotor::VelocityRevolute { joint: j, scale: Scale::Zero }
        } else {
            WheelyMotor::HoldPosition
        }),
{
}

} // verus!
