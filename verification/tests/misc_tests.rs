use kesko::joint::{
    display_column, joint_table, listed_joint_type, LinkJoints, prismatic_reading, reported_joint_type, revolute_reading, Component,
    JointType, KeskoAxis,
};
use kesko::material::set_initial_material;
use kesko::nora;
use kesko::plugins::{CorePlugin, CorePlugins, DefaultPhysicsPlugin, InteractionGroup, PluginKind};
use kesko::triangle::Triangle;
use kesko::controls::SelectionEvent;
use kesko::ui_state::{MultibodyUiState, RootInfo};

#[test]
fn test_set_initial_material() {
    // an entity without a remembered material remembers the one it has
    let material = 42u32;
    let original = set_initial_material(None, material);
    assert!(original.is_some());
    if let Some(original) = original {
        assert_eq!(original, material);
    }
    // a remembered material stays
    assert_eq!(set_initial_material(original, 7), Some(42));
}

#[test]
fn joint_readings() {
    assert_eq!(prismatic_reading(KeskoAxis::X), Some((Component::X, false)));
    assert_eq!(prismatic_reading(KeskoAxis::NegY), Some((Component::Y, true)));
    assert_eq!(prismatic_reading(KeskoAxis::Z), Some((Component::Z, false)));
    assert_eq!(prismatic_reading(KeskoAxis::AngX), None);
    assert_eq!(revolute_reading(KeskoAxis::NegZ), Some(Component::Z));
    assert_eq!(revolute_reading(KeskoAxis::Y), Some(Component::Y));
    assert_eq!(revolute_reading(KeskoAxis::AngY), None);
    assert_eq!(display_column(KeskoAxis::X), Some(Component::X));
    assert_eq!(display_column(KeskoAxis::NegX), None);
}

#[test]
fn joint_types_listed() {
    assert_eq!(listed_joint_type(true, true, true), Some(JointType::Revolute));
    assert_eq!(listed_joint_type(false, true, true), Some(JointType::Prismatic));
    assert_eq!(listed_joint_type(false, false, true), Some(JointType::Spherical));
    assert_eq!(listed_joint_type(false, false, false), None);
    assert_eq!(reported_joint_type(false, true), Some(JointType::Prismatic));
    assert_eq!(reported_joint_type(false, false), None);
}

#[test]
fn plugin_groups() {
    assert_eq!(
        CorePlugins.members(),
        vec![
            PluginKind::Core,
            PluginKind::UI,
            PluginKind::MainCamera,
            PluginKind::DefaultPhysics,
            PluginKind::Interaction(InteractionGroup::Dynamic),
            PluginKind::Interaction(InteractionGroup::Static),
            PluginKind::Model,
        ]
    );
    assert_eq!(
        DefaultPhysicsPlugin.members(),
        vec![PluginKind::GravityPhysics, PluginKind::Grabable(InteractionGroup::Dynamic)]
    );
    assert_eq!(
        nora::CorePlugins.members(),
        vec![PluginKind::Core, PluginKind::Menu, PluginKind::MainCamera, PluginKind::GravityPhysics]
    );
    let s = CorePlugin.settings();
    assert_eq!(s.title, "Kesko 0.1-alpha");
    assert_eq!((s.width, s.height), (1280, 720));
    assert!(s.fit_canvas_to_parent);
    assert_eq!(s.canvas, "#kesko-wasm");
    assert_eq!(s.msaa_samples, 4);
    assert_eq!(s.clear_color_hex, "FFFFFF");
}

#[test]
fn triangles() {
    let t = Triangle::from_slice(&[[0.0f32, 0.0, 0.0], [1.0, 0.0, 0.0], [0.0, 1.0, 0.0], [9.0, 9.0, 9.0]]);
    assert_eq!(t.v0, [0.0, 0.0, 0.0]);
    assert_eq!(t.v1, [1.0, 0.0, 0.0]);
    assert_eq!(t.v2, [0.0, 1.0, 0.0]);
    let u = Triangle::from_array([1u8, 2, 3]);
    assert_eq!((u.v0, u.v1, u.v2), (1, 2, 3));
    let n = Triangle::new(4, 5, 6);
    assert_eq!((n.v0, n.v1, n.v2), (4, 5, 6));
}

#[test]
fn multibody_window_selection() {
    let mut ui: MultibodyUiState<Vec<u8>> = MultibodyUiState::new();
    assert!(!ui.ui_open);
    ui.multibody_joints = Some(vec![1]);
    ui.parse_event(
        SelectionEvent::Selected(3),
        Some(RootInfo { name: "car-3".to_owned(), control_description: Some("WASD".to_owned()) }),
    );
    assert!(ui.ui_open);
    assert_eq!(ui.multibody_root, Some(3));
    assert_eq!(ui.multibody_name.as_deref(), Some("car-3"));
    assert_eq!(ui.control_description.as_deref(), Some("WASD"));
    assert!(ui.multibody_joints.is_none());
    // deselecting another root changes nothing
    ui.parse_event(SelectionEvent::Deselected(4), None);
    assert!(ui.ui_open);
    assert_eq!(ui.multibody_root, Some(3));
    // a root that cannot be found keeps the shown name
    ui.parse_event(SelectionEvent::Selected(8), None);
    assert_eq!(ui.multibody_root, Some(8));
    assert_eq!(ui.multibody_name.as_deref(), Some("car-3"));
    ui.parse_event(SelectionEvent::Deselected(8), None);
    assert!(!ui.ui_open);
    assert_eq!(ui.multibody_root, None);
    assert_eq!(ui.multibody_name, None);
    assert_eq!(ui.control_description, None);
}

#[test]
fn joint_table_lists_jointed_links_in_order() {
    let link = |name: &str, entity: u64, revolute: bool, prismatic: bool, spherical: bool| LinkJoints {
        name: name.to_owned(),
        entity,
        revolute,
        prismatic,
        spherical,
    };
    let rows = joint_table(vec![
        link("arm", 1, false, true, false),
        link("base", 2, false, false, false),
        link("neck", 3, false, false, true),
        link("wheel", 4, true, true, false),
    ]);
    assert_eq!(
        rows,
        vec![
            ("arm".to_owned(), 1, JointType::Prismatic),
            ("neck".to_owned(), 3, JointType::Spherical),
            ("wheel".to_owned(), 4, JointType::Revolute),
        ]
    );
}
