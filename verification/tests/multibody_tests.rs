use kesko::multibody::{build_child_map, label_of, multibody_name, ChildMap, LinkInfo};
use kesko::text::decimal_string;
use kesko::physics::{spawned_event, SpawnedEvent};

#[test]
fn test_name() {
    // the root of a multibody named "Root" gets its entity index appended
    let index: u32 = 7;
    let expected_name = format!("Root-{}", index);
    assert_eq!(multibody_name(Some("Root"), index, true), expected_name)
}

#[test]
fn names_of_links_and_unnamed_bodies() {
    assert_eq!(multibody_name(Some("arm"), 3, false), "arm");
    assert_eq!(multibody_name(None, 12, false), "12");
    assert_eq!(multibody_name(None, 12, true), "12-12");
    assert_eq!(label_of(None, 0), "0");
    assert_eq!(label_of(Some("leg"), 5), "leg");
}

#[test]
fn decimal_rendering() {
    assert_eq!(decimal_string(0), "0");
    assert_eq!(decimal_string(9), "9");
    assert_eq!(decimal_string(10), "10");
    assert_eq!(decimal_string(4096), "4096");
    assert_eq!(decimal_string(u64::MAX), u64::MAX.to_string());
}

#[test]
fn roots_with_other_entities_get_other_names() {
    assert_ne!(multibody_name(Some("car"), 1, true), multibody_name(Some("car"), 11, true));
    assert_ne!(multibody_name(Some("a-1"), 2, true), multibody_name(Some("a"), 12, true));
}

#[test]
fn child_map_insert_get_values() {
    let mut m = ChildMap::new();
    assert_eq!(m.len(), 0);
    assert_eq!(m.get("wheel"), None);
    m.insert("wheel".to_owned(), 5);
    m.insert("arm".to_owned(), 6);
    assert_eq!(m.len(), 2);
    assert_eq!(m.get("wheel"), Some(5));
    m.insert("wheel".to_owned(), 9);
    assert_eq!(m.len(), 2);
    assert_eq!(m.get("wheel"), Some(9));
    assert_eq!(m.get("arm"), Some(6));
    // names come out in ascending order, whatever order they went in
    assert_eq!(m.values(), vec![6, 9]);
    assert_eq!(m.entries(), vec![("arm".to_owned(), 6), ("wheel".to_owned(), 9)]);
}

fn link(is_root: bool, entity: u64, index: u32, name: Option<&str>, pending: bool) -> LinkInfo {
    LinkInfo { is_root, entity, index, name: name.map(|n| n.to_owned()), pending }
}

#[test]
fn child_map_of_root_leaves_out_root_link() {
    let links = vec![
        link(true, 100, 0, Some("Root"), true),
        link(false, 101, 1, None, true),
        link(false, 102, 2, Some("leg"), true),
        link(false, 103, 3, Some("done"), false),
    ];
    let root_map = build_child_map(&links, true);
    assert_eq!(root_map.len(), 2);
    assert_eq!(root_map.get("Root"), None);
    assert_eq!(root_map.get("1"), Some(101));
    assert_eq!(root_map.get("leg"), Some(102));
    assert_eq!(root_map.get("done"), None);

    let child_map = build_child_map(&links, false);
    assert_eq!(child_map.len(), 3);
    assert_eq!(child_map.get("Root"), Some(100));
}

#[test]
fn child_map_later_link_with_same_name_wins() {
    let links = vec![link(false, 1, 1, Some("x"), true), link(false, 2, 2, Some("x"), true)];
    let m = build_child_map(&links, true);
    assert_eq!(m.len(), 1);
    assert_eq!(m.get("x"), Some(2));
}

#[test]
fn spawned_events() {
    match spawned_event::<u8>(5, "ball".to_owned(), None) {
        SpawnedEvent::RigidBodySpawned { id, name } => {
            assert_eq!(id, 5);
            assert_eq!(name, "ball");
        }
        _ => panic!("expected a rigid body"),
    }
    let root = Some(("car-5".to_owned(), vec![(7, Some(1u8)), (8, None), (9, Some(2u8))]));
    match spawned_event(5, "car".to_owned(), root) {
        SpawnedEvent::MultibodySpawned { id, name, joints } => {
            assert_eq!(id, 5);
            assert_eq!(name, "car-5");
            assert_eq!(joints.into_iter().collect::<Vec<_>>(), vec![(7, 1), (9, 2)]);
        }
        _ => panic!("expected a multibody"),
    }
}

#[test]
fn child_map_keys_in_string_order() {
    let names = ["b", "é", "a", "ab", "B", "", "a b"];
    let mut m = ChildMap::new();
    let mut reference = std::collections::BTreeMap::new();
    for (i, name) in names.iter().enumerate() {
        m.insert((*name).to_owned(), i as u64);
        reference.insert((*name).to_owned(), i as u64);
    }
    let expected: Vec<(String, u64)> = reference.into_iter().collect();
    assert_eq!(m.entries(), expected);
    assert_eq!(m.entries()[0].0, "");
    assert_eq!(m.entries()[1].0, "B");
}

#[test]
fn spawned_joints_by_ascending_id() {
    // links come in name order; the report lists them by entity id, a later
    // link with the same id replacing an earlier one
    let root = Some(("arm-1".to_owned(), vec![(9, Some(1u8)), (3, Some(2u8)), (5, None), (9, Some(4u8))]));
    match spawned_event(1, "arm".to_owned(), root) {
        SpawnedEvent::MultibodySpawned { joints, .. } => {
            assert_eq!(joints.into_iter().collect::<Vec<_>>(), vec![(3, 2), (9, 4)]);
        }
        _ => panic!("expected a multibody"),
    }
}
