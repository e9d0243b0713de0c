use red_engine2::props::{collision, Collision, PointMm, PropKind};

#[test]
fn every_kind_round_trips_through_its_name() {
    for kind in PropKind::ALL {
        assert_eq!(PropKind::from_name(kind.name()), Some(kind));
    }
}

#[test]
fn unknown_prop_names_are_refused() {
    assert_eq!(PropKind::from_name("Sofa"), None);
    assert_eq!(PropKind::from_name(""), None);
    assert_eq!(PropKind::from_name("sofa "), None);
    assert_eq!(PropKind::from_name("vending_machine"), Some(PropKind::VendingMachine));
}

#[test]
fn the_catalogue_has_thirty_nine_kinds_with_distinct_names() {
    assert_eq!(PropKind::ALL.len(), 39);
    let mut names: Vec<&str> = PropKind::ALL.iter().map(|k| k.name()).collect();
    names.sort();
    names.dedup();
    assert_eq!(names.len(), 39);
}

#[test]
fn flowers_and_rugs_are_walk_through_and_trees_block_with_their_trunk() {
    assert_eq!(collision(PropKind::FlowerPatch), Collision::WalkThrough);
    assert_eq!(collision(PropKind::Rug), Collision::WalkThrough);
    for tree in [PropKind::TreeOak, PropKind::TreePine] {
        assert_eq!(collision(tree), Collision::Box { min: PointMm { x: -200, y: 0, z: -200 }, max: PointMm { x: 200, y: 4000, z: 200 } });
    }
    assert_eq!(collision(PropKind::Bush), Collision::Box { min: PointMm { x: -600, y: 0, z: -600 }, max: PointMm { x: 600, y: 900, z: 600 } });
    let special = [PropKind::FlowerPatch, PropKind::Rug, PropKind::TreeOak, PropKind::TreePine, PropKind::Bush];
    for kind in PropKind::ALL {
        if !special.contains(&kind) {
            assert_eq!(collision(kind), Collision::Union, "{kind:?}");
        }
    }
}
