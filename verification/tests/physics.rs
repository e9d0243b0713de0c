use red_engine2::physics::{
    classify, collider_tag, is_fixture, loose_objects, prop_of, Activation, ObjectKindTag, PropLedger, PropState, TickAction, FIXTURE_PROPS,
    PROMOTION_CAP,
};
use red_engine2::props::PropKind;

/// Three loose props far apart (scene objects 1, 2 and 3 after the floor), with 2, 3 and 1 colliders.
fn three_apart() -> PropLedger {
    PropLedger::new(vec![1, 2, 3], &vec![2, 3, 1])
}

/// Activates `prop`, answering its box queries with `touching`; returns the collider ranges
/// handed to the new bodies.
fn activate(ledger: &mut PropLedger, prop: usize, touching: &dyn Fn(usize) -> Vec<usize>) -> Vec<(u32, u32)> {
    ledger.activate(prop, |i| touching(i)).1
}

fn nothing_touches(_: usize) -> Vec<usize> {
    Vec::new()
}

#[test]
fn loose_props_are_liftable_non_fixtures_or_floor_prefabs() {
    let prop = |k| ObjectKindTag::Prop(k);
    // A crate a person can lift, and an apple placed from a floor-mounted prefab.
    assert!(classify(None, true, &prop(PropKind::Crate), Some(true)));
    assert!(classify(None, true, &ObjectKindTag::Group(Some("floor".to_string())), Some(true)));
    // Fixtures stay put whatever their size.
    for k in [PropKind::Refrigerator, PropKind::Sofa, PropKind::Toilet, PropKind::TreeOak] {
        assert!(!classify(None, true, &prop(k), Some(true)), "{k:?}");
    }
    // `"movable": false` wins.
    assert!(!classify(Some(false), true, &prop(PropKind::Chair), Some(true)));
    // `"movable": true` makes anything with bounds loose, even a fixture too big to lift.
    assert!(classify(Some(true), true, &prop(PropKind::Sofa), Some(false)));
    // Too big for a person, no bounds, or animated: not loose.
    assert!(!classify(None, true, &prop(PropKind::DiningTable), Some(false)));
    assert!(!classify(None, true, &prop(PropKind::Crate), None));
    assert!(!classify(Some(true), false, &prop(PropKind::Crate), Some(true)));
    // Groups that are not floor prefabs, and other objects, only when marked movable.
    assert!(!classify(None, true, &ObjectKindTag::Group(Some("wall".to_string())), Some(true)));
    assert!(!classify(None, true, &ObjectKindTag::Group(None), Some(true)));
    assert!(!classify(None, true, &ObjectKindTag::Other, Some(true)));
    assert!(classify(Some(true), true, &ObjectKindTag::Other, Some(true)));
}

#[test]
fn the_fixture_list_names_real_prop_kinds() {
    assert_eq!(FIXTURE_PROPS.len(), 25);
    for name in FIXTURE_PROPS {
        let kind = PropKind::from_name(name).expect(name);
        assert!(is_fixture(kind));
    }
    assert!(!is_fixture(PropKind::Crate));
    assert!(!is_fixture(PropKind::Chair));
    assert!(!is_fixture(PropKind::TrafficCone));
    assert_eq!(PropKind::ALL.iter().filter(|k| is_fixture(**k)).count(), 25);
}

#[test]
fn collider_tags_lead_back_to_their_prop() {
    assert_eq!(collider_tag(0), 1);
    assert_eq!(collider_tag(41), 42);
    for p in [0usize, 1, 7, 1000, usize::MAX] {
        assert_eq!(prop_of(collider_tag(p)), Some(p));
    }
    assert_eq!(prop_of(0), None);
}

#[test]
fn a_new_ledger_lays_the_colliders_out_prop_after_prop() {
    let w = three_apart();
    assert_eq!(w.len(), 3);
    assert_eq!(w.state(0), PropState::Static { collider_start: 0, collider_count: 2 });
    assert_eq!(w.state(1), PropState::Static { collider_start: 2, collider_count: 3 });
    assert_eq!(w.state(2), PropState::Static { collider_start: 5, collider_count: 1 });
    assert_eq!(w.movable_indices(), vec![1, 2, 3]);
    assert_eq!(w.object_index(2), 3);
    assert_eq!(w.prop_of_object(2), Some(1));
    assert_eq!(w.prop_of_object(0), None);
    assert_eq!(w.held(), None);
}

#[test]
fn untouched_props_stay_static_instances() {
    let mut w = three_apart();
    for _ in 0..120 {
        assert!(w.tick(&Vec::new()).is_empty());
    }
    assert!((0..3).all(|i| w.is_static(i) && w.entity_of(i).is_none()));
    assert_eq!(w.dynamic_count(), 0);
}

#[test]
fn touching_one_prop_promotes_only_it() {
    let mut w = three_apart();
    let ranges = activate(&mut w, 1, &nothing_touches);
    assert_eq!(ranges, vec![(2, 3)], "the new body takes over the prop's own colliders");
    assert_eq!(w.dynamic_count(), 1);
    assert!(!w.is_static(1) && w.is_static(0) && w.is_static(2));
    assert_eq!(w.entity_of(1), Some(0));
    assert_eq!(w.state(1), PropState::Dynamic { entity: 0, settled: false });
    // Activating it again changes nothing.
    assert!(activate(&mut w, 1, &nothing_touches).is_empty());
    assert_eq!(w.dynamic_count(), 1);
    assert_eq!(w.promote(1), None);
}

#[test]
fn promotion_spreads_to_what_rests_on_a_prop() {
    // A crate (object 1) with an apple on it (object 2), and a crate across the room (object 3).
    let mut w = PropLedger::new(vec![1, 2, 3], &vec![1, 1, 1]);
    let crate_id = w.prop_of_object(1).unwrap();
    let touching = |p: usize| if p == 0 { vec![1] } else if p == 1 { vec![0] } else { vec![] };
    activate(&mut w, crate_id, &touching);
    assert_eq!(w.dynamic_count(), 2, "the crate and its apple");
    assert_eq!(w.dynamic_props(), &vec![0, 1]);
    assert!(w.is_static(w.prop_of_object(3).unwrap()), "but not the crate across the room");
}

#[test]
fn one_disturbance_promotes_at_most_forty_props() {
    // Fifty crates in a row, each touching its neighbours.
    let n = 50;
    let mut w = PropLedger::new((1..=n).collect(), &vec![1; n]);
    let touching = move |p: usize| {
        let mut t = Vec::new();
        if p > 0 {
            t.push(p - 1);
        }
        if p + 1 < n {
            t.push(p + 1);
        }
        t
    };
    activate(&mut w, 0, &touching);
    assert_eq!(PROMOTION_CAP, 40);
    assert_eq!(w.dynamic_count(), 40);
    assert_eq!(w.dynamic_props(), &(0..40).collect::<Vec<usize>>());
    assert!((40..50).all(|p| w.is_static(p)));
}

#[test]
fn an_activation_goes_breadth_first() {
    let w = PropLedger::new(vec![1, 2, 3, 4], &vec![1, 1, 1, 1]);
    let mut search = Activation::new(&w, 0);
    assert_eq!(search.next(&w), Some(0));
    search.add_touching(&vec![1, 2, 0]);
    // Reported first, taken first.
    assert_eq!(search.next(&w), Some(1));
    search.add_touching(&vec![3]);
    assert_eq!(search.next(&w), Some(2));
    // 0 is already chosen.
    assert_eq!(search.next(&w), Some(3));
    assert_eq!(search.next(&w), None);
    assert_eq!(search.order(), &vec![0, 1, 2, 3]);
}

#[test]
fn box_queries_report_static_props_once() {
    let mut w = three_apart();
    w.promote(0);
    let mut out = vec![2];
    // Tags: the fixed world, prop 1 twice, prop 0 (dynamic now), prop 2 (already listed).
    w.props_in(&vec![0, collider_tag(1), collider_tag(1), collider_tag(0), collider_tag(2)], &mut out);
    assert_eq!(out, vec![2, 1]);
}

#[test]
fn carrying_needs_a_promoted_prop_and_empty_hands() {
    let mut w = three_apart();
    assert!(!w.pick_up(1), "a static prop is activated before it is lifted");
    activate(&mut w, 1, &nothing_touches);
    assert!(w.pick_up(1));
    assert_eq!(w.held(), Some(1));
    activate(&mut w, 0, &nothing_touches);
    assert!(!w.pick_up(0), "already carrying");
    // The carried prop follows the hold pose: the tick leaves it alone and the scene is not
    // written from its entity.
    assert_eq!(w.tick(&vec![false, false]), vec![TickAction::Skip, TickAction::Publish]);
    assert_eq!(w.scene_writes(&vec![0, 1]), vec![0]);
    assert_eq!(w.drop_held(), Some(1));
    assert_eq!(w.drop_held(), None);
    assert_eq!(w.held(), None);
    assert_eq!(w.scene_writes(&vec![0, 1]), vec![1, 0]);
}

#[test]
fn a_prop_that_falls_asleep_publishes_its_resting_pose_once() {
    let mut w = three_apart();
    activate(&mut w, 1, &nothing_touches);
    assert!(w.pick_up(1));
    assert_eq!(w.drop_held(), Some(1));
    assert_eq!(w.state(1), PropState::Dynamic { entity: 0, settled: false });
    // Falling: its pose is published every tick.
    for _ in 0..10 {
        assert_eq!(w.tick(&vec![false]), vec![TickAction::Publish]);
    }
    // Asleep: the resting pose once, then nothing.
    assert_eq!(w.tick(&vec![true]), vec![TickAction::PublishRest]);
    assert_eq!(w.state(1), PropState::Dynamic { entity: 0, settled: true });
    for _ in 0..60 {
        assert_eq!(w.tick(&vec![true]), vec![TickAction::Skip]);
    }
    // Woken again, it publishes again and is no longer settled.
    assert_eq!(w.tick(&vec![false]), vec![TickAction::Publish]);
    assert_eq!(w.state(1), PropState::Dynamic { entity: 0, settled: false });
}

#[test]
fn promote_all_hands_out_entity_slots_in_order() {
    let mut w = PropLedger::new(vec![5, 6, 7, 8], &vec![1, 2, 3, 4]);
    assert_eq!(w.promote(3), Some((6, 4)));
    let ranges = w.promote_all(&vec![2, 0]);
    assert_eq!(ranges, vec![(3, 3), (0, 1)]);
    assert_eq!(w.entity_of(3), Some(0));
    assert_eq!(w.entity_of(2), Some(1));
    assert_eq!(w.entity_of(0), Some(2));
    assert_eq!(w.entity_of(1), None);
    assert_eq!(w.dynamic_props(), &vec![3, 2, 0]);
}

#[test]
fn loose_objects_are_the_loose_verdicts_in_scene_order_without_the_player() {
    let verdicts = vec![false, true, true, false, true];
    assert_eq!(loose_objects(&verdicts, None), vec![1, 2, 4]);
    assert_eq!(loose_objects(&verdicts, Some(2)), vec![1, 4]);
    assert_eq!(loose_objects(&verdicts, Some(0)), vec![1, 2, 4]);
    assert!(loose_objects(&Vec::new(), None).is_empty());
}

#[test]
fn activate_reports_what_it_promoted_and_what_each_touched() {
    let mut w = PropLedger::new(vec![1, 2, 3, 4], &vec![1, 2, 3, 4]);
    w.promote(3);
    let touching = |p: usize| if p == 0 { vec![2, 3] } else if p == 2 { vec![0] } else { vec![] };
    let (order, ranges, answers) = w.activate(0, touching);
    assert_eq!(order, vec![0, 2]);
    assert_eq!(ranges, vec![(0, 1), (3, 3)]);
    assert_eq!(answers, vec![vec![2, 3], vec![0]]);
    assert_eq!(w.dynamic_props(), &vec![3, 0, 2]);
    assert!(w.is_static(1));
    // Activating a promoted prop does nothing.
    assert_eq!(w.activate(2, touching), (vec![], vec![], vec![]));
}
