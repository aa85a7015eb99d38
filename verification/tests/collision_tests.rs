use std::collections::{HashMap, HashSet};

use ant_colony::behavior::Behavior;
use ant_colony::collision::{
    detect_collisions, plan_collisions, CollisionEvent, CollisionMap, CollisionResponse,
};

#[test]
fn collision_map_lists_started_contacts() {
    let events = [
        CollisionEvent::Started(1, 2),
        CollisionEvent::Stopped(3, 4),
        CollisionEvent::Started(5, 1),
    ];
    let m = CollisionMap::new(&events);
    assert_eq!(m.colliding_entities, vec![1, 2, 5, 1]);
    assert_eq!(m.colliding_pairs.len(), 3);
    assert_eq!(m.colliding_pairs[&1], 5);
    assert_eq!(m.colliding_pairs[&2], 1);
    assert_eq!(m.colliding_pairs[&5], 1);
    assert!(!m.colliding_pairs.contains_key(&3));
}

#[test]
fn every_colliding_entity_has_a_colliding_partner() {
    let events = [
        CollisionEvent::Started(1, 2),
        CollisionEvent::Started(2, 3),
        CollisionEvent::Started(4, 4),
    ];
    let m = CollisionMap::new(&events);
    for e in &m.colliding_entities {
        let p = m.colliding_pairs[e];
        assert!(m.colliding_entities.contains(&p));
    }
}

#[test]
fn empty_frame() {
    let m = CollisionMap::new(&[]);
    assert!(m.colliding_entities.is_empty());
    assert!(m.colliding_pairs.is_empty());
}

fn world() -> (HashMap<u64, Behavior>, HashSet<u64>, HashSet<u64>) {
    let mut ants = HashMap::new();
    ants.insert(10, Behavior::Search);
    ants.insert(11, Behavior::Return);
    ants.insert(12, Behavior::Follow);
    let hills: HashSet<u64> = [100].into_iter().collect();
    let foods: HashSet<u64> = [200, 201].into_iter().collect();
    (ants, hills, foods)
}

#[test]
fn searching_ant_forages_and_turns_home() {
    let (mut ants, hills, foods) = world();
    let r = detect_collisions(&[CollisionEvent::Started(10, 200)], &mut ants, &hills, &foods);
    assert_eq!(r, vec![CollisionResponse::Forage { ant: 10, food: 200 }]);
    assert_eq!(ants[&10], Behavior::Return);
}

#[test]
fn returning_ant_delivers_at_hill() {
    let (mut ants, hills, foods) = world();
    let r = detect_collisions(&[CollisionEvent::Started(100, 11)], &mut ants, &hills, &foods);
    assert_eq!(r, vec![CollisionResponse::Deliver { ant: 11, hill: 100 }]);
    assert_eq!(ants[&11], Behavior::Return);
}

#[test]
fn non_returning_ant_at_hill_does_nothing() {
    let (mut ants, hills, foods) = world();
    let r = detect_collisions(&[CollisionEvent::Started(12, 100)], &mut ants, &hills, &foods);
    assert!(r.is_empty());
    assert_eq!(ants[&12], Behavior::Follow);
}

#[test]
fn returning_ant_at_food_does_nothing() {
    let (mut ants, hills, foods) = world();
    let r = detect_collisions(&[CollisionEvent::Started(11, 201)], &mut ants, &hills, &foods);
    assert!(r.is_empty());
}

#[test]
fn ant_forages_once_per_frame() {
    let (mut ants, hills, foods) = world();
    let r = detect_collisions(
        &[CollisionEvent::Started(10, 200), CollisionEvent::Started(10, 201)],
        &mut ants,
        &hills,
        &foods,
    );
    // The second contact overrides the partner of 10, so both listings of 10
    // look at food 201; only the first forages.
    assert_eq!(r, vec![CollisionResponse::Forage { ant: 10, food: 201 }]);
}

#[test]
fn forage_then_deliver_in_one_frame() {
    let (mut ants, hills, foods) = world();
    let r = detect_collisions(
        &[CollisionEvent::Started(12, 200), CollisionEvent::Stopped(1, 2), CollisionEvent::Started(100, 11)],
        &mut ants,
        &hills,
        &foods,
    );
    assert_eq!(
        r,
        vec![
            CollisionResponse::Forage { ant: 12, food: 200 },
            CollisionResponse::Deliver { ant: 11, hill: 100 },
        ]
    );
    assert_eq!(ants[&12], Behavior::Return);
    assert_eq!(ants.len(), 3);
}

#[test]
fn non_ant_contacts_are_ignored() {
    let (mut ants, hills, foods) = world();
    let r = detect_collisions(&[CollisionEvent::Started(200, 100)], &mut ants, &hills, &foods);
    assert!(r.is_empty());
}

#[test]
fn plan_on_prebuilt_map() {
    let (mut ants, hills, foods) = world();
    let m = CollisionMap::new(&[CollisionEvent::Started(10, 200)]);
    let r = plan_collisions(&m, &mut ants, &hills, &foods);
    assert_eq!(r, vec![CollisionResponse::Forage { ant: 10, food: 200 }]);
}
