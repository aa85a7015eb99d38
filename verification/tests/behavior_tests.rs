use ant_colony::behavior::{Behavior, PheromoneSense, TiltAction};

#[test]
fn set_returning_then_is_returning() {
    let mut b = Behavior::Search;
    assert!(!b.is_returning());
    b.set_returning();
    assert_eq!(b, Behavior::Return);
    assert!(b.is_returning());
}

#[test]
fn setters_switch_behavior() {
    let mut b = Behavior::Return;
    b.set_searching();
    assert_eq!(b, Behavior::Search);
    b.set_following();
    assert_eq!(b, Behavior::Follow);
    assert!(!b.is_returning());
}

#[test]
fn returning_ant_ignores_pheromones() {
    for sense in [PheromoneSense::Absent, PheromoneSense::Stale, PheromoneSense::Trail] {
        let mut b = Behavior::Return;
        assert!(!b.sense_pheromone(sense));
        assert_eq!(b, Behavior::Return);
    }
}

#[test]
fn no_pheromone_sends_ant_searching() {
    let mut b = Behavior::Follow;
    assert!(!b.sense_pheromone(PheromoneSense::Absent));
    assert_eq!(b, Behavior::Search);
}

#[test]
fn stale_pheromone_changes_nothing() {
    let mut b = Behavior::Follow;
    assert!(!b.sense_pheromone(PheromoneSense::Stale));
    assert_eq!(b, Behavior::Follow);
    let mut s = Behavior::Search;
    assert!(!s.sense_pheromone(PheromoneSense::Stale));
    assert_eq!(s, Behavior::Search);
}

#[test]
fn live_pheromone_makes_ant_follow() {
    let mut b = Behavior::Search;
    assert!(b.sense_pheromone(PheromoneSense::Trail));
    assert_eq!(b, Behavior::Follow);
}

#[test]
fn tilt_per_behavior() {
    assert_eq!(Behavior::Search.tilt(), TiltAction::Wander);
    assert_eq!(Behavior::Follow.tilt(), TiltAction::Hold);
    assert_eq!(Behavior::Return.tilt(), TiltAction::HeadHome);
}

#[test]
fn only_returning_ants_with_food_location_drop_pheromones() {
    assert!(Behavior::Return.drops_pheromone(true));
    assert!(!Behavior::Return.drops_pheromone(false));
    assert!(!Behavior::Search.drops_pheromone(true));
    assert!(!Behavior::Follow.drops_pheromone(true));
}
