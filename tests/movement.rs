use rts_control::geometry::GroundPoint;
use rts_control::unit::{advance, move_towards_target};
use rts_control::world::{status_text, Health, MoveTarget, Nick, Player, Unit, World};

fn ordered(at: GroundPoint, to: GroundPoint) -> Unit {
    Unit::new(0, at, Health::new(10, 10)).with_order(to)
}

fn dest_of(u: &Unit) -> Option<GroundPoint> {
    u.move_target.map(|m| m.dest)
}

#[test]
fn moves_by_step_along_axis() {
    let u = advance(ordered(GroundPoint::new(0, 0), GroundPoint::new(1000, 0)), 250);
    assert_eq!(u.position, GroundPoint::new(250, 0));
    assert_eq!(
        u.move_target,
        Some(MoveTarget { dest: GroundPoint::new(1000, 0), start: GroundPoint::new(0, 0), travelled: 250 })
    );
}

#[test]
fn moves_along_diagonal() {
    // distance 5000 along a 3-4-5 triangle
    let u = advance(ordered(GroundPoint::new(0, 0), GroundPoint::new(3000, -4000)), 1000);
    assert_eq!(u.position, GroundPoint::new(600, -800));
}

#[test]
fn rounds_toward_zero() {
    // distance floor(sqrt(2_000_000)) = 1414
    let u = advance(ordered(GroundPoint::new(0, 0), GroundPoint::new(-1000, 1000)), 100);
    assert_eq!(u.position, GroundPoint::new(-70, 70));
}

#[test]
fn arrives_exactly_and_clears_order() {
    let target = GroundPoint::new(1000, 0);
    let mut u = ordered(GroundPoint::new(0, 0), target);
    for _ in 0..5 {
        u = advance(u, 300);
    }
    assert_eq!(u.position, target);
    assert_eq!(u.move_target, None);
    let still = advance(u, 300);
    assert_eq!(still, u);
}

#[test]
fn snaps_within_epsilon() {
    let u = advance(ordered(GroundPoint::new(6, 8), GroundPoint::new(0, 0)), 0);
    assert_eq!(u.position, GroundPoint::new(0, 0));
    assert_eq!(u.move_target, None);
    let v = advance(ordered(GroundPoint::new(7, 8), GroundPoint::new(0, 0)), 0);
    assert_eq!(v.position, GroundPoint::new(7, 8));
    assert!(v.move_target.is_some());
}

#[test]
fn never_overshoots() {
    let u = advance(ordered(GroundPoint::new(0, 0), GroundPoint::new(0, 500)), 10_000);
    assert_eq!(u.position, GroundPoint::new(0, 500));
    assert!(u.move_target.is_some());
}

#[test]
fn split_ticks_cover_same_distance() {
    let start = ordered(GroundPoint::new(0, 0), GroundPoint::new(-5000, 0));
    let one = advance(start, 900);
    let three = advance(advance(advance(start, 300), 200), 400);
    assert_eq!(one, three);
    assert_eq!(one.position, GroundPoint::new(-900, 0));
}

#[test]
fn slow_diagonal_still_moves() {
    // route length floor(sqrt(11300)) = 106
    let target = GroundPoint::new(80, 70);
    let mut u = ordered(GroundPoint::new(0, 0), target);
    u = advance(u, 1);
    assert_eq!(u.position, GroundPoint::new(0, 0));
    u = advance(u, 1);
    assert_eq!(u.position, GroundPoint::new(1, 1));
    for _ in 0..48 {
        u = advance(u, 1);
    }
    assert_eq!(u.position, GroundPoint::new(37, 33));
    assert_eq!(dest_of(&u), Some(target));
    for _ in 0..100 {
        u = advance(u, 1);
    }
    assert_eq!(u.position, target);
    assert_eq!(u.move_target, None);
}

#[test]
fn diagonal_split_ticks_match_one_tick() {
    // route length floor(sqrt(200)) = 14
    let start = ordered(GroundPoint::new(0, 0), GroundPoint::new(10, 10));
    let two = advance(advance(start, 1), 1);
    let one = advance(start, 2);
    assert_eq!(two, one);
    assert_eq!(one.position, GroundPoint::new(1, 1));
}

#[test]
fn diagonal_arrives_after_distance_covered() {
    let target = GroundPoint::new(-3000, 4000);
    let mut u = ordered(GroundPoint::new(0, 0), target);
    for step in [700u64, 1300, 1000, 1999] {
        u = advance(u, step);
        assert!(u.move_target.is_some());
    }
    assert_eq!(u.position, GroundPoint::new(-2999, 3999));
    u = advance(u, 1);
    assert_eq!(u.position, target);
    u = advance(u, 0);
    assert_eq!(u.position, target);
    assert_eq!(u.move_target, None);
}

#[test]
fn units_without_order_stay() {
    let u = Unit::new(1, GroundPoint::new(3, 4), Health::new(1, 2));
    assert_eq!(advance(u, 1000), u);
}

#[test]
fn world_tick_moves_every_ordered_unit() {
    let players = vec![Player { nick: Nick("A".to_string()) }];
    let mut world = World::new(players, 0);
    world.add_unit(ordered(GroundPoint::new(0, 0), GroundPoint::new(0, 1000)));
    world.add_unit(Unit::new(0, GroundPoint::new(50, 50), Health::new(1, 1)));
    move_towards_target(&mut world, 100);
    assert_eq!(world.units[0].position, GroundPoint::new(0, 100));
    assert_eq!(world.units[1].position, GroundPoint::new(50, 50));
}

#[test]
fn status_text_shows_fraction() {
    assert_eq!(status_text(Health::new(80, 100)), "80/100");
    assert_eq!(status_text(Health::new(0, 7)), "0/7");
    assert_eq!(status_text(Health::new(0, 0)), "0/0");
    assert_eq!(status_text(Health::new(1090, u32::MAX)), "1090/4294967295");
}
