use rts_control::command::right_click;
use rts_control::geometry::GroundPoint;
use rts_control::selection::SelectionInProgress;
use rts_control::world::{Health, MoveTarget, Nick, Player, Unit, World};

fn dest_of(u: &Unit) -> Option<GroundPoint> {
    u.move_target.map(|m| m.dest)
}

fn world_with_units() -> World {
    let players = vec![
        Player { nick: Nick("Dentosal".to_string()) },
        Player { nick: Nick("Opponent".to_string()) },
    ];
    let mut world = World::new(players, 0);
    world.add_unit(Unit::new(0, GroundPoint::new(-1000, 0), Health::new(100, 100)));
    world.add_unit(Unit::new(0, GroundPoint::new(0, 0), Health::new(100, 100)));
    world.add_unit(Unit::new(1, GroundPoint::new(1000, 0), Health::new(100, 100)));
    world
}

fn selecting(ids: Vec<usize>) -> SelectionInProgress {
    let mut sel = SelectionInProgress::new();
    sel.current = ids;
    sel
}

#[test]
fn orders_selected_units() {
    let mut world = world_with_units();
    let sel = selecting(vec![0]);
    let dest = GroundPoint::new(500, 700);
    right_click(&mut world, &sel, true, Some(dest));
    assert_eq!(
        world.units[0].move_target,
        Some(MoveTarget { dest, start: GroundPoint::new(-1000, 0), travelled: 0 })
    );
    assert_eq!(world.units[1].move_target, None);
    assert_eq!(world.units[0].position, GroundPoint::new(-1000, 0));
}

#[test]
fn second_order_overwrites_first() {
    let mut world = world_with_units();
    let sel = selecting(vec![0, 1]);
    right_click(&mut world, &sel, true, Some(GroundPoint::new(500, 700)));
    right_click(&mut world, &sel, true, Some(GroundPoint::new(-300, 40)));
    assert_eq!(dest_of(&world.units[0]), Some(GroundPoint::new(-300, 40)));
    assert_eq!(dest_of(&world.units[1]), Some(GroundPoint::new(-300, 40)));
    assert_eq!(world.units[1].move_target.unwrap().start, GroundPoint::new(0, 0));
}

#[test]
fn no_order_without_ground_or_release() {
    let mut world = world_with_units();
    let sel = selecting(vec![0, 1]);
    right_click(&mut world, &sel, true, None);
    right_click(&mut world, &sel, false, Some(GroundPoint::new(5, 5)));
    assert_eq!(world.units[0].move_target, None);
    assert_eq!(world.units[1].move_target, None);
}

#[test]
fn empty_selection_orders_nothing() {
    let mut world = world_with_units();
    let sel = selecting(Vec::new());
    right_click(&mut world, &sel, true, Some(GroundPoint::new(5, 5)));
    assert!(world.units.iter().all(|u| u.move_target.is_none()));
}

#[test]
fn opponent_units_take_no_orders() {
    let mut world = world_with_units();
    let sel = selecting(vec![2, 7]);
    right_click(&mut world, &sel, true, Some(GroundPoint::new(5, 5)));
    assert_eq!(world.units[2].move_target, None);
    assert_eq!(world.units.len(), 3);
}
