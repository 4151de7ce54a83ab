use rustenstein::controls::{apply_control, ControlInfo, Direction, Motion};
use rustenstein::player::{move_angle_eighths, walk_axes, SideMovement, StraightMovement};
use rustenstein::player::SideMovement::{StrafeLeft, StrafeRight};
use rustenstein::player::StraightMovement::{Backward, Forward};

#[test]
fn walk_axes_blocks_only_the_colliding_axis() {
    // Straight into a wall on x: x stops, y still moves.
    assert_eq!(walk_axes(true, false, true, false), (false, true));
    assert_eq!(walk_axes(true, false, false, true), (false, true));
    // Straight into a wall on y: y stops, x still moves.
    assert_eq!(walk_axes(false, true, true, true), (true, false));
    // Both single-axis probes hit: full stop.
    assert_eq!(walk_axes(true, true, false, false), (false, false));
    // Nothing hit: free movement.
    assert_eq!(walk_axes(false, false, false, false), (true, true));
}

#[test]
fn walk_axes_corner_hit_slides_one_axis() {
    // Only the diagonal vertex collides: slide along the axis farther from
    // its grid line, never a full stop, never both axes.
    assert_eq!(walk_axes(false, false, true, true), (true, false));
    assert_eq!(walk_axes(false, false, true, false), (false, true));
}

#[test]
fn move_angle_combines_the_intents() {
    assert_eq!(move_angle_eighths(Some(Forward), None), Some(0));
    assert_eq!(move_angle_eighths(Some(Forward), Some(StrafeLeft)), Some(1));
    assert_eq!(move_angle_eighths(Some(Forward), Some(StrafeRight)), Some(-1));
    assert_eq!(move_angle_eighths(Some(Backward), None), Some(-4));
    assert_eq!(move_angle_eighths(Some(Backward), Some(StrafeLeft)), Some(-5));
    assert_eq!(move_angle_eighths(Some(Backward), Some(StrafeRight)), Some(-3));
    assert_eq!(move_angle_eighths(None, Some(StrafeLeft)), Some(2));
    assert_eq!(move_angle_eighths(None, Some(StrafeRight)), Some(-2));
    assert_eq!(move_angle_eighths(None, None), None);
}

#[test]
fn motion_values_are_unit_steps() {
    assert_eq!(Motion::Left.value(), -1);
    assert_eq!(Motion::Up.value(), -1);
    assert_eq!(Motion::Neutral.value(), 0);
    assert_eq!(Motion::Right.value(), 1);
    assert_eq!(Motion::Down.value(), 1);
}

#[test]
fn direction_from_numbers_the_grid_row_by_row() {
    assert!(matches!(Direction::from(0), Direction::NorthWest));
    assert!(matches!(Direction::from(4), Direction::Neutral));
    assert!(matches!(Direction::from(5), Direction::East));
    assert!(matches!(Direction::from(8), Direction::SouthEast));
}

#[test]
fn control_info_default_is_neutral() {
    let c = ControlInfo::default();
    assert!(!c.button0 && !c.button1 && !c.button2 && !c.button3);
    assert_eq!(c.x, 0);
    assert_eq!(c.y, 0);
    assert!(matches!(c.xaxis, Motion::Neutral));
    assert!(matches!(c.yaxis, Motion::Neutral));
    assert!(matches!(c.dir, Direction::Neutral));
}

#[test]
fn apply_control_fills_the_record() {
    let mut c = ControlInfo::default();
    apply_control(&mut c, Motion::Right, Motion::Up, 0b0011);
    assert_eq!(c.x, 127);
    assert_eq!(c.y, -127);
    assert!(c.button0 && c.button1 && !c.button2 && !c.button3);
    assert!(matches!(c.yaxis, Motion::Up));
    // The stored horizontal motion is left untouched.
    assert!(matches!(c.xaxis, Motion::Neutral));
    // Up (-1) and right (+1) combine to row 0, column 2.
    assert!(matches!(c.dir, Direction::NorthEast));
}
