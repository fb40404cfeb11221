use ca::view::{
    get_abs_coord, get_cell_width, points1d_to_coords, points2d_to_coords, u32_string, CA1View,
    Point1D, Point2D,
};
use ca::CA1;

#[test]
fn test_u32_string_renders_decimal() {
    assert_eq!(u32_string(0), "0");
    assert_eq!(u32_string(7), "7");
    assert_eq!(u32_string(40), "40");
    assert_eq!(u32_string(4294967295), "4294967295");
}

#[test]
fn test_get_cell_width_requested() {
    assert_eq!(get_cell_width(9, 6, Some(3)).unwrap(), 3);
    let err = get_cell_width(9, 6, Some(4)).unwrap_err();
    assert_eq!(err, "Cell width (4) must me divisor of width (9) and height (6)!");
}

#[test]
fn test_get_cell_width_default() {
    assert_eq!(get_cell_width(12, 8, None).unwrap(), 4);
    assert_eq!(get_cell_width(9, 3, None).unwrap(), 3);
    assert_eq!(get_cell_width(10, 4, None).unwrap(), 2);
    assert_eq!(get_cell_width(7, 5, None).unwrap(), 1);
}

#[test]
fn test_get_abs_coord_bounds() {
    assert_eq!(get_abs_coord(5, -2, 10).unwrap(), 3);
    assert_eq!(get_abs_coord(5, 4, 10).unwrap(), 9);
    assert_eq!(
        get_abs_coord(5, 6, 10).unwrap_err(),
        "Relative coordinate outside bounds!"
    );
    assert_eq!(
        get_abs_coord(2, -3, 10).unwrap_err(),
        "Relative coordinate outside bounds!"
    );
}

#[test]
fn test_points1d_to_coords_resolves_center() {
    let coords = points1d_to_coords(vec![Point1D::Abs(2), Point1D::RelToCenter(-1)], 10).unwrap();
    assert_eq!(coords, vec![2, 4]);
    let err = points1d_to_coords(vec![Point1D::RelToCenter(-6)], 10).unwrap_err();
    assert_eq!(err, "Relative coordinate outside bounds!");
}

#[test]
fn test_points2d_to_coords_resolves_center() {
    let coords = points2d_to_coords(
        vec![Point2D::Abs(1, 2), Point2D::RelToCenter(-1, 2)],
        10,
        8,
    )
    .unwrap();
    assert_eq!(coords, vec![(1, 2), (4, 6)]);
    let err = points2d_to_coords(vec![Point2D::RelToCenter(0, 5)], 10, 8).unwrap_err();
    assert_eq!(err, "Relative coordinate outside bounds!");
}

#[test]
fn test_ca1_view_scrolls_history() {
    let automaton = CA1::new_elementary(vec![0, 0, 1, 0, 0], 90);
    let mut view = CA1View::new(automaton, 3);
    assert_eq!(view.cells[0], vec![0, 0, 1, 0, 0]);
    assert_eq!(view.cells[1], vec![0, 0, 0, 0, 0]);
    assert_eq!(view.width(), 5);

    view.tick();
    assert_eq!(view.current_row, 1);
    assert_eq!(view.cells[1], vec![0, 1, 0, 1, 0]);
    view.tick();
    assert_eq!(view.current_row, 2);
    assert_eq!(view.cells[2], vec![1, 0, 0, 0, 1]);
    // The history is full: the next generation scrolls everything up.
    view.tick();
    assert_eq!(view.current_row, 2);
    assert_eq!(view.cells[0], vec![0, 1, 0, 1, 0]);
    assert_eq!(view.cells[1], vec![1, 0, 0, 0, 1]);
    assert_eq!(view.cells[2], vec![1, 1, 0, 1, 1]);
}
