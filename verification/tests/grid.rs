use snake::resource::{Circle, Grid, Square};

#[test]
fn grid_new_computes_cell_counts() {
    let g = Grid::new(800, 600, 15);
    assert_eq!(g.width, 800);
    assert_eq!(g.height, 600);
    assert_eq!(g.size, 15);
    assert_eq!(g.grid_width, 53);
    assert_eq!(g.grid_height, 40);
}

#[test]
fn grid_change_window_recomputes_both_counts() {
    let mut g = Grid::new(800, 600, 15);
    g.change_window(300, 150);
    assert_eq!(g.width, 300);
    assert_eq!(g.height, 150);
    assert_eq!(g.size, 15);
    assert_eq!(g.grid_width, 20);
    assert_eq!(g.grid_height, 10);
}

#[test]
fn square_points_cover_the_cell_block() {
    let g = Grid::new(8, 8, 2);
    let pts = g.get_square_points_at_grid(1, 1);
    assert_eq!(pts.len(), 4);
    assert_eq!(pts, vec![[2, 2], [2, 3], [3, 2], [3, 3]]);
}

#[test]
fn square_points_count_is_cell_size_squared() {
    let g = Grid::new(60, 60, 15);
    let pts = g.get_square_points_at_grid(2, 3);
    assert_eq!(pts.len(), 225);
    for p in &pts {
        assert!(30 <= p[0] && p[0] < 45);
        assert!(45 <= p[1] && p[1] < 60);
    }
    for a in 0..pts.len() {
        for b in a + 1..pts.len() {
            assert_ne!(pts[a], pts[b]);
        }
    }
}

#[test]
fn circle_points_stay_within_radius() {
    let g = Grid::new(9, 9, 3);
    let pts = g.get_circle_points_at_grid(0, 0, 1);
    // center of cell (0,0) is (1,1); squared distance at most 1 lights a plus shape
    assert_eq!(pts.len(), 5);
    for p in &pts {
        let dx = p[0] as i64 - 1;
        let dy = p[1] as i64 - 1;
        assert!(dx * dx + dy * dy <= 1);
    }
    assert!(pts.contains(&[1, 1]));
    assert!(pts.contains(&[0, 1]));
    assert!(pts.contains(&[1, 0]));
    assert!(pts.contains(&[2, 1]));
    assert!(pts.contains(&[1, 2]));
}

#[test]
fn circle_points_nonempty_even_at_radius_zero() {
    let g = Grid::new(4, 4, 1);
    let pts = g.get_circle_points_at_grid(2, 2, 0);
    assert_eq!(pts, vec![[2, 2]]);
}

#[test]
fn oversized_cells_give_a_zero_sized_grid() {
    // cell size beyond a window dimension truncates that count to zero
    let g = Grid::new(5, 25, 10);
    assert_eq!(g.grid_width, 0);
    assert_eq!(g.grid_height, 2);
}

#[test]
fn point_in_circle_compares_squared_distances() {
    assert!(snake::resource::point_in_circle(3, 4, 0, 0, 5));
    assert!(!snake::resource::point_in_circle(4, 4, 0, 0, 5));
    assert!(snake::resource::point_in_circle(7, 7, 7, 7, 0));
}

#[test]
fn square_shape_resolves_on_grid() {
    let g = Grid::new(10, 10, 5);
    let s = Square::new(1, 0);
    assert_eq!(s.points.len(), 0);
    let s = s.on_grid(&g);
    assert_eq!(s.grid_x, 1);
    assert_eq!(s.grid_y, 0);
    assert_eq!(s.points.len(), 25);
    assert_eq!(s.points[0], [5, 0]);
}

#[test]
fn circle_shape_uses_half_cell_radius() {
    let g = Grid::new(9, 9, 3);
    let c = Circle::new(0, 0);
    assert_eq!(c.points.len(), 0);
    let c = c.on_grid(&g);
    assert_eq!(c.grid_x, 0);
    assert_eq!(c.grid_y, 0);
    assert_eq!(c.points.len(), 5);
}
