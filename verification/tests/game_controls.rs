use life::game::{
    camera_moves, disc_cells, draw_scatter_picks, edit_under_pointer, handle_controls, handle_erasure, is_point_inside,
    revive_picked, revive_row, scatter_cells, step_due, Controls, GameFlags, IntervalChange, Step,
    ERASER_RADIUS, MESH_RADIUS, ROW_RANGE, SCATTER_RANGE,
};
use life::grid::{CellPos, Grid};

fn idle() -> Controls {
    Controls {
        w_down: false,
        s_down: false,
        a_down: false,
        d_down: false,
        r_down: false,
        up_down: false,
        down_down: false,
        left_control_down: false,
        left_shift_down: false,
        mouse_left_down: false,
        mouse_middle_down: false,
        mouse_right_down: false,
        r_pressed: false,
        l_pressed: false,
        n_pressed: false,
        s_pressed: false,
        q_pressed: false,
        space_pressed: false,
        escape_pressed: false,
        equal_pressed: false,
        f1_pressed: false,
        keys_down: 0,
    }
}

fn live_cells(grid: &Grid) -> Vec<(i32, i32)> {
    let mut cells: Vec<(i32, i32)> = grid
        .alive
        .iter()
        .map(|k| {
            let p = CellPos::from_key(*k);
            (p.x, p.y)
        })
        .collect();
    cells.sort();
    cells
}

#[test]
fn point_inside_brush() {
    assert!(is_point_inside(0, 0, 0));
    assert!(is_point_inside(1, 0, 0));
    assert!(!is_point_inside(1, 1, 0));
    assert!(is_point_inside(10, 1, 10));
    assert!(!is_point_inside(10, 2, 10));
    assert!(is_point_inside(-7, 7, 10));
    assert!(!is_point_inside(-8, 7, 10));
}

#[test]
fn disc_sizes() {
    let c = CellPos::new(0, 0);
    assert_eq!(disc_cells(c, 0).len(), 1);
    assert_eq!(disc_cells(c, 1).len(), 9);
    assert_eq!(disc_cells(c, 2).len(), 21);
    assert_eq!(disc_cells(c, MESH_RADIUS).len(), 213);
    assert_eq!(disc_cells(c, ERASER_RADIUS).len(), 325);
}

#[test]
fn disc_cells_are_ordered_and_centred() {
    let cells = disc_cells(CellPos::new(100, -50), 2);
    let got: Vec<(i32, i32)> = cells.iter().map(|p| (p.x, p.y)).collect();
    let mut expected = Vec::new();
    for x in -2..=2i32 {
        for y in -2..=2i32 {
            if x * x + y * y <= 5 {
                expected.push((100 + x, -50 + y));
            }
        }
    }
    assert_eq!(got, expected);
}

#[test]
fn eraser_kills_the_disc_under_the_pointer() {
    let mut grid = Grid::new();
    grid.revive(CellPos::new(0, 0));
    grid.revive(CellPos::new(10, 1));
    grid.revive(CellPos::new(10, 2));
    grid.revive(CellPos::new(30, 30));
    let mut input = idle();
    input.left_shift_down = true;
    input.keys_down = 1;
    input.mouse_right_down = true;
    let covered = handle_erasure(&mut grid, &input, CellPos::new(0, 0));
    assert_eq!(covered.len(), 325);
    assert_eq!(live_cells(&grid), vec![(10, 2), (30, 30)]);
}

#[test]
fn eraser_without_button_only_covers() {
    let mut grid = Grid::new();
    grid.revive(CellPos::new(0, 0));
    let mut input = idle();
    input.left_shift_down = true;
    input.keys_down = 1;
    let covered = handle_erasure(&mut grid, &input, CellPos::new(0, 0));
    assert_eq!(covered.len(), 325);
    assert_eq!(live_cells(&grid), vec![(0, 0)]);
}

#[test]
fn eraser_is_off_with_another_key() {
    let mut grid = Grid::new();
    grid.revive(CellPos::new(0, 0));
    let mut input = idle();
    input.left_shift_down = true;
    input.keys_down = 2;
    input.mouse_right_down = true;
    let covered = handle_erasure(&mut grid, &input, CellPos::new(0, 0));
    assert!(covered.is_empty());
    assert_eq!(live_cells(&grid), vec![(0, 0)]);
}

#[test]
fn row_fills_from_left_to_before_right() {
    let mut grid = Grid::new();
    revive_row(&mut grid, CellPos::new(0, 4), ROW_RANGE);
    assert_eq!(grid.alive.len(), 150);
    assert!(grid.is_alive(&CellPos::new(-75, 4)));
    assert!(grid.is_alive(&CellPos::new(74, 4)));
    assert!(!grid.is_alive(&CellPos::new(75, 4)));
    assert!(!grid.is_alive(&CellPos::new(0, 5)));
}

#[test]
fn picked_cells_come_to_life() {
    let mut grid = Grid::new();
    let mut picks = vec![vec![false; 3]; 2];
    picks[0][0] = true;
    picks[1][2] = true;
    revive_picked(&mut grid, CellPos::new(10, 10), 1, &picks);
    assert_eq!(live_cells(&grid), vec![(9, 9), (10, 11)]);
}

#[test]
fn scatter_picks_fit_the_square() {
    let picks = draw_scatter_picks(SCATTER_RANGE);
    assert_eq!(picks.len(), 50);
    assert!(picks.iter().all(|column| column.len() == 51));
}

#[test]
fn scatter_fills_part_of_the_square() {
    let mut grid = Grid::new();
    grid.revive(CellPos::new(1000, 1000));
    let picks = scatter_cells(&mut grid, CellPos::new(0, 0), SCATTER_RANGE);
    assert_eq!(picks.len(), 50);
    assert!(picks.iter().all(|column| column.len() == 51));
    let mut expected = vec![(1000, 1000)];
    for (i, column) in picks.iter().enumerate() {
        for (j, &chosen) in column.iter().enumerate() {
            if chosen {
                expected.push((i as i32 - 25, j as i32 - 25));
            }
        }
    }
    expected.sort();
    let cells = live_cells(&grid);
    assert_eq!(cells, expected);
    // each cell is picked with one chance in fifteen
    let inside = cells.len() - 1;
    assert!(inside > 0);
    assert!(inside < 50 * 51 / 2);
}

#[test]
fn controls_map_keys_to_actions() {
    let mut flags = GameFlags::new();
    let mut grid = Grid::new();
    let mut input = idle();
    input.w_down = true;
    input.s_down = true;
    input.a_down = true;
    input.mouse_middle_down = true;
    input.down_down = true;
    let moves = camera_moves(&input);
    assert!(moves.up);
    assert!(moves.down);
    assert!(moves.left);
    assert!(!moves.right);
    assert!(moves.drag);
    let actions = handle_controls(&mut flags, &mut grid, &input, CellPos::new(0, 0));
    assert_eq!(actions.interval, IntervalChange::Lengthen);
    assert!(!actions.save);
    assert!(flags.is_running && flags.is_paused);

    input.left_control_down = true;
    input.up_down = true;
    input.mouse_middle_down = false;
    assert!(!camera_moves(&input).down);
    assert!(!camera_moves(&input).drag);
    input.mouse_left_down = true;
    assert!(camera_moves(&input).drag);
    let actions = handle_controls(&mut flags, &mut grid, &input, CellPos::new(0, 0));
    assert_eq!(actions.interval, IntervalChange::Shorten);
}

#[test]
fn interval_keys() {
    let mut flags = GameFlags::new();
    let mut grid = Grid::new();
    let mut input = idle();
    input.equal_pressed = true;
    assert_eq!(handle_controls(&mut flags, &mut grid, &input, CellPos::new(0, 0)).interval, IntervalChange::Restore);
    input.equal_pressed = false;
    assert_eq!(handle_controls(&mut flags, &mut grid, &input, CellPos::new(0, 0)).interval, IntervalChange::Keep);
}

#[test]
fn space_and_f1_toggle() {
    let mut flags = GameFlags::new();
    let mut grid = Grid::new();
    let mut input = idle();
    input.space_pressed = true;
    input.f1_pressed = true;
    handle_controls(&mut flags, &mut grid, &input, CellPos::new(0, 0));
    assert!(!flags.is_paused);
    assert!(flags.show_debug);
    handle_controls(&mut flags, &mut grid, &input, CellPos::new(0, 0));
    assert!(flags.is_paused);
    assert!(!flags.show_debug);
}

#[test]
fn control_s_saves_and_q_quits() {
    let mut flags = GameFlags::new();
    let mut grid = Grid::new();
    let mut input = idle();
    input.left_control_down = true;
    input.s_pressed = true;
    let actions = handle_controls(&mut flags, &mut grid, &input, CellPos::new(0, 0));
    assert!(actions.save);
    assert!(flags.show_saved_text);
    assert!(flags.is_running);

    let mut flags = GameFlags::new();
    let mut input = idle();
    input.escape_pressed = true;
    let actions = handle_controls(&mut flags, &mut grid, &input, CellPos::new(0, 0));
    assert!(actions.save);
    assert!(flags.show_saved_text);
    assert!(!flags.is_running);
}

#[test]
fn row_key_and_reset_key() {
    let mut flags = GameFlags::new();
    let mut grid = Grid::new();
    let mut input = idle();
    input.l_pressed = true;
    handle_controls(&mut flags, &mut grid, &input, CellPos::new(3, 3));
    assert_eq!(grid.alive.len(), 150);

    grid.evolve();
    let mut input = idle();
    input.left_control_down = true;
    input.left_shift_down = true;
    input.r_pressed = true;
    input.r_down = true;
    handle_controls(&mut flags, &mut grid, &input, CellPos::new(3, 3));
    assert_eq!(grid.alive.len(), 0);
    assert_eq!(grid.generation, 0);
}

#[test]
fn scatter_key_fills_around_the_pointer() {
    let mut flags = GameFlags::new();
    let mut grid = Grid::new();
    let mut input = idle();
    input.r_down = true;
    handle_controls(&mut flags, &mut grid, &input, CellPos::new(-100, 40));
    let cells = live_cells(&grid);
    assert!(!cells.is_empty());
    assert!(cells.iter().all(|&(x, y)| (-125..-75).contains(&x) && (15..=65).contains(&y)));
}

#[test]
fn mouse_draws_and_erases_under_the_pointer() {
    let mut grid = Grid::new();
    let mut input = idle();
    input.mouse_left_down = true;
    edit_under_pointer(&mut grid, &input, CellPos::new(2, 3));
    assert_eq!(live_cells(&grid), vec![(2, 3)]);
    input.left_control_down = true;
    input.mouse_right_down = true;
    edit_under_pointer(&mut grid, &input, CellPos::new(2, 3));
    assert_eq!(grid.alive.len(), 0);
    input.left_control_down = false;
    edit_under_pointer(&mut grid, &input, CellPos::new(4, 4));
    assert_eq!(live_cells(&grid), vec![(4, 4)]);
}

#[test]
fn steps_follow_pause_and_n() {
    let mut flags = GameFlags::new();
    let mut input = idle();
    assert_eq!(step_due(&flags, &input), Step::Not);
    input.n_pressed = true;
    assert_eq!(step_due(&flags, &input), Step::Now);
    flags.is_paused = false;
    assert_eq!(step_due(&flags, &input), Step::OnClock);
}

#[test]
fn new_flags() {
    let flags = GameFlags::new();
    assert!(flags.is_running);
    assert!(flags.is_paused);
    assert!(!flags.show_debug);
    assert!(!flags.show_saved_text);
}
