//! The decisions of the game screen: what the keyboard and the mouse do to
//! the grid and to the screen's flags in one frame.  The screen itself
//! (camera, clocks, drawing) lives with the program that runs it; it hands
//! the input of each frame here and carries out the actions that come back.

use crate::grid::{CellPos, Grid, within_margin};
use vstd::prelude::*;

verus! {

/// Radius, in cells, of the eraser.
pub const ERASER_RADIUS: i32 = 10;

/// Radius, in cells, of the mesh drawn around the pointer.
pub const MESH_RADIUS: i32 = 8;

/// Half the side, in cells, of the square that the scatter key fills at random.
pub const SCATTER_RANGE: i32 = 25;

/// Half the length, in cells, of the row that the row key fills.
pub const ROW_RANGE: i32 = 75;

/// Whether the offset `(x, y)` lies within the round brush of `radius`.
pub open spec fn inside(x: int, y: int, radius: int) -> bool {
    x * x + y * y <= radius * radius + 1
}

/// The cells of the round brush of `radius` centred on `center`.
pub open spec fn disc(center: (int, int), radius: int) -> Set<(int, int)> {
    Set::new(|c: (int, int)| {
        let dx = c.0 - center.0;
        let dy = c.1 - center.1;
        &&& -radius <= dx <= radius
        &&& -radius <= dy <= radius
        &&& inside(dx, dy, radius)
    })
}

/// `a` comes before `b`: by first coordinate, then by second.
pub open spec fn lex_before(a: (int, int), b: (int, int)) -> bool {
    a.0 < b.0 || (a.0 == b.0 && a.1 < b.1)
}

/// The cells of the brush whose offset from the centre comes before `(x, y)`.
spec fn disc_before(center: (int, int), radius: int, x: int, y: int) -> Set<(int, int)> {
    disc(center, radius).filter(|c: (int, int)| lex_before((c.0 - center.0, c.1 - center.1), (x, y)))
}

/// Whether the offset `(x, y)` lies within the round brush of `radius`.
pub fn is_point_inside(x: i32, y: i32, radius: i32) -> (inside_brush: bool)
    requires
        x * x + y * y <= i32::MAX,
        radius * radius + 1 <= i32::MAX,
    ensures
        inside_brush == inside(x as int, y as int, radius as int),
{
    assert(0 <= x * x && 0 <= y * y && 0 <= radius * radius) by (nonlinear_arith);
    x * x + y * y <= radius * radius + 1
}

/// The positions of `cells` as pairs of integers.
pub open spec fn cells_view(cells: Seq<CellPos>) -> Seq<(int, int)> {
    cells.map_values(|p: CellPos| p.cell())
}

/// The cells of the round brush of `radius` centred on `center`, ordered
/// by first coordinate, then by second.
pub fn disc_cells(center: CellPos, radius: i32) -> (cells: Vec<CellPos>)
    requires
        0 <= radius,
        2 * radius * radius + 1 <= i32::MAX,
        within_margin(center.cell(), radius as int),
    ensures
        cells_view(cells@).to_set() == disc(center.cell(), radius as int),
        forall|i: int, j: int| 0 <= i < j < cells.len() ==> lex_before(cells@[i].cell(), cells@[j].cell()),
{
    let ghost cen = center.cell();
    let ghost r = radius as int;
    assert(radius <= 32767 && radius * radius + 1 <= i32::MAX) by (nonlinear_arith)
        requires 0 <= radius, 2 * radius * radius + 1 <= i32::MAX;
    let diameter: i32 = 2 * radius + 1;
    let mut cells: Vec<CellPos> = Vec::new();
    assert(disc_before(cen, r, -r, -r) =~= Set::<(int, int)>::empty());
    assert(cells_view(cells@) =~= Seq::<(int, int)>::empty());
    for i in 0..diameter
        invariant
            cen == center.cell(),
            r == radius,
            0 <= radius <= 32767,
            2 * radius * radius + 1 <= i32::MAX,
            radius * radius + 1 <= i32::MAX,
            diameter == 2 * radius + 1,
            within_margin(cen, r),
            cells_view(cells@).to_set() == disc_before(cen, r, i - r, -r),
            forall|k: int| 0 <= k < cells.len() ==> lex_before(
                (#[trigger] cells@[k].cell().0 - cen.0, cells@[k].cell().1 - cen.1), (i - r, -r)),
            forall|a: int, b: int| 0 <= a < b < cells.len() ==> lex_before(cells@[a].cell(), cells@[b].cell()),
    {
        for j in 0..diameter
            invariant
                cen == center.cell(),
                r == radius,
                0 <= radius <= 32767,
                2 * radius * radius + 1 <= i32::MAX,
                radius * radius + 1 <= i32::MAX,
                diameter == 2 * radius + 1,
                0 <= i < diameter,
                within_margin(cen, r),
                cells_view(cells@).to_set() == disc_before(cen, r, i - r, j - r),
                forall|k: int| 0 <= k < cells.len() ==> lex_before(
                    (#[trigger] cells@[k].cell().0 - cen.0, cells@[k].cell().1 - cen.1), (i - r, j - r)),
                forall|a: int, b: int| 0 <= a < b < cells.len() ==> lex_before(cells@[a].cell(), cells@[b].cell()),
        {
            let x: i32 = i - radius;
            let y: i32 = j - radius;
            let ghost before = cells@;
            let ghost c = (cen.0 + x, cen.1 + y);
            assert(x * x + y * y <= i32::MAX) by (nonlinear_arith)
                requires -radius <= x <= radius, -radius <= y <= radius, 2 * radius * radius + 1 <= i32::MAX;
            if is_point_inside(x, y, radius) {
                cells.push(CellPos::new(center.x + x, center.y + y));
                proof {
                    assert(cells_view(cells@) =~= cells_view(before).push(c));
                    cells_view(before).lemma_push_to_set_commute(c);
                    assert(disc_before(cen, r, x as int, y + 1) =~= disc_before(cen, r, x as int, y as int).insert(c));
                }
            } else {
                assert(disc_before(cen, r, x as int, y + 1) =~= disc_before(cen, r, x as int, y as int));
            }
        }
        assert(disc_before(cen, r, i - r, r + 1) =~= disc_before(cen, r, i + 1 - r, -r));
    }
    assert(disc_before(cen, r, r + 1, -r) =~= disc(cen, r));
    cells
}

/// The cells of the row through `pos` from `range` cells to its left up
/// to, but not including, `range` cells to its right.
pub open spec fn row(pos: (int, int), range: int) -> Set<(int, int)> {
    Set::new(|c: (int, int)| c.1 == pos.1 && pos.0 - range <= c.0 < pos.0 + range)
}

/// Brings to life the row of `2 * range` cells through `pos` that starts
/// `range` cells to its left.
pub fn revive_row(grid: &mut Grid, pos: CellPos, range: i32)
    requires
        0 <= range,
        i32::MIN <= pos.x - range,
        pos.x + range <= i32::MAX,
    ensures
        final(grid)@ == old(grid)@.union(row(pos.cell(), range as int)),
        final(grid).generation == old(grid).generation,
{
    let ghost start = pos.x - range;
    for x in (pos.x - range)..(pos.x + range)
        invariant
            start == pos.x - range,
            pos.x - range <= x <= pos.x + range,
            grid@ == old(grid)@.union(row(pos.cell(), range as int).filter(|c: (int, int)| c.0 < x)),
            grid.generation == old(grid).generation,
    {
        grid.revive(CellPos::new(x, pos.y));
        assert(row(pos.cell(), range as int).filter(|c: (int, int)| c.0 < x + 1)
            =~= row(pos.cell(), range as int).filter(|c: (int, int)| c.0 < x).insert((x as int, pos.y as int)));
        assert(grid@ =~= old(grid)@.union(row(pos.cell(), range as int).filter(|c: (int, int)| c.0 < x + 1)));
    }
    assert(row(pos.cell(), range as int).filter(|c: (int, int)| c.0 < pos.x + range) =~= row(pos.cell(), range as int));
}

/// The square of `2 * range` columns and `2 * range + 1` rows around
/// `center`: columns from `range` to the left up to, but not including,
/// `range` to the right; rows from `range` above to `range` below.
pub open spec fn square(center: (int, int), range: int) -> Set<(int, int)> {
    Set::new(|c: (int, int)|
        center.0 - range <= c.0 < center.0 + range && center.1 - range <= c.1 <= center.1 + range)
}

/// `picks` holds one choice for each cell of the square of `range`: one
/// row of `2 * range + 1` choices for each of its `2 * range` columns.
pub open spec fn picks_fit(picks: Seq<Vec<bool>>, range: int) -> bool {
    &&& picks.len() == 2 * range
    &&& forall|i: int| 0 <= i < picks.len() ==> (#[trigger] picks[i])@.len() == 2 * range + 1
}

/// The cells of the square of `range` around `center` whose choice in
/// `picks` is `true`; `picks[i][j]` is the choice for the cell `i` columns
/// right of the square's left column and `j` rows below its top row.
pub open spec fn picked(center: (int, int), range: int, picks: Seq<Vec<bool>>) -> Set<(int, int)> {
    Set::new(|c: (int, int)| {
        let i = c.0 - (center.0 - range);
        let j = c.1 - (center.1 - range);
        &&& 0 <= i < 2 * range
        &&& 0 <= j <= 2 * range
        &&& picks[i]@[j]
    })
}

/// The picked cells whose place in the square comes before column `i`, row `j`.
spec fn picked_before(center: (int, int), range: int, picks: Seq<Vec<bool>>, i: int, j: int) -> Set<(int, int)> {
    picked(center, range, picks).filter(|c: (int, int)| lex_before((c.0 - (center.0 - range), c.1 - (center.1 - range)), (i, j)))
}

/// Brings to life the cells of the square of `range` around `center` whose
/// choice in `picks` is `true`.
pub fn revive_picked(grid: &mut Grid, center: CellPos, range: i32, picks: &Vec<Vec<bool>>)
    requires
        0 <= range,
        within_margin(center.cell(), range as int),
        picks_fit(picks@, range as int),
    ensures
        final(grid)@ == old(grid)@.union(picked(center.cell(), range as int, picks@)),
        final(grid).generation == old(grid).generation,
{
    let ghost cen = center.cell();
    let ghost r = range as int;
    let left: i32 = center.x - range;
    let top: i32 = center.y - range;
    assert(picked_before(cen, r, picks@, 0, 0) =~= Set::<(int, int)>::empty());
    assert(grid@ =~= old(grid)@.union(picked_before(cen, r, picks@, 0, 0)));
    for i in 0..picks.len()
        invariant
            cen == center.cell(),
            r == range,
            0 <= range,
            left == center.x - range,
            top == center.y - range,
            within_margin(cen, r),
            picks_fit(picks@, r),
            grid@ == old(grid)@.union(picked_before(cen, r, picks@, i as int, 0)),
            grid.generation == old(grid).generation,
    {
        let column = &picks[i];
        for j in 0..column.len()
            invariant
                column == &picks@[i as int],
                cen == center.cell(),
                r == range,
                0 <= range,
                left == center.x - range,
                top == center.y - range,
                within_margin(cen, r),
                picks_fit(picks@, r),
                0 <= i < picks.len(),
                grid@ == old(grid)@.union(picked_before(cen, r, picks@, i as int, j as int)),
                grid.generation == old(grid).generation,
        {
            let ghost c = (left + i as int, top + j as int);
            if column[j] {
                let x: i32 = (left as i64 + i as i64) as i32;
                let y: i32 = (top as i64 + j as i64) as i32;
                grid.revive(CellPos::new(x, y));
                assert(picked_before(cen, r, picks@, i as int, j + 1)
                    =~= picked_before(cen, r, picks@, i as int, j as int).insert(c));
            } else {
                assert(picked_before(cen, r, picks@, i as int, j + 1)
                    =~= picked_before(cen, r, picks@, i as int, j as int));
            }
            assert(grid@ =~= old(grid)@.union(picked_before(cen, r, picks@, i as int, j + 1)));
        }
        assert(picked_before(cen, r, picks@, i as int, 2 * r + 1) =~= picked_before(cen, r, picks@, i + 1, 0));
    }
    assert(picked_before(cen, r, picks@, 2 * r, 0) =~= picked(cen, r, picks@));
}

/// Calls `macroquad::rand::gen_range` (quad-rand's `gen_range` on its
/// global generator) for `i32`.  Claimed: for `low < high` the number lies
/// between `low` and `high`, both included (the crate scales a 32-bit draw
/// into the range through `f64` and truncates, which rounding can bring up
/// to `high`).  Left unsaid: which number comes, since it depends on the
/// generator's state.
#[verifier::external_body]
fn gen_range(low: i32, high: i32) -> (drawn: i32)
    requires
        low < high,
    ensures
        low <= drawn <= high,
{
    macroquad::rand::gen_range(low, high)
}

/// Draws one choice for each cell of the square of `range`: a cell is
/// chosen when two numbers drawn at random from `0..15` are equal.
pub fn draw_scatter_picks(range: i32) -> (picks: Vec<Vec<bool>>)
    requires
        0 <= range,
    ensures
        picks_fit(picks@, range as int),
{
    let width: u64 = 2 * (range as u64);
    let mut picks: Vec<Vec<bool>> = Vec::new();
    for _i in 0..width
        invariant
            width == 2 * range,
            picks.len() == _i,
            forall|k: int| 0 <= k < picks.len() ==> (#[trigger] picks@[k])@.len() == 2 * range + 1,
    {
        let mut column: Vec<bool> = Vec::new();
        for _j in 0..width + 1
            invariant
                column.len() == _j,
        {
            column.push(gen_range(0, 15) == gen_range(0, 15));
        }
        picks.push(column);
    }
    picks
}

/// Brings to life, at random, cells of the square of `range` around
/// `center`: each cell when two numbers drawn from `0..15` are equal.
/// Returns the choices drawn, one for each cell of the square.
pub fn scatter_cells(grid: &mut Grid, center: CellPos, range: i32) -> (picks: Vec<Vec<bool>>)
    requires
        0 <= range,
        within_margin(center.cell(), range as int),
    ensures
        picks_fit(picks@, range as int),
        final(grid)@ == old(grid)@.union(picked(center.cell(), range as int, picks@)),
        old(grid)@.subset_of(final(grid)@),
        final(grid)@.subset_of(old(grid)@.union(square(center.cell(), range as int))),
        final(grid).generation == old(grid).generation,
{
    let picks = draw_scatter_picks(range);
    revive_picked(grid, center, range, &picks);
    assert(picked(center.cell(), range as int, picks@).subset_of(square(center.cell(), range as int)));
    picks
}

/// The flags of the game screen.
pub struct GameFlags {
    /// The screen is shown; it stops when the player quits it.
    pub is_running: bool,
    /// The grid does not evolve on its own.
    pub is_paused: bool,
    /// The debug text is shown.
    pub show_debug: bool,
    /// The "Saved!" text is shown.
    pub show_saved_text: bool,
}

impl GameFlags {
    /// The flags of a game screen that has just opened: running, paused,
    /// with neither the debug text nor the "Saved!" text.
    pub fn new() -> (flags: Self)
        ensures
            flags.is_running,
            flags.is_paused,
            !flags.show_debug,
            !flags.show_saved_text,
    {
        GameFlags { is_running: true, is_paused: true, show_debug: false, show_saved_text: false }
    }
}

/// The keyboard and mouse as one frame finds them: `_down` for a key or
/// button held, `_pressed` for one pressed in this frame.
#[derive(Clone, Copy, Debug)]
pub struct Controls {
    pub w_down: bool,
    pub s_down: bool,
    pub a_down: bool,
    pub d_down: bool,
    pub r_down: bool,
    pub up_down: bool,
    pub down_down: bool,
    pub left_control_down: bool,
    pub left_shift_down: bool,
    pub mouse_left_down: bool,
    pub mouse_middle_down: bool,
    pub mouse_right_down: bool,
    pub r_pressed: bool,
    pub l_pressed: bool,
    pub n_pressed: bool,
    pub s_pressed: bool,
    pub q_pressed: bool,
    pub space_pressed: bool,
    pub escape_pressed: bool,
    pub equal_pressed: bool,
    pub f1_pressed: bool,
    /// How many keyboard keys are held.
    pub keys_down: usize,
}

/// What happens to the interval between two generations.
#[derive(Clone, Copy, Debug, PartialEq, Eq, Structural)]
pub enum IntervalChange {
    /// Shorter by a step, where it is still above zero.
    Shorten,
    /// Longer by a step.
    Lengthen,
    /// Back to its default.
    Restore,
    /// As it is.
    Keep,
}

/// How the keys and the mouse move the camera in a frame.
#[derive(Clone, Copy, Debug)]
pub struct CameraMoves {
    pub up: bool,
    pub down: bool,
    pub left: bool,
    pub right: bool,
    /// Move the camera with the mouse.
    pub drag: bool,
}

/// What the screen is to do after the controls of a frame.
#[derive(Clone, Debug)]
pub struct ControlActions {
    pub interval: IntervalChange,
    /// Save the game state.
    pub save: bool,
    /// The choices drawn for the square scattered around the pointer;
    /// empty where nothing was scattered.
    pub picks: Vec<Vec<bool>>,
}

/// How the keys and the mouse move the camera: W, S (without control), A
/// and D by a step, the mouse while control and the left button, or the
/// middle button, are held.
pub fn camera_moves(input: &Controls) -> (moves: CameraMoves)
    ensures
        moves.up == input.w_down,
        moves.down == (input.s_down && !input.left_control_down),
        moves.left == input.a_down,
        moves.right == input.d_down,
        moves.drag == ((input.left_control_down && input.mouse_left_down) || input.mouse_middle_down),
{
    CameraMoves {
        up: input.w_down,
        down: input.s_down && !input.left_control_down,
        left: input.a_down,
        right: input.d_down,
        drag: (input.left_control_down && input.mouse_left_down) || input.mouse_middle_down,
    }
}

/// R, without control, fills the square around the pointer at random.
pub open spec fn scatter_requested(input: Controls) -> bool {
    input.r_down && !input.left_control_down
}

/// Control, shift and R clear the grid.
pub open spec fn reset_requested(input: Controls) -> bool {
    input.left_control_down && input.left_shift_down && input.r_pressed
}

/// Q or escape save the game and leave the screen.
pub open spec fn quit_requested(input: Controls) -> bool {
    input.q_pressed || input.escape_pressed
}

/// Control and S save the game; so does leaving the screen.
pub open spec fn save_requested(input: Controls) -> bool {
    (input.left_control_down && input.s_pressed) || quit_requested(input)
}

/// The interval change that the arrow keys and `=` ask for.
pub open spec fn requested_interval(input: Controls) -> IntervalChange {
    if input.up_down {
        IntervalChange::Shorten
    } else if input.down_down {
        IntervalChange::Lengthen
    } else if input.equal_pressed {
        IntervalChange::Restore
    } else {
        IntervalChange::Keep
    }
}

/// Every picked cell lies in the square: `2 * range` columns from
/// `range` left of the centre, `2 * range + 1` rows from `range` above it.
pub proof fn law_picked_cells_lie_in_square(center: (int, int), range: int, picks: Seq<Vec<bool>>)
    ensures
        forall|c: (int, int)| #[trigger] picked(center, range, picks).contains(c)
            ==> center.0 - range <= c.0 < center.0 + range && center.1 - range <= c.1 <= center.1 + range,
{
}

/// Where every choice is `true`, the picked cells fill the whole square
/// around the centre, on every side of it.
pub proof fn law_all_picks_fill_square(center: (int, int), range: int, picks: Seq<Vec<bool>>)
    requires
        picks_fit(picks, range),
        forall|i: int, j: int| 0 <= i < 2 * range && 0 <= j <= 2 * range ==> #[trigger] picks[i]@[j],
    ensures
        forall|c: (int, int)| center.0 - range <= c.0 < center.0 + range && center.1 - range <= c.1 <= center.1 + range
            ==> #[trigger] picked(center, range, picks).contains(c),
{
}

/// The scatter key does nothing while control is held.
pub proof fn law_no_scatter_with_control(input: Controls)
    requires
        input.left_control_down,
    ensures
        !scatter_requested(input),
{
}

/// The grid is cleared only while control and shift are both held and R
/// is pressed: with either of them missing, no clearing.
pub proof fn law_clearing_needs_control_shift_and_r(input: Controls)
    ensures
        !input.left_shift_down ==> !reset_requested(input),
        !input.left_control_down ==> !reset_requested(input),
        !input.r_pressed ==> !reset_requested(input),
        input.left_control_down && input.left_shift_down && input.r_pressed ==> reset_requested(input),
{
}

/// A frame saves only with control held and S pressed, or with Q or
/// escape pressed; S alone moves the camera and does not save.
pub proof fn law_saving_needs_control_s_or_quit(input: Controls)
    ensures
        !input.left_control_down && !input.q_pressed && !input.escape_pressed ==> !save_requested(input),
        !input.s_pressed && !input.q_pressed && !input.escape_pressed ==> !save_requested(input),
        input.left_control_down && input.s_pressed ==> save_requested(input),
        input.q_pressed || input.escape_pressed ==> save_requested(input) && quit_requested(input),
        !input.q_pressed && !input.escape_pressed ==> !quit_requested(input),
{
}

/// Carries out the keyboard controls of one frame, after the camera has
/// moved: fills cells around `hovered`, clears the grid, toggles pause and
/// the debug text, marks a save and leaves the screen; returns what is left
/// for the screen to do.
pub fn handle_controls(flags: &mut GameFlags, grid: &mut Grid, input: &Controls, hovered: CellPos) -> (actions: ControlActions)
    requires
        scatter_requested(*input) ==> within_margin(hovered.cell(), SCATTER_RANGE as int),
        input.l_pressed ==> i32::MIN <= hovered.x - ROW_RANGE && hovered.x + ROW_RANGE <= i32::MAX,
    ensures
        actions.interval == requested_interval(*input),
        actions.save == save_requested(*input),
        final(flags).is_paused == (old(flags).is_paused != input.space_pressed),
        final(flags).show_debug == (old(flags).show_debug != input.f1_pressed),
        final(flags).show_saved_text == (old(flags).show_saved_text || save_requested(*input)),
        final(flags).is_running == (old(flags).is_running && !quit_requested(*input)),
        reset_requested(*input) ==> final(grid)@ == Set::<(int, int)>::empty() && final(grid).generation == 0,
        !reset_requested(*input) ==> {
            let filled = if input.l_pressed {
                old(grid)@.union(row(hovered.cell(), ROW_RANGE as int))
            } else {
                old(grid)@
            };
            let scattered = if scatter_requested(*input) {
                square(hovered.cell(), SCATTER_RANGE as int)
            } else {
                Set::<(int, int)>::empty()
            };
            &&& filled.subset_of(final(grid)@)
            &&& final(grid)@.subset_of(filled.union(scattered))
            &&& final(grid).generation == old(grid).generation
        },
        actions.interval == if input.up_down {
            IntervalChange::Shorten
        } else if input.down_down {
            IntervalChange::Lengthen
        } else if input.equal_pressed {
            IntervalChange::Restore
        } else {
            IntervalChange::Keep
        },
        actions.save == ((input.left_control_down && input.s_pressed) || input.q_pressed || input.escape_pressed),
        final(flags).show_saved_text == (old(flags).show_saved_text
            || (input.left_control_down && input.s_pressed) || input.q_pressed || input.escape_pressed),
        final(flags).is_running == (old(flags).is_running && !input.q_pressed && !input.escape_pressed),
        input.r_down && !input.left_control_down ==> picks_fit(actions.picks@, SCATTER_RANGE as int),
        !(input.r_down && !input.left_control_down) ==> actions.picks@.len() == 0,
        input.left_control_down && input.left_shift_down && input.r_pressed
            ==> final(grid)@ == Set::<(int, int)>::empty() && final(grid).generation == 0,
        !(input.left_control_down && input.left_shift_down && input.r_pressed) ==> {
            &&& final(grid)@ == old(grid)@
                .union(if input.r_down && !input.left_control_down {
                    picked(hovered.cell(), SCATTER_RANGE as int, actions.picks@)
                } else {
                    Set::<(int, int)>::empty()
                })
                .union(if input.l_pressed {
                    row(hovered.cell(), ROW_RANGE as int)
                } else {
                    Set::<(int, int)>::empty()
                })
            &&& final(grid).generation == old(grid).generation
        },
{
    let ghost start = grid@;
    let picks = if input.r_down && !input.left_control_down {
        scatter_cells(grid, hovered, SCATTER_RANGE)
    } else {
        Vec::new()
    };
    let ghost scattered = grid@;
    assert(scattered =~= start.union(if input.r_down && !input.left_control_down {
        picked(hovered.cell(), SCATTER_RANGE as int, picks@)
    } else {
        Set::<(int, int)>::empty()
    }));
    if input.l_pressed {
        revive_row(grid, hovered, ROW_RANGE);
    }
    assert(grid@ =~= scattered.union(if input.l_pressed {
        row(hovered.cell(), ROW_RANGE as int)
    } else {
        Set::<(int, int)>::empty()
    }));
    if input.left_control_down && input.left_shift_down && input.r_pressed {
        grid.reset();
    }

    if input.space_pressed {
        flags.is_paused = !flags.is_paused;
    }

    let mut save = false;
    if input.left_control_down && input.s_pressed {
        flags.show_saved_text = true;
        save = true;
    }
    if input.q_pressed || input.escape_pressed {
        flags.show_saved_text = true;
        save = true;
        flags.is_running = false;
    }

    let interval = if input.up_down {
        IntervalChange::Shorten
    } else if input.down_down {
        IntervalChange::Lengthen
    } else if input.equal_pressed {
        IntervalChange::Restore
    } else {
        IntervalChange::Keep
    };

    if input.f1_pressed {
        flags.show_debug = !flags.show_debug;
    }

    ControlActions { interval, save, picks }
}

/// Whether the eraser is on: shift is the only key held.
pub open spec fn eraser_on(input: Controls) -> bool {
    input.left_shift_down && input.keys_down == 1
}

/// The eraser: while shift is the only key held, it covers the round brush
/// of `ERASER_RADIUS` around `hovered`, and kills the cells under it while
/// the right mouse button is held.  Returns the cells it covers, to be
/// highlighted, ordered by first coordinate, then by second.
pub fn handle_erasure(grid: &mut Grid, input: &Controls, hovered: CellPos) -> (covered: Vec<CellPos>)
    requires
        eraser_on(*input) ==> within_margin(hovered.cell(), ERASER_RADIUS as int),
    ensures
        eraser_on(*input) ==> cells_view(covered@).to_set() == disc(hovered.cell(), ERASER_RADIUS as int),
        !eraser_on(*input) ==> covered@.len() == 0,
        forall|i: int, j: int| 0 <= i < j < covered.len() ==> lex_before(covered@[i].cell(), covered@[j].cell()),
        final(grid)@ == if eraser_on(*input) && input.mouse_right_down {
            old(grid)@.difference(disc(hovered.cell(), ERASER_RADIUS as int))
        } else {
            old(grid)@
        },
        final(grid).generation == old(grid).generation,
{
    if !(input.left_shift_down && input.keys_down == 1) {
        return Vec::new();
    }
    let covered = disc_cells(hovered, ERASER_RADIUS);
    if input.mouse_right_down {
        for k in 0..covered.len()
            invariant
                grid@ == old(grid)@.difference(cells_view(covered@).take(k as int).to_set()),
                grid.generation == old(grid).generation,
        {
            grid.kill(&covered[k]);
            proof {
                let before = cells_view(covered@).take(k as int);
                assert(cells_view(covered@).take(k + 1) =~= before.push(covered@[k as int].cell()));
                before.lemma_push_to_set_commute(covered@[k as int].cell());
                assert(grid@ =~= old(grid)@.difference(cells_view(covered@).take(k + 1).to_set()));
            }
        }
        assert(cells_view(covered@).take(covered.len() as int) =~= cells_view(covered@));
    } else {
        assert(grid@ =~= old(grid)@);
    }
    covered
}

/// Draws with the mouse: the left button (without control) brings the
/// cell under the pointer to life, the right button kills it.
pub fn edit_under_pointer(grid: &mut Grid, input: &Controls, hovered: CellPos)
    ensures
        final(grid)@ == if input.mouse_left_down && !input.left_control_down {
            old(grid)@.insert(hovered.cell())
        } else if input.mouse_right_down {
            old(grid)@.remove(hovered.cell())
        } else {
            old(grid)@
        },
        final(grid).generation == old(grid).generation,
{
    if input.mouse_left_down && !input.left_control_down {
        grid.revive(hovered);
    } else if input.mouse_right_down {
        grid.kill(&hovered);
    }
}

/// When the grid moves to its next generation in a frame.
#[derive(Clone, Copy, Debug, PartialEq, Eq, Structural)]
pub enum Step {
    /// When the generation clock is due: the game runs.
    OnClock,
    /// Now: the game is paused and N was pressed.
    Now,
    /// Not in this frame.
    Not,
}

/// When the grid moves to its next generation in this frame.
pub fn step_due(flags: &GameFlags, input: &Controls) -> (step: Step)
    ensures
        step == if !flags.is_paused {
            Step::OnClock
        } else if input.n_pressed {
            Step::Now
        } else {
            Step::Not
        },
{
    if !flags.is_paused {
        Step::OnClock
    } else if input.n_pressed {
        Step::Now
    } else {
        Step::Not
    }
}

} // verus!
