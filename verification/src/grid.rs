//! The infinite cell grid of the Game of Life.
//!
//! A cell is addressed by a pair of `i32` coordinates.  The set of live
//! cells is kept in a hash set of `u64` keys, one key per cell, so that
//! the hash set's behaviour is the one vstd specifies for integer keys.

use std::collections::HashSet;
use vstd::prelude::*;
use vstd::std_specs::iter::IteratorSpec;

verus! {

/// Distance between the smallest `i32` and zero.
pub const COORD_OFFSET: u64 = 0x8000_0000;

/// Number of distinct `i32` values.
pub const COORD_SPAN: u64 = 0x1_0000_0000;

/// The position of a cell on the grid.
#[derive(Clone, Copy, Debug, PartialEq, Eq, Structural, Hash)]
pub struct CellPos {
    pub x: i32,
    pub y: i32,
}

/// Whether both coordinates of `c` are `i32` values.
pub open spec fn fits_i32(c: (int, int)) -> bool {
    &&& i32::MIN <= c.0 <= i32::MAX
    &&& i32::MIN <= c.1 <= i32::MAX
}

/// The key under which a cell is stored.
pub open spec fn cell_key(c: (int, int)) -> int {
    (c.0 + COORD_OFFSET) * COORD_SPAN + (c.1 + COORD_OFFSET)
}

/// The cell stored under a key.
pub open spec fn key_cell(k: int) -> (int, int) {
    (k / (COORD_SPAN as int) - COORD_OFFSET, k % (COORD_SPAN as int) - COORD_OFFSET)
}

/// The cells whose keys a set of keys holds.
pub open spec fn cells_of(keys: Set<u64>) -> Set<(int, int)> {
    Set::new(|c: (int, int)| fits_i32(c) && keys.contains(cell_key(c) as u64))
}

/// Keys and cells are in one-to-one correspondence.
proof fn lemma_key_cell_roundtrip(c: (int, int))
    requires
        fits_i32(c),
    ensures
        0 <= cell_key(c) <= u64::MAX,
        key_cell(cell_key(c)) == c,
{
    let hi = c.0 + COORD_OFFSET;
    let lo = c.1 + COORD_OFFSET;
    assert(0 <= lo < COORD_SPAN);
    vstd::arithmetic::div_mod::lemma_fundamental_div_mod_converse(
        cell_key(c),
        COORD_SPAN as int,
        hi,
        lo,
    );
}

/// Every key is the key of the cell stored under it.
proof fn lemma_cell_key_roundtrip(k: u64)
    ensures
        fits_i32(key_cell(k as int)),
        cell_key(key_cell(k as int)) == k,
{
    let hi = k as int / (COORD_SPAN as int);
    let lo = k as int % (COORD_SPAN as int);
    vstd::arithmetic::div_mod::lemma_fundamental_div_mod(k as int, COORD_SPAN as int);
    vstd::arithmetic::div_mod::lemma_mod_bound(k as int, COORD_SPAN as int);
    assert(hi < COORD_SPAN);
}

/// Whether both coordinates of `c` lie at least `margin` away from the
/// ends of the `i32` range.
pub open spec fn within_margin(c: (int, int), margin: int) -> bool {
    &&& i32::MIN + margin <= c.0 <= i32::MAX - margin
    &&& i32::MIN + margin <= c.1 <= i32::MAX - margin
}

/// The eight cells around `c`: the row above from left to right, the
/// cells left and right of `c`, then the row below from left to right.
pub open spec fn neighbor_cells(c: (int, int)) -> Seq<(int, int)> {
    seq![
        (c.0 - 1, c.1 - 1), (c.0, c.1 - 1), (c.0 + 1, c.1 - 1),
        (c.0 - 1, c.1), (c.0 + 1, c.1),
        (c.0 - 1, c.1 + 1), (c.0, c.1 + 1), (c.0 + 1, c.1 + 1),
    ]
}

/// How many entries of `cells` are live cells.
pub open spec fn count_alive(alive: Set<(int, int)>, cells: Seq<(int, int)>) -> nat
    decreases cells.len(),
{
    if cells.len() == 0 {
        0
    } else {
        count_alive(alive, cells.drop_last()) + if alive.contains(cells.last()) { 1nat } else { 0 }
    }
}

/// How many of the eight cells around `c` are alive.
pub open spec fn live_neighbors(alive: Set<(int, int)>, c: (int, int)) -> nat {
    count_alive(alive, neighbor_cells(c))
}

/// Conway's rule: a live cell with two or three live neighbours stays
/// alive, a dead cell with exactly three live neighbours comes to life,
/// every other cell is dead in the next generation.
pub open spec fn lives_next(alive: Set<(int, int)>, c: (int, int)) -> bool {
    let n = live_neighbors(alive, c);
    if alive.contains(c) {
        n == 2 || n == 3
    } else {
        n == 3
    }
}

/// The live cells of the generation that follows `alive`.
pub open spec fn next_generation(alive: Set<(int, int)>) -> Set<(int, int)> {
    Set::new(|c: (int, int)| lives_next(alive, c))
}

/// A cell counted as alive stands among the cells counted.
proof fn lemma_counted_cell_is_alive(alive: Set<(int, int)>, cells: Seq<(int, int)>)
    requires
        count_alive(alive, cells) > 0,
    ensures
        exists|i: int| 0 <= i < cells.len() && alive.contains(#[trigger] cells[i]),
    decreases cells.len(),
{
    if !alive.contains(cells.last()) {
        lemma_counted_cell_is_alive(alive, cells.drop_last());
        let i = choose|i: int| 0 <= i < cells.drop_last().len() && alive.contains(#[trigger] cells.drop_last()[i]);
        assert(cells[i] == cells.drop_last()[i]);
    } else {
        assert(alive.contains(cells[cells.len() - 1]));
    }
}

/// Being a neighbour is symmetric: `c` is the opposite neighbour of each
/// of its neighbours.
proof fn lemma_neighbor_symmetric(c: (int, int), i: int)
    requires
        0 <= i < 8,
    ensures
        neighbor_cells(neighbor_cells(c)[i])[7 - i] == c,
{
}

/// A cell that lives in the next generation is alive now or has a live
/// neighbour.
proof fn lemma_next_cell_near_alive(alive: Set<(int, int)>, c: (int, int))
    requires
        lives_next(alive, c),
    ensures
        alive.contains(c) || exists|i: int| 0 <= i < 8 && alive.contains(#[trigger] neighbor_cells(c)[i]),
{
    if !alive.contains(c) {
        lemma_counted_cell_is_alive(alive, neighbor_cells(c));
    }
}

/// The set of keys `s` holds the key of `c` and the keys of its neighbours.
spec fn covers(s: Set<u64>, c: (int, int)) -> bool {
    &&& s.contains(cell_key(c) as u64)
    &&& forall|i: int| 0 <= i < 8 ==> #[trigger] s.contains(cell_key(neighbor_cells(c)[i]) as u64)
}

/// The cells of `alive` moved `dx` cells right and `dy` cells down.
pub open spec fn shifted(alive: Set<(int, int)>, dx: int, dy: int) -> Set<(int, int)> {
    Set::new(|c: (int, int)| alive.contains((c.0 - dx, c.1 - dy)))
}

/// Two lists of cells of one length, whose entries are alive in their
/// grids at the same places, count as many live cells.
proof fn lemma_count_alive_matches(a: Set<(int, int)>, s: Seq<(int, int)>, b: Set<(int, int)>, t: Seq<(int, int)>)
    requires
        s.len() == t.len(),
        forall|i: int| 0 <= i < s.len() ==> a.contains(#[trigger] s[i]) == b.contains(t[i]),
    ensures
        count_alive(a, s) == count_alive(b, t),
    decreases s.len(),
{
    if s.len() > 0 {
        lemma_count_alive_matches(a, s.drop_last(), b, t.drop_last());
        assert(a.contains(s[s.len() - 1]) == b.contains(t[t.len() - 1]));
    }
}

/// No cell comes to life on an empty grid.
pub proof fn law_empty_grid_stays_empty()
    ensures
        next_generation(Set::<(int, int)>::empty()) == Set::<(int, int)>::empty(),
{
    assert forall|c: (int, int)| !#[trigger] next_generation(Set::<(int, int)>::empty()).contains(c) by {
        reveal_with_fuel(count_alive, 9);
    }
    assert(next_generation(Set::<(int, int)>::empty()) =~= Set::<(int, int)>::empty());
}

/// A cell alive in the next generation is alive now or is one of the eight
/// neighbours of a cell alive now.
pub proof fn law_next_generation_is_local(alive: Set<(int, int)>, c: (int, int))
    requires
        next_generation(alive).contains(c),
    ensures
        alive.contains(c) || exists|i: int| 0 <= i < 8 && alive.contains(#[trigger] neighbor_cells(c)[i]),
{
    lemma_next_cell_near_alive(alive, c);
}

/// Moving the live cells and then taking the next generation is the same
/// as taking the next generation and then moving it.
pub proof fn law_next_generation_commutes_with_shift(alive: Set<(int, int)>, dx: int, dy: int)
    ensures
        next_generation(shifted(alive, dx, dy)) == shifted(next_generation(alive), dx, dy),
{
    let moved = shifted(alive, dx, dy);
    assert forall|c: (int, int)| #[trigger] next_generation(moved).contains(c)
        == shifted(next_generation(alive), dx, dy).contains(c) by {
        let o = (c.0 - dx, c.1 - dy);
        let s = neighbor_cells(c);
        let t = neighbor_cells(o);
        assert forall|i: int| 0 <= i < s.len() implies moved.contains(#[trigger] s[i]) == alive.contains(t[i]) by {
            assert((s[i].0 - dx, s[i].1 - dy) == t[i]);
        }
        lemma_count_alive_matches(moved, s, alive, t);
    }
    assert(next_generation(moved) =~= shifted(next_generation(alive), dx, dy));
}

/// Counting the live entries of a list without repeats counts the live
/// cells among the cells it lists.
proof fn lemma_count_alive_is_card(alive: Set<(int, int)>, s: Seq<(int, int)>)
    requires
        s.no_duplicates(),
    ensures
        alive.intersect(s.to_set()).finite(),
        count_alive(alive, s) == alive.intersect(s.to_set()).len(),
    decreases s.len(),
{
    if s.len() == 0 {
        assert(alive.intersect(s.to_set()) =~= Set::<(int, int)>::empty());
    } else {
        let t = s.drop_last();
        let x = s.last();
        assert(t.no_duplicates());
        lemma_count_alive_is_card(alive, t);
        assert(s =~= t.push(x));
        t.lemma_push_to_set_commute(x);
        assert(!t.to_set().contains(x)) by {
            if t.to_set().contains(x) {
                let i = choose|i: int| 0 <= i < t.len() && t[i] == x;
                assert(s[i] == s[s.len() - 1]);
            }
        }
        if alive.contains(x) {
            assert(alive.intersect(s.to_set()) =~= alive.intersect(t.to_set()).insert(x));
        } else {
            assert(alive.intersect(s.to_set()) =~= alive.intersect(t.to_set()));
        }
    }
}

/// The live neighbours of `c` are the live cells other than `c` whose
/// coordinates each differ from those of `c` by at most one, and
/// `live_neighbors` is how many there are.
pub proof fn law_live_neighbors_counts_adjacent_live_cells(alive: Set<(int, int)>, c: (int, int))
    ensures
        alive.filter(|q: (int, int)| q != c && -1 <= q.0 - c.0 <= 1 && -1 <= q.1 - c.1 <= 1).finite(),
        live_neighbors(alive, c)
            == alive.filter(|q: (int, int)| q != c && -1 <= q.0 - c.0 <= 1 && -1 <= q.1 - c.1 <= 1).len(),
{
    let s = neighbor_cells(c);
    assert(s.no_duplicates()) by {
        assert forall|i: int, j: int| 0 <= i < s.len() && 0 <= j < s.len() && i != j implies s[i] != s[j] by {}
    }
    lemma_count_alive_is_card(alive, s);
    let adjacent = alive.filter(|q: (int, int)| q != c && -1 <= q.0 - c.0 <= 1 && -1 <= q.1 - c.1 <= 1);
    assert forall|q: (int, int)| #[trigger] adjacent.contains(q) == alive.intersect(s.to_set()).contains(q) by {
        if q != c && -1 <= q.0 - c.0 <= 1 && -1 <= q.1 - c.1 <= 1 {
            let dx = q.0 - c.0;
            let dy = q.1 - c.1;
            let i: int = if dy == -1 {
                dx + 1
            } else if dy == 0 {
                if dx == -1 { 3 } else { 4 }
            } else {
                dx + 6
            };
            assert(s[i] == q);
            assert(s.to_set().contains(q));
        }
        if s.to_set().contains(q) {
            let i = choose|i: int| 0 <= i < s.len() && s[i] == q;
        }
    }
    assert(adjacent =~= alive.intersect(s.to_set()));
}

/// Birth: a dead cell is alive in the next generation exactly when three
/// of its neighbours are alive.
pub proof fn law_dead_cell_born_on_exactly_three(alive: Set<(int, int)>, c: (int, int))
    requires
        !alive.contains(c),
    ensures
        next_generation(alive).contains(c) <==> live_neighbors(alive, c) == 3,
{
}

/// Survival: a live cell stays alive in the next generation exactly when
/// two or three of its neighbours are alive.
pub proof fn law_live_cell_survives_on_two_or_three(alive: Set<(int, int)>, c: (int, int))
    requires
        alive.contains(c),
    ensures
        next_generation(alive).contains(c) <==> (live_neighbors(alive, c) == 2 || live_neighbors(alive, c) == 3),
{
}

/// Reviving a dead cell and killing it again leaves the live cells as
/// they were.
pub proof fn law_revive_then_kill(alive: Set<(int, int)>, c: (int, int))
    requires
        !alive.contains(c),
    ensures
        alive.insert(c).remove(c) == alive,
{
    assert(alive.insert(c).remove(c) =~= alive);
}

/// Killing a live cell and reviving it again leaves the live cells as
/// they were.
pub proof fn law_kill_then_revive(alive: Set<(int, int)>, c: (int, int))
    requires
        alive.contains(c),
    ensures
        alive.remove(c).insert(c) == alive,
{
    assert(alive.remove(c).insert(c) =~= alive);
}

impl CellPos {
    /// The position as a pair of integers.
    pub open spec fn cell(self) -> (int, int) {
        (self.x as int, self.y as int)
    }

    pub fn new(x: i32, y: i32) -> (pos: Self)
        ensures
            pos.x == x,
            pos.y == y,
    {
        CellPos { x, y }
    }

    /// The key under which this position is stored.
    pub fn key(&self) -> (k: u64)
        ensures
            k as int == cell_key(self.cell()),
    {
        proof {
            lemma_key_cell_roundtrip(self.cell());
        }
        let hi: u64 = (self.x as i64 + COORD_OFFSET as i64) as u64;
        let lo: u64 = (self.y as i64 + COORD_OFFSET as i64) as u64;
        hi * COORD_SPAN + lo
    }

    /// The position stored under a key.
    pub fn from_key(k: u64) -> (pos: Self)
        ensures
            pos.cell() == key_cell(k as int),
    {
        proof {
            lemma_cell_key_roundtrip(k);
        }
        let hi: i64 = (k / COORD_SPAN) as i64 - COORD_OFFSET as i64;
        let lo: i64 = (k % COORD_SPAN) as i64 - COORD_OFFSET as i64;
        CellPos { x: hi as i32, y: lo as i32 }
    }
}

/// The grid: the keys of its live cells and the number of generations it
/// has lived.
pub struct Grid {
    pub alive: HashSet<u64>,
    pub generation: u64,
}

impl View for Grid {
    type V = Set<(int, int)>;

    /// The live cells.
    open spec fn view(&self) -> Set<(int, int)> {
        cells_of(self.alive@)
    }
}

impl Clone for Grid {
    /// A grid with the same live cells and the same generation.
    fn clone(&self) -> (copy: Self)
        ensures
            copy@ == self@,
            copy.alive@ == self.alive@,
            copy.generation == self.generation,
    {
        let mut alive: HashSet<u64> = HashSet::with_capacity(self.alive.len());
        let ghost keys = vstd::std_specs::hash::spec_hash_keys_iter(&self.alive).remaining().unref();
        for k in it: self.alive.iter()
            invariant
                it.seq().unref() == keys,
                keys.to_set() == self.alive@,
                alive@ == keys.take(it.index()).to_set(),
        {
            proof {
                let i = it.index();
                assert(keys.take(i + 1) =~= keys.take(i).push(*k));
                keys.take(i).lemma_push_to_set_commute(*k);
            }
            alive.insert(*k);
        }
        assert(keys.take(keys.len() as int) =~= keys);
        Grid { alive, generation: self.generation }
    }
}

impl Grid {
    /// An empty grid at generation zero.
    pub fn new() -> (grid: Self)
        ensures
            grid@ == Set::<(int, int)>::empty(),
            grid.generation == 0,
    {
        let grid = Grid { alive: HashSet::with_capacity(100_000), generation: 0 };
        assert(grid@ =~= Set::<(int, int)>::empty());
        grid
    }

    /// Whether the cell at `pos` is alive.
    pub fn is_alive(&self, pos: &CellPos) -> (alive: bool)
        ensures
            alive == self@.contains(pos.cell()),
    {
        let k: u64 = pos.key();
        proof {
            lemma_key_cell_roundtrip(pos.cell());
        }
        self.alive.contains(&k)
    }

    /// Brings the cell at `pos` to life; tells whether it was dead before.
    pub fn revive(&mut self, pos: CellPos) -> (was_dead: bool)
        ensures
            final(self)@ == old(self)@.insert(pos.cell()),
            was_dead == !old(self)@.contains(pos.cell()),
            final(self).generation == old(self).generation,
    {
        let k: u64 = pos.key();
        proof {
            lemma_key_cell_roundtrip(pos.cell());
        }
        let was_dead = self.alive.insert(k);
        proof {
            assert forall|c: (int, int)| #[trigger] self@.contains(c) == old(self)@.insert(pos.cell()).contains(c) by {
                if fits_i32(c) {
                    lemma_key_cell_roundtrip(c);
                }
            }
            assert(self@ =~= old(self)@.insert(pos.cell()));
        }
        was_dead
    }

    /// Kills the cell at `pos`; tells whether it was alive before.
    pub fn kill(&mut self, pos: &CellPos) -> (was_alive: bool)
        ensures
            final(self)@ == old(self)@.remove(pos.cell()),
            was_alive == old(self)@.contains(pos.cell()),
            final(self).generation == old(self).generation,
    {
        let k: u64 = pos.key();
        proof {
            lemma_key_cell_roundtrip(pos.cell());
        }
        let was_alive = self.alive.remove(&k);
        proof {
            assert forall|c: (int, int)| #[trigger] self@.contains(c) == old(self)@.remove(pos.cell()).contains(c) by {
                if fits_i32(c) {
                    lemma_key_cell_roundtrip(c);
                }
            }
            assert(self@ =~= old(self)@.remove(pos.cell()));
        }
        was_alive
    }

    /// The conditions under which `evolve` can run: every live cell lies
    /// two cells away from the ends of the `i32` range, so that the
    /// neighbours of its neighbours have `i32` coordinates; the capacity
    /// asked for the candidate cells fits in a `usize`; the generation
    /// counter can still grow.
    pub open spec fn evolvable(&self) -> bool {
        &&& forall|c: (int, int)| #[trigger] self@.contains(c) ==> within_margin(c, 2)
        &&& self.alive@.len() * 4 <= usize::MAX
        &&& self.generation < u64::MAX
    }

    /// The eight positions around `pos`, in the order of `neighbor_cells`.
    pub fn get_neighbors_positions(&self, pos: &CellPos) -> (neighbors: [CellPos; 8])
        requires
            within_margin(pos.cell(), 1),
        ensures
            forall|i: int| 0 <= i < 8 ==> (#[trigger] neighbors@[i]).cell() == neighbor_cells(pos.cell())[i],
    {
        let previous_row_y: i32 = pos.y - 1;
        let next_row_y: i32 = pos.y + 1;

        [
            CellPos::new(pos.x - 1, previous_row_y),
            CellPos::new(pos.x, previous_row_y),
            CellPos::new(pos.x + 1, previous_row_y),
            CellPos::new(pos.x - 1, pos.y),
            CellPos::new(pos.x + 1, pos.y),
            CellPos::new(pos.x - 1, next_row_y),
            CellPos::new(pos.x, next_row_y),
            CellPos::new(pos.x + 1, next_row_y),
        ]
    }

    /// How many of the eight cells around `pos` are alive.
    pub fn count_neighbors(&self, pos: &CellPos) -> (count: u8)
        requires
            within_margin(pos.cell(), 1),
        ensures
            count == live_neighbors(self@, pos.cell()),
    {
        let ghost cells = neighbor_cells(pos.cell());
        let neighbors = self.get_neighbors_positions(pos);
        let mut count: u8 = 0;
        for i in 0..8usize
            invariant
                forall|m: int| 0 <= m < 8 ==> (#[trigger] neighbors@[m]).cell() == cells[m],
                cells == neighbor_cells(pos.cell()),
                count == count_alive(self@, cells.take(i as int)),
                count <= i,
        {
            let neighbor_pos = neighbors[i];
            assert(cells.take(i + 1).drop_last() =~= cells.take(i as int));
            if self.is_alive(&neighbor_pos) {
                count += 1;
            }
        }
        assert(cells.take(8) =~= cells);
        count
    }

    /// Moves the grid one generation forward by Conway's rule.
    pub fn evolve(&mut self)
        requires
            old(self).evolvable(),
        ensures
            final(self)@ == next_generation(old(self)@),
            final(self).generation == old(self).generation + 1,
    {
        let ghost alive0 = self@;
        let ghost keys = vstd::std_specs::hash::spec_hash_keys_iter(&self.alive).remaining().unref();
        let mut potential_cells: HashSet<u64> = HashSet::with_capacity(self.alive.len() * 4);
        for k in it: self.alive.iter()
            invariant
                it.seq().unref() == keys,
                keys.to_set() == self.alive@,
                self@ == alive0,
                forall|c: (int, int)| #[trigger] alive0.contains(c) ==> within_margin(c, 2),
                forall|p: u64| #[trigger] potential_cells@.contains(p) ==> within_margin(key_cell(p as int), 1),
                forall|j: int| 0 <= j < it.index() ==> covers(potential_cells@, key_cell(#[trigger] keys[j] as int)),
        {
            let ghost i = it.index();
            let ghost before = potential_cells@;
            assert(keys[i] == *k);
            assert(self.alive@.contains(*k)) by {
                assert(keys.to_set().contains(keys[i]));
            }
            let pos = CellPos::from_key(*k);
            proof {
                lemma_cell_key_roundtrip(*k);
                assert(alive0.contains(pos.cell()));
            }
            potential_cells.insert(*k);
            let neighbors = self.get_neighbors_positions(&pos);
            for m in 0..8usize
                invariant
                    forall|n: int| 0 <= n < 8 ==> (#[trigger] neighbors@[n]).cell() == neighbor_cells(pos.cell())[n],
                    within_margin(pos.cell(), 2),
                    before.subset_of(potential_cells@),
                    potential_cells@.contains(cell_key(pos.cell()) as u64),
                    forall|n: int| 0 <= n < m ==> #[trigger] potential_cells@.contains(cell_key(neighbor_cells(pos.cell())[n]) as u64),
                    forall|p: u64| #[trigger] potential_cells@.contains(p) ==> within_margin(key_cell(p as int), 1),
            {
                let neighbor_key: u64 = neighbors[m].key();
                proof {
                    lemma_key_cell_roundtrip(neighbors@[m as int].cell());
                }
                potential_cells.insert(neighbor_key);
            }
            assert forall|j: int| 0 <= j < it.index() + 1 implies covers(potential_cells@, key_cell(#[trigger] keys[j] as int)) by {
                if j < i {
                    assert(covers(before, key_cell(keys[j] as int)));
                }
            }
        }
        // Every cell of the next generation is a candidate.
        assert forall|c: (int, int)| #[trigger] lives_next(alive0, c) implies fits_i32(c) && potential_cells@.contains(cell_key(c) as u64) by {
            lemma_next_cell_near_alive(alive0, c);
            if alive0.contains(c) {
                lemma_key_cell_roundtrip(c);
                assert(keys.to_set().contains(cell_key(c) as u64));
                let j = choose|j: int| 0 <= j < keys.len() && keys[j] == cell_key(c) as u64;
                assert(covers(potential_cells@, key_cell(keys[j] as int)));
            } else {
                let i = choose|i: int| 0 <= i < 8 && alive0.contains(#[trigger] neighbor_cells(c)[i]);
                let q = neighbor_cells(c)[i];
                lemma_neighbor_symmetric(c, i);
                lemma_key_cell_roundtrip(q);
                assert(keys.to_set().contains(cell_key(q) as u64));
                let j = choose|j: int| 0 <= j < keys.len() && keys[j] == cell_key(q) as u64;
                assert(covers(potential_cells@, key_cell(keys[j] as int)));
                assert(potential_cells@.contains(cell_key(neighbor_cells(q)[7 - i]) as u64));
            }
        }

        let ghost candidates = vstd::std_specs::hash::spec_hash_keys_iter(&potential_cells).remaining().unref();
        let ghost next = |p: u64| lives_next(alive0, key_cell(p as int));
        let mut alive_next: HashSet<u64> = HashSet::with_capacity(self.alive.len());
        for k in it: potential_cells.iter()
            invariant
                it.seq().unref() == candidates,
                candidates.to_set() == potential_cells@,
                self@ == alive0,
                forall|p: u64| #[trigger] potential_cells@.contains(p) ==> within_margin(key_cell(p as int), 1),
                next == (|p: u64| lives_next(alive0, key_cell(p as int))),
                alive_next@ == candidates.take(it.index()).to_set().filter(next),
        {
            let ghost i = it.index();
            assert(candidates[i] == *k);
            assert(potential_cells@.contains(*k)) by {
                assert(candidates.to_set().contains(candidates[i]));
            }
            let pos = CellPos::from_key(*k);
            proof {
                lemma_cell_key_roundtrip(*k);
                assert(self.alive@.contains(*k) == alive0.contains(pos.cell()));
                assert(next(*k) == lives_next(alive0, pos.cell()));
            }
            let live_neighbors: u8 = self.count_neighbors(&pos);
            if self.alive.contains(k) && (live_neighbors == 2 || live_neighbors == 3) {
                alive_next.insert(*k);
            } else if live_neighbors == 3 {
                alive_next.insert(*k);
            }
            proof {
                assert(candidates.take(i + 1) =~= candidates.take(i).push(*k));
                candidates.take(i).lemma_push_to_set_commute(*k);
                assert(alive_next@ =~= candidates.take(i + 1).to_set().filter(next));
            }
        }
        proof {
            assert(candidates.take(candidates.len() as int) =~= candidates);
            assert forall|c: (int, int)| #[trigger] cells_of(alive_next@).contains(c) == next_generation(alive0).contains(c) by {
                if fits_i32(c) {
                    lemma_key_cell_roundtrip(c);
                }
            }
            assert(cells_of(alive_next@) =~= next_generation(alive0));
        }

        self.alive = alive_next;
        self.generation += 1;
    }

    /// `evolve` can run exactly when every live cell lies at least two cells
    /// inside the `i32` range in both coordinates, four times the number of
    /// live cells fits in a `usize`, and the generation is below `u64::MAX`.
    pub proof fn law_evolvable_exactly_within_bounds(&self)
        ensures
            self.evolvable() <==> (forall|c: (int, int)| #[trigger] self@.contains(c)
                ==> i32::MIN + 2 <= c.0 <= i32::MAX - 2 && i32::MIN + 2 <= c.1 <= i32::MAX - 2)
                && self.alive@.len() * 4 <= usize::MAX
                && self.generation < u64::MAX,
    {
    }

    /// Tells whether `evolve` can run on this grid.
    pub fn can_evolve(&self) -> (ok: bool)
        ensures
            ok == self.evolvable(),
            ok <==> (forall|c: (int, int)| #[trigger] self@.contains(c)
                ==> i32::MIN + 2 <= c.0 <= i32::MAX - 2 && i32::MIN + 2 <= c.1 <= i32::MAX - 2)
                && self.alive@.len() * 4 <= usize::MAX
                && self.generation < u64::MAX,
    {
        proof {
            self.law_evolvable_exactly_within_bounds();
        }
        if self.generation == u64::MAX {
            return false;
        }
        if self.alive.len() > usize::MAX / 4 {
            return false;
        }
        let ghost keys = vstd::std_specs::hash::spec_hash_keys_iter(&self.alive).remaining().unref();
        for k in it: self.alive.iter()
            invariant
                it.seq().unref() == keys,
                keys.to_set() == self.alive@,
                forall|j: int| 0 <= j < it.index() ==> within_margin(key_cell(#[trigger] keys[j] as int), 2),
        {
            let ghost i = it.index();
            assert(keys[i] == *k);
            let pos = CellPos::from_key(*k);
            if !(i32::MIN + 2 <= pos.x && pos.x <= i32::MAX - 2 && i32::MIN + 2 <= pos.y && pos.y <= i32::MAX - 2) {
                proof {
                    lemma_cell_key_roundtrip(*k);
                    assert(keys.to_set().contains(keys[i]));
                    assert(self@.contains(pos.cell()));
                }
                return false;
            }
        }
        proof {
            assert forall|c: (int, int)| #[trigger] self@.contains(c) implies within_margin(c, 2) by {
                lemma_key_cell_roundtrip(c);
                assert(keys.to_set().contains(cell_key(c) as u64));
                let j = choose|j: int| 0 <= j < keys.len() && keys[j] == cell_key(c) as u64;
            }
        }
        true
    }

    /// Moves the grid one generation forward where `evolve` can run, and
    /// tells whether it did; the grid is left as it was where it cannot.
    pub fn try_evolve(&mut self) -> (stepped: bool)
        ensures
            stepped == old(self).evolvable(),
            stepped <==> (forall|c: (int, int)| #[trigger] old(self)@.contains(c)
                ==> i32::MIN + 2 <= c.0 <= i32::MAX - 2 && i32::MIN + 2 <= c.1 <= i32::MAX - 2)
                && old(self).alive@.len() * 4 <= usize::MAX
                && old(self).generation < u64::MAX,
            stepped ==> final(self)@ == next_generation(old(self)@),
            stepped ==> final(self).generation == old(self).generation + 1,
            !stepped ==> final(self)@ == old(self)@ && final(self).generation == old(self).generation,
    {
        if self.can_evolve() {
            self.evolve();
            true
        } else {
            false
        }
    }

    /// Kills every cell and sets the generation back to zero.
    pub fn reset(&mut self)
        ensures
            final(self)@ == Set::<(int, int)>::empty(),
            final(self).generation == 0,
    {
        self.alive.clear();
        self.generation = 0;
        assert(self@ =~= Set::<(int, int)>::empty());
    }
}

} // verus!
