use vstd::prelude::*;

use crate::cell::{spec_alive, spec_owner, spec_pack, spec_points, Cell};

verus! {

/// Grid dimension (512 x 512).
pub const GRID_SIZE: usize = 512;

/// Bit shift for row-to-index conversion (2^9 = 512).
pub const GRID_SHIFT: usize = 9;

/// Bitmask for wrapping a coordinate (x & GRID_MASK == x % 512).
pub const GRID_MASK: usize = 0x1FF;

/// Total cells in the grid.
pub const TOTAL_CELLS: usize = 262_144;

/// Largest number of players a grid supports.
pub const MAX_PLAYERS: usize = 10;

/// Starting balance for new players.
pub const STARTING_BALANCE: u64 = 1_000;

/// Generations per second.
pub const GENERATIONS_PER_SECOND: u64 = 10;

/// Milliseconds per generation.
pub const MS_PER_GENERATION: u64 = 100;

/// A point transfer produced by a capture: `(to_player_index, points)`,
/// with the player index zero-based.
pub type PointTransfer = (usize, u8);

/// Flat index of a grid coordinate.
pub fn idx(row: usize, col: usize) -> (r: usize)
    requires
        row < GRID_SIZE,
        col < GRID_SIZE,
    ensures
        r == row * 512 + col,
        r < TOTAL_CELLS,
{
    row * GRID_SIZE + col
}

/// The flat index of the neighbor at wrapped offset `(dr, dc)`.
pub open spec fn nidx(row: int, col: int, dr: int, dc: int) -> int {
    ((row + dr) % 512) * 512 + ((col + dc) % 512)
}

/// The wrapped row offset of neighbor `k` (clockwise from northwest).
pub open spec fn dr_of(k: int) -> int {
    if k == 0 {
        511
    } else if k == 1 {
        511
    } else if k == 2 {
        511
    } else if k == 3 {
        0
    } else if k == 4 {
        0
    } else if k == 5 {
        1
    } else if k == 6 {
        1
    } else {
        1
    }
}

/// The wrapped column offset of neighbor `k`.
pub open spec fn dc_of(k: int) -> int {
    if k == 0 {
        511
    } else if k == 1 {
        0
    } else if k == 2 {
        1
    } else if k == 3 {
        511
    } else if k == 4 {
        1
    } else if k == 5 {
        511
    } else if k == 6 {
        0
    } else {
        1
    }
}

/// One toroidal neighbor's contribution to the live count.
pub open spec fn nb(s: Seq<Cell>, row: int, col: int, dr: int, dc: int) -> int {
    if spec_alive(s[nidx(row, col, dr, dc)].0) {
        1
    } else {
        0
    }
}

/// How many of the first `k` neighbors are alive.
pub open spec fn count_upto(s: Seq<Cell>, row: int, col: int, k: int) -> int
    decreases k,
{
    if k <= 0 {
        0
    } else {
        count_upto(s, row, col, k - 1) + nb(s, row, col, dr_of(k - 1), dc_of(k - 1))
    }
}

/// How many of the eight toroidal neighbors are alive.
pub open spec fn spec_neighbor_count(s: Seq<Cell>, row: int, col: int) -> int {
    count_upto(s, row, col, 8)
}

/// One neighbor's contribution to owner `o`'s live count.
pub open spec fn nbo(s: Seq<Cell>, row: int, col: int, dr: int, dc: int, o: int) -> int {
    let c = s[nidx(row, col, dr, dc)];
    if spec_alive(c.0) && spec_owner(c.0) == o {
        1
    } else {
        0
    }
}

/// How many of the first `k` neighbors are alive and owned by `o`.
pub open spec fn ocount_upto(s: Seq<Cell>, row: int, col: int, o: int, k: int) -> int
    decreases k,
{
    if k <= 0 {
        0
    } else {
        ocount_upto(s, row, col, o, k - 1) + nbo(s, row, col, dr_of(k - 1), dc_of(k - 1), o)
    }
}

/// How many of the eight neighbors are alive and owned by `o`.
pub open spec fn spec_owner_count(s: Seq<Cell>, row: int, col: int, o: int) -> int {
    ocount_upto(s, row, col, o, 8)
}

/// The per-owner live-neighbor counts, indexed 0 to 10.
pub open spec fn counts_of(s: Seq<Cell>, row: int, col: int) -> Seq<u8> {
    Seq::new(11, |o: int| spec_owner_count(s, row, col, o) as u8)
}

/// The scan the majority choice makes over owners `1 .. k`: the first
/// owner with the strictly largest count wins; owner 1 on a blank field.
pub open spec fn spec_scan(counts: Seq<u8>, k: int) -> (u8, int)
    decreases k,
{
    if k <= 1 {
        (1u8, 0int)
    } else {
        let prev = spec_scan(counts, k - 1);
        if counts[k - 1] > prev.1 {
            ((k - 1) as u8, counts[k - 1] as int)
        } else {
            prev
        }
    }
}

/// The majority owner among the live neighbors.
pub open spec fn spec_majority(counts: Seq<u8>) -> u8 {
    spec_scan(counts, 11).0
}

/// What cell `i` becomes in the next generation: survival with two or
/// three neighbors, birth with exactly three (inheriting the majority
/// owner and capturing any points a foreign owner left there), death
/// otherwise, territory always preserved.
pub open spec fn spec_step_cell(s: Seq<Cell>, i: int) -> u16 {
    let row = i / 512;
    let col = i % 512;
    let cur = s[i];
    let n = spec_neighbor_count(s, row, col);
    if spec_alive(cur.0) {
        spec_pack(spec_owner(cur.0), spec_points(cur.0), n == 2 || n == 3)
    } else if n == 3 {
        let winner = spec_majority(counts_of(s, row, col));
        if spec_points(cur.0) > 0 && spec_owner(cur.0) > 0 && spec_owner(cur.0) != winner {
            spec_pack(winner, 0, true)
        } else {
            spec_pack(winner, spec_points(cur.0), true)
        }
    } else {
        spec_pack(spec_owner(cur.0), spec_points(cur.0), false)
    }
}

/// Whether the birth at cell `i` captures a foreign owner's points.
pub open spec fn spec_is_capture(s: Seq<Cell>, i: int) -> bool {
    let row = i / 512;
    let col = i % 512;
    let cur = s[i];
    &&& !spec_alive(cur.0)
    &&& spec_neighbor_count(s, row, col) == 3
    &&& spec_points(cur.0) > 0
    &&& spec_owner(cur.0) > 0
    &&& spec_owner(cur.0) != spec_majority(counts_of(s, row, col))
}

/// The point transfers of all captures among the first `n` cells, in
/// cell order.
pub open spec fn spec_transfers(s: Seq<Cell>, n: int) -> Seq<PointTransfer>
    decreases n,
{
    if n <= 0 {
        Seq::empty()
    } else {
        let t = spec_transfers(s, n - 1);
        if spec_is_capture(s, n - 1) {
            t.push(
                (
                    (spec_majority(counts_of(s, (n - 1) / 512, (n - 1) % 512)) - 1) as usize,
                    spec_points(s[n - 1].0),
                ),
            )
        } else {
            t
        }
    }
}

/// Count the live neighbors of `(row, col)` and how many each owner has.
fn neighbor_stats(cells: &Vec<Cell>, row: usize, col: usize) -> (r: (u8, Vec<u8>))
    requires
        cells@.len() == TOTAL_CELLS,
        row < GRID_SIZE,
        col < GRID_SIZE,
    ensures
        r.0 == spec_neighbor_count(cells@, row as int, col as int),
        r.1@.len() == 11,
        forall|o: int|
            0 <= o < 11 ==> r.1@[o] == spec_owner_count(cells@, row as int, col as int, o),
{
    let mut counts: Vec<u8> = Vec::new();
    let mut j: usize = 0;
    while j < 11
        invariant
            j <= 11,
            counts@.len() == j,
            forall|o: int| 0 <= o < j ==> counts@[o] == 0,
        decreases 11 - j,
    {
        counts.push(0);
        j += 1;
    }
    let mut count: u8 = 0;
    let mut k: usize = 0;
    while k < 8
        invariant
            cells@.len() == TOTAL_CELLS,
            row < GRID_SIZE,
            col < GRID_SIZE,
            k <= 8,
            counts@.len() == 11,
            count == count_upto(cells@, row as int, col as int, k as int),
            count <= k,
            forall|o: int|
                0 <= o < 11 ==> counts@[o] == ocount_upto(cells@, row as int, col as int, o, k as int),
            forall|o: int| 0 <= o < 11 ==> counts@[o] <= count,
        decreases 8 - k,
    {
        let (dr, dc): (usize, usize) = if k == 0 {
            (511, 511)
        } else if k == 1 {
            (511, 0)
        } else if k == 2 {
            (511, 1)
        } else if k == 3 {
            (0, 511)
        } else if k == 4 {
            (0, 1)
        } else if k == 5 {
            (1, 511)
        } else if k == 6 {
            (1, 0)
        } else {
            (1, 1)
        };
        proof {
            assert(dr as int == dr_of(k as int) && dc as int == dc_of(k as int));
        }
        let nr = (row + dr) % GRID_SIZE;
        let nc = (col + dc) % GRID_SIZE;
        let c = cells[nr * GRID_SIZE + nc];
        let ghost oc = counts@;
        if c.alive() {
            count = count + 1;
            let o = c.owner() as usize;
            if o < 11 {
                let cur = counts[o];
                counts.set(o, cur + 1);
            }
            proof {
                assert forall|q: int| 0 <= q < 11 implies counts@[q] == ocount_upto(
                    cells@,
                    row as int,
                    col as int,
                    q,
                    k + 1,
                ) by {
                    if q == c.owner_spec() as int {
                        assert(counts@[q] == oc[q] + 1);
                    } else {
                        assert(counts@[q] == oc[q]);
                    }
                }
            }
        } else {
            proof {
                assert forall|q: int| 0 <= q < 11 implies counts@[q] == ocount_upto(
                    cells@,
                    row as int,
                    col as int,
                    q,
                    k + 1,
                ) by {
                    assert(counts@[q] == oc[q]);
                }
            }
        }
        k += 1;
    }
    (count, counts)
}

/// The first owner holding the strictly largest neighbor count; owner 1
/// when no neighbor is owned.
pub fn get_majority_owner(counts: &Vec<u8>) -> (r: u8)
    requires
        counts@.len() == 11,
    ensures
        r == spec_majority(counts@),
        1 <= r <= 10,
{
    let mut max_count: u8 = 0;
    let mut max_owner: u8 = 1;
    let mut o: usize = 1;
    while o < 11
        invariant
            counts@.len() == 11,
            1 <= o <= 11,
            max_owner == spec_scan(counts@, o as int).0,
            max_count == spec_scan(counts@, o as int).1,
            1 <= max_owner <= 10,
        decreases 11 - o,
    {
        if counts[o] > max_count {
            max_count = counts[o];
            max_owner = o as u8;
        }
        o += 1;
    }
    max_owner
}

/// Run one generation from `read_grid` into `write_grid` and return the
/// point transfers of every capture, in cell order.
pub fn step_generation_double_buffer(read_grid: &Vec<Cell>, write_grid: &mut Vec<Cell>) -> (r: Vec<
    PointTransfer,
>)
    requires
        read_grid@.len() == TOTAL_CELLS,
        old(write_grid)@.len() == TOTAL_CELLS,
    ensures
        final(write_grid)@.len() == TOTAL_CELLS,
        forall|i: int|
            0 <= i < TOTAL_CELLS ==> final(write_grid)@[i].0 == spec_step_cell(read_grid@, i),
        r@ == spec_transfers(read_grid@, TOTAL_CELLS as int),
{
    let mut transfers: Vec<PointTransfer> = Vec::new();
    let mut i: usize = 0;
    while i < TOTAL_CELLS
        invariant
            read_grid@.len() == TOTAL_CELLS,
            write_grid@.len() == TOTAL_CELLS,
            i <= TOTAL_CELLS,
            forall|j: int| 0 <= j < i ==> write_grid@[j].0 == spec_step_cell(read_grid@, j),
            transfers@ == spec_transfers(read_grid@, i as int),
        decreases TOTAL_CELLS - i,
    {
        let row = i / GRID_SIZE;
        let col = i % GRID_SIZE;
        let (count, counts) = neighbor_stats(read_grid, row, col);
        let cur = read_grid[i];
        if cur.alive() {
            let survives = count == 2 || count == 3;
            write_grid.set(i, Cell::new(cur.owner(), cur.points(), survives));
        } else if count == 3 {
            let winner = get_majority_owner(&counts);
            proof {
                assert(counts@ =~= counts_of(read_grid@, row as int, col as int));
            }
            if cur.points() > 0 && cur.owner() > 0 && cur.owner() != winner {
                transfers.push(((winner - 1) as usize, cur.points()));
                write_grid.set(i, Cell::new(winner, 0, true));
            } else {
                write_grid.set(i, Cell::new(winner, cur.points(), true));
            }
        } else {
            write_grid.set(i, Cell::new(cur.owner(), cur.points(), false));
        }
        proof {
            assert(spec_transfers(read_grid@, i + 1) == (if spec_is_capture(read_grid@, i as int) {
                spec_transfers(read_grid@, i as int).push(
                    (
                        (spec_majority(counts_of(read_grid@, i as int / 512, i as int % 512))
                            - 1) as usize,
                        spec_points(read_grid@[i as int].0),
                    ),
                )
            } else {
                spec_transfers(read_grid@, i as int)
            }));
        }
        i += 1;
    }
    transfers
}

/// Run one generation of the ownership game of life: each cell survives
/// with two or three live neighbors, is born with exactly three
/// (inheriting the majority owner, capturing foreign points), and keeps
/// its territory either way.
pub fn step_generation(cells: &Vec<Cell>) -> (r: (Vec<Cell>, Vec<PointTransfer>))
    requires
        cells@.len() == TOTAL_CELLS,
    ensures
        r.0@.len() == TOTAL_CELLS,
        forall|i: int| 0 <= i < TOTAL_CELLS ==> r.0@[i].0 == spec_step_cell(cells@, i),
        r.1@ == spec_transfers(cells@, TOTAL_CELLS as int),
{
    let mut next: Vec<Cell> = Vec::new();
    let mut k: usize = 0;
    while k < TOTAL_CELLS
        invariant
            k <= TOTAL_CELLS,
            next@.len() == k,
        decreases TOTAL_CELLS - k,
    {
        next.push(Cell::from_packed(0));
        k += 1;
    }
    let transfers = step_generation_double_buffer(cells, &mut next);
    (next, transfers)
}

} // verus!
