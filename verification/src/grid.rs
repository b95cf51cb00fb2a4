use vstd::prelude::*;

use crate::cell::Cell;
use crate::life::{GRID_SIZE, TOTAL_CELLS};

verus! {

/// A batch of cells one player placed, as the authoritative event feed
/// reports it.
#[derive(Debug)]
pub struct PlacementEvent {
    pub event_id: u64,
    pub timestamp_ns: u64,
    pub player: u64,
    pub player_num: u8,
    pub cells: Vec<(u16, u16)>,
    pub balance_after: u64,
}

/// What placing one cell for `player_num` does to a packed value: the
/// owner bits replaced, the alive bit set, the points set to one.
pub open spec fn spec_place(v: u16, player_num: u8) -> u16 {
    ((((v & !0x0F) | (((player_num & 0x0F)) as u16)) | 0x800) & !0x07F0) | ((1u16 & 0x7F) << 4)
}

/// The grid after a list of placements is applied in order; positions
/// outside the grid are ignored.
pub open spec fn spec_apply_placements(
    cells: Seq<Cell>,
    pts: Seq<(u16, u16)>,
    width: int,
    player_num: u8,
) -> Seq<Cell>
    decreases pts.len(),
{
    if pts.len() == 0 {
        cells
    } else {
        let prev = spec_apply_placements(cells, pts.drop_last(), width, player_num);
        let i = (pts.last().1 as int) * width + (pts.last().0 as int);
        if 0 <= i < prev.len() {
            prev.update(i, Cell(spec_place(prev[i].0, player_num)))
        } else {
            prev
        }
    }
}

/// How many of the first `n` cells are alive.
pub open spec fn count_alive_upto(s: Seq<Cell>, n: int) -> int
    decreases n,
{
    if n <= 0 {
        0
    } else {
        count_alive_upto(s, n - 1) + (if crate::cell::spec_alive(s[n - 1].0) {
            1int
        } else {
            0int
        })
    }
}

/// The authoritative simulation grid.
pub struct GameGrid {
    pub cells: Vec<Cell>,
    pub width: usize,
    pub height: usize,
    pub generation: u64,
    pub last_event_id: u64,
}

impl GameGrid {
    pub open spec fn wf(self) -> bool {
        self.cells@.len() == self.width * self.height
    }

    /// An empty grid of the given dimensions.
    pub fn new(width: usize, height: usize) -> (r: GameGrid)
        requires
            width * height <= usize::MAX,
        ensures
            r.wf(),
            r.width == width,
            r.height == height,
            r.generation == 0,
            r.last_event_id == 0,
            r.cells@.len() == width * height,
            forall|i: int| 0 <= i < r.cells@.len() ==> r.cells@[i].0 == 0,
    {
        let n = width * height;
        let mut cells: Vec<Cell> = Vec::new();
        let mut k: usize = 0;
        while k < n
            invariant
                k <= n,
                cells@.len() == k,
                forall|i: int| 0 <= i < k ==> cells@[i].0 == 0,
            decreases n - k,
        {
            cells.push(Cell::from_packed(0));
            k += 1;
        }
        GameGrid { cells, width, height, generation: 0, last_event_id: 0 }
    }

    /// The default 512 x 512 grid.
    pub fn default_size() -> (r: GameGrid)
        ensures
            r.wf(),
            r.width == GRID_SIZE,
            r.height == GRID_SIZE,
            r.generation == 0,
    {
        proof {
            assert(512 * 512 == 262_144);
        }
        GameGrid::new(GRID_SIZE, GRID_SIZE)
    }

    /// Run one generation step on the standard grid.
    pub fn step(&mut self)
        requires
            old(self).wf(),
            old(self).width == GRID_SIZE,
            old(self).height == GRID_SIZE,
            old(self).generation < u64::MAX,
        ensures
            final(self).wf(),
            final(self).width == old(self).width,
            final(self).height == old(self).height,
            final(self).generation == old(self).generation + 1,
            final(self).last_event_id == old(self).last_event_id,
            final(self).cells@.len() == TOTAL_CELLS,
            forall|i: int|
                0 <= i < TOTAL_CELLS ==> final(self).cells@[i].0 == crate::life::spec_step_cell(
                    old(self).cells@,
                    i,
                ),
    {
        proof {
            assert(512 * 512 == 262_144);
        }
        let (next, _transfers) = crate::life::step_generation(&self.cells);
        self.cells = next;
        self.generation = self.generation + 1;
    }

    /// Apply one placement event: every listed position inside the grid
    /// becomes an alive cell of the event's player with one point.
    pub fn apply_placement(&mut self, event: &PlacementEvent)
        requires
            old(self).wf(),
            old(self).width <= 65536,
        ensures
            final(self).wf(),
            final(self).width == old(self).width,
            final(self).height == old(self).height,
            final(self).generation == old(self).generation,
            final(self).last_event_id == event.event_id,
            final(self).cells@ == spec_apply_placements(
                old(self).cells@,
                event.cells@,
                old(self).width as int,
                event.player_num,
            ),
    {
        let n = event.cells.len();
        let mut k: usize = 0;
        while k < n
            invariant
                n == event.cells@.len(),
                k <= n,
                self.width == old(self).width,
                self.height == old(self).height,
                self.generation == old(self).generation,
                self.last_event_id == old(self).last_event_id,
                self.width <= 65536,
                self.cells@.len() == old(self).cells@.len(),
                self.cells@ == spec_apply_placements(
                    old(self).cells@,
                    event.cells@.take(k as int),
                    old(self).width as int,
                    event.player_num,
                ),
            decreases n - k,
        {
            let (x, y) = event.cells[k];
            proof {
                vstd::arithmetic::mul::lemma_mul_upper_bound(
                    y as int,
                    65535,
                    self.width as int,
                    65536,
                );
            }
            let i = (y as usize) * self.width + (x as usize);
            proof {
                assert(event.cells@.take(k + 1).drop_last() =~= event.cells@.take(k as int));
                assert(event.cells@.take(k + 1).last() == event.cells@[k as int]);
            }
            if i < self.cells.len() {
                let mut c = self.cells[i];
                c.set_owner(event.player_num);
                c.set_alive(true);
                c.set_points(1);
                self.cells.set(i, c);
            }
            k += 1;
        }
        proof {
            assert(event.cells@.take(n as int) =~= event.cells@);
        }
        self.last_event_id = event.event_id;
    }

    /// How many cells are alive.
    pub fn alive_count(&self) -> (r: usize)
        ensures
            r == count_alive_upto(self.cells@, self.cells@.len() as int),
    {
        let n = self.cells.len();
        let mut acc: usize = 0;
        let mut i: usize = 0;
        while i < n
            invariant
                n == self.cells@.len(),
                i <= n,
                acc == count_alive_upto(self.cells@, i as int),
                acc <= i,
            decreases n - i,
        {
            if self.cells[i].alive() {
                acc = acc + 1;
            }
            i += 1;
        }
        acc
    }
}

/// Messages a viewer sends to the broadcaster.
#[derive(Debug)]
pub enum ClientMessage {
    Subscribe,
    Ping { timestamp: u64 },
}

/// Messages the broadcaster sends to every viewer: the full packed grid
/// on connection, then per-generation deltas.
#[derive(Debug)]
pub enum ServerMessage {
    FullState { generation: u64, width: u32, height: u32, cells: Vec<u16> },
    Delta { generation: u64, changed_cells: Vec<(u32, u16)> },
    Pong { timestamp: u64 },
}

impl ServerMessage {
    /// The full packed state of a grid.
    pub fn full_state(generation: u64, width: usize, height: usize, cells: &Vec<Cell>) -> (r:
        ServerMessage)
        requires
            width <= u32::MAX,
            height <= u32::MAX,
        ensures
            match r {
                ServerMessage::FullState { generation: g, width: w, height: h, cells: cs } => {
                    &&& g == generation
                    &&& w == width
                    &&& h == height
                    &&& cs@.len() == cells@.len()
                    &&& forall|k: int| 0 <= k < cs@.len() ==> cs@[k] == cells@[k].0
                },
                _ => false,
            },
    {
        let n = cells.len();
        let mut packed: Vec<u16> = Vec::new();
        let mut i: usize = 0;
        while i < n
            invariant
                n == cells@.len(),
                i <= n,
                packed@.len() == i,
                forall|k: int| 0 <= k < i ==> packed@[k] == cells@[k].0,
            decreases n - i,
        {
            packed.push(cells[i].packed());
            i += 1;
        }
        ServerMessage::FullState {
            generation,
            width: width as u32,
            height: height as u32,
            cells: packed,
        }
    }

    /// A delta message from already-computed changes.
    pub fn delta(generation: u64, changed: Vec<(u32, u16)>) -> (r: ServerMessage)
        ensures
            match r {
                ServerMessage::Delta { generation: g, changed_cells: cs } => g == generation
                    && cs == changed,
                _ => false,
            },
    {
        ServerMessage::Delta { generation, changed_cells: changed }
    }
}

/// The changed cells between two grids of one size, in index order.
pub open spec fn spec_delta(a: Seq<Cell>, b: Seq<Cell>, n: int) -> Seq<(u32, u16)>
    decreases n,
{
    if n <= 0 {
        Seq::empty()
    } else {
        let prev = spec_delta(a, b, n - 1);
        if a[n - 1] != b[n - 1] {
            prev.push((((n - 1) as u32, b[n - 1].0)))
        } else {
            prev
        }
    }
}

/// Compute the cells that differ between two snapshots of the grid,
/// each with its new packed value, in ascending index order.
pub fn compute_delta(old_cells: &Vec<Cell>, new_cells: &Vec<Cell>) -> (r: Vec<(u32, u16)>)
    requires
        old_cells@.len() == new_cells@.len(),
        old_cells@.len() <= u32::MAX,
    ensures
        r@ == spec_delta(old_cells@, new_cells@, old_cells@.len() as int),
{
    let n = old_cells.len();
    let mut out: Vec<(u32, u16)> = Vec::new();
    let mut i: usize = 0;
    while i < n
        invariant
            n == old_cells@.len(),
            n == new_cells@.len(),
            n <= u32::MAX,
            i <= n,
            out@ == spec_delta(old_cells@, new_cells@, i as int),
        decreases n - i,
    {
        let a = old_cells[i];
        let b = new_cells[i];
        if a.packed() != b.packed() {
            out.push((i as u32, b.packed()));
        }
        proof {
            if a != b {
                assert(a.0 != b.0);
            } else {
                assert(a.0 == b.0);
            }
        }
        i += 1;
    }
    out
}

} // verus!
