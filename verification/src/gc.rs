use vstd::prelude::*;

verus! {

/// Quadrant side length (the 512-cell grid splits into 4 x 4 quadrants).
pub const QUADRANT_SIZE: usize = 128;

/// Quadrants per row.
pub const QUADRANTS_PER_SIDE: usize = 4;

/// Total quadrants.
pub const TOTAL_QUADRANTS: usize = 16;

/// Words of the per-cell visited bitset (one bit per cell).
pub const VISITED_WORDS: usize = 4_096;

/// Nanoseconds between two garbage-collection sweeps.
pub const GC_INTERVAL_NS: u64 = 300_000_000_000;

/// Largest connected component the sweep treats as garbage.
pub const GARBAGE_MAX_SIZE: usize = 4;

/// The quadrant of a coordinate.
pub fn get_quadrant(x: usize, y: usize) -> (r: usize)
    requires
        x < 512,
        y < 512,
    ensures
        r == (y / 128) * 4 + x / 128,
        r < TOTAL_QUADRANTS,
{
    let qx = x / QUADRANT_SIZE;
    let qy = y / QUADRANT_SIZE;
    qy * QUADRANTS_PER_SIDE + qx
}

/// The quadrant of a flat cell index.
pub fn get_quadrant_from_idx(idx: usize) -> (r: usize)
    requires
        idx < 262_144,
    ensures
        r == ((idx / 512) / 128) * 4 + (idx % 512) / 128,
        r < TOTAL_QUADRANTS,
{
    let x = idx % 512;
    let y = idx / 512;
    get_quadrant(x, y)
}

/// The flat bit index of a coordinate in the visited bitset.
pub fn cell_index(x: usize, y: usize) -> (r: usize)
    requires
        x < 512,
        y < 512,
    ensures
        r == y * 512 + x,
        r < 262_144,
{
    y * 512 + x
}

/// Whether a cell's bit is set in the visited bitset.
pub open spec fn spec_visited(v: Seq<u64>, x: int, y: int) -> bool {
    let i = y * 512 + x;
    (v[i / 64] >> ((i % 64) as u64)) & 1 == 1
}

pub fn is_visited(visited: &Vec<u64>, x: usize, y: usize) -> (r: bool)
    requires
        visited@.len() == VISITED_WORDS,
        x < 512,
        y < 512,
    ensures
        r == spec_visited(visited@, x as int, y as int),
{
    let i = cell_index(x, y);
    let word = i / 64;
    let bit = (i % 64) as u64;
    (visited[word] >> bit) & 1 == 1
}

pub fn mark_visited(visited: &mut Vec<u64>, x: usize, y: usize)
    requires
        old(visited)@.len() == VISITED_WORDS,
        x < 512,
        y < 512,
    ensures
        final(visited)@.len() == VISITED_WORDS,
        spec_visited(final(visited)@, x as int, y as int),
        forall|j: int|
            0 <= j < VISITED_WORDS && j != (y * 512 + x) / 64 ==> final(visited)@[j] == old(
                visited,
            )@[j],
        final(visited)@[(y * 512 + x) / 64] == (old(visited)@[(y * 512 + x) / 64] | (1u64 << (((
        y * 512 + x) % 64) as u64))),
{
    let i = cell_index(x, y);
    let word = i / 64;
    let bit = (i % 64) as u64;
    let w = visited[word];
    proof {
        let b = bit;
        assert((w | (1u64 << b)) >> b & 1 == 1) by (bit_vector)
            requires
                b < 64,
        ;
    }
    visited.set(word, w | (1u64 << bit));
}

/// Whether a quadrant's bit is set in a staleness mask.
pub fn is_quadrant_stale(stale_mask: u16, quadrant: usize) -> (r: bool)
    requires
        quadrant < TOTAL_QUADRANTS,
    ensures
        r == ((stale_mask & (1u16 << (quadrant as u16))) != 0),
{
    stale_mask & (1u16 << (quadrant as u16)) != 0
}

/// The delta-staleness tracker behind the garbage collector: a quadrant
/// whose births equalled its deaths in every generation since the last
/// sweep holds only still lifes and oscillators, which the sweep may
/// clear out.
pub struct GcState {
    /// Whether the quadrant saw births differ from deaths since the
    /// last sweep. Starts all true so the first sweep waits a cycle.
    pub had_delta: Vec<bool>,
    /// Per-generation birth counters.
    pub births: Vec<u16>,
    /// Per-generation death counters.
    pub deaths: Vec<u16>,
    pub last_gc_time_ns: u64,
    pub cells_killed: u64,
    pub run_count: u64,
}

impl GcState {
    pub open spec fn wf(self) -> bool {
        &&& self.had_delta@.len() == TOTAL_QUADRANTS
        &&& self.births@.len() == TOTAL_QUADRANTS
        &&& self.deaths@.len() == TOTAL_QUADRANTS
    }

    /// The reset state: every quadrant assumed active.
    pub fn new() -> (r: GcState)
        ensures
            r.wf(),
            forall|q: int| 0 <= q < TOTAL_QUADRANTS ==> r.had_delta@[q] == true,
            forall|q: int| 0 <= q < TOTAL_QUADRANTS ==> r.births@[q] == 0 && r.deaths@[q] == 0,
            r.last_gc_time_ns == 0,
            r.cells_killed == 0,
            r.run_count == 0,
    {
        let mut had_delta: Vec<bool> = Vec::new();
        let mut births: Vec<u16> = Vec::new();
        let mut deaths: Vec<u16> = Vec::new();
        let mut k: usize = 0;
        while k < TOTAL_QUADRANTS
            invariant
                k <= TOTAL_QUADRANTS,
                had_delta@.len() == k,
                births@.len() == k,
                deaths@.len() == k,
                forall|q: int| 0 <= q < k ==> had_delta@[q] == true,
                forall|q: int| 0 <= q < k ==> births@[q] == 0 && deaths@[q] == 0,
            decreases TOTAL_QUADRANTS - k,
        {
            had_delta.push(true);
            births.push(0);
            deaths.push(0);
            k += 1;
        }
        GcState { had_delta, births, deaths, last_gc_time_ns: 0, cells_killed: 0, run_count: 0 }
    }

    /// Record a birth in the quadrant of `(x, y)`.
    pub fn record_birth(&mut self, x: usize, y: usize)
        requires
            old(self).wf(),
            x < 512,
            y < 512,
        ensures
            final(self).wf(),
            final(self).births@ == old(self).births@.update(
                (y / 128) * 4 + x / 128,
                old(self).births@[(y / 128) * 4 + x / 128].saturating_add(1) as u16,
            ),
            final(self).deaths == old(self).deaths,
            final(self).had_delta == old(self).had_delta,
            final(self).last_gc_time_ns == old(self).last_gc_time_ns,
            final(self).cells_killed == old(self).cells_killed,
            final(self).run_count == old(self).run_count,
    {
        let q = get_quadrant(x, y);
        let cur = self.births[q];
        self.births.set(q, cur.saturating_add(1));
    }

    /// Record a death in the quadrant of `(x, y)`.
    pub fn record_death(&mut self, x: usize, y: usize)
        requires
            old(self).wf(),
            x < 512,
            y < 512,
        ensures
            final(self).wf(),
            final(self).deaths@ == old(self).deaths@.update(
                (y / 128) * 4 + x / 128,
                old(self).deaths@[(y / 128) * 4 + x / 128].saturating_add(1) as u16,
            ),
            final(self).births == old(self).births,
            final(self).had_delta == old(self).had_delta,
    {
        let q = get_quadrant(x, y);
        let cur = self.deaths[q];
        self.deaths.set(q, cur.saturating_add(1));
    }

    /// Record a birth by flat cell index.
    pub fn record_birth_idx(&mut self, idx: usize)
        requires
            old(self).wf(),
            idx < 262_144,
        ensures
            final(self).wf(),
            final(self).births@ == old(self).births@.update(
                ((idx / 512) / 128) * 4 + (idx % 512) / 128,
                old(self).births@[((idx / 512) / 128) * 4 + (idx % 512) / 128].saturating_add(
                    1,
                ) as u16,
            ),
            final(self).deaths == old(self).deaths,
            final(self).had_delta == old(self).had_delta,
    {
        let q = get_quadrant_from_idx(idx);
        let cur = self.births[q];
        self.births.set(q, cur.saturating_add(1));
    }

    /// Record a death by flat cell index.
    pub fn record_death_idx(&mut self, idx: usize)
        requires
            old(self).wf(),
            idx < 262_144,
        ensures
            final(self).wf(),
            final(self).deaths@ == old(self).deaths@.update(
                ((idx / 512) / 128) * 4 + (idx % 512) / 128,
                old(self).deaths@[((idx / 512) / 128) * 4 + (idx % 512) / 128].saturating_add(
                    1,
                ) as u16,
            ),
            final(self).births == old(self).births,
            final(self).had_delta == old(self).had_delta,
    {
        let q = get_quadrant_from_idx(idx);
        let cur = self.deaths[q];
        self.deaths.set(q, cur.saturating_add(1));
    }

    /// Close one generation: any quadrant whose births and deaths
    /// differ is marked active, and both counters reset.
    pub fn end_generation_delta_check(&mut self)
        requires
            old(self).wf(),
        ensures
            final(self).wf(),
            forall|q: int|
                0 <= q < TOTAL_QUADRANTS ==> final(self).had_delta@[q] == (old(self).had_delta@[q]
                    || old(self).births@[q] != old(self).deaths@[q]),
            forall|q: int|
                0 <= q < TOTAL_QUADRANTS ==> final(self).births@[q] == 0 && final(self).deaths@[q] == 0,
            final(self).last_gc_time_ns == old(self).last_gc_time_ns,
            final(self).cells_killed == old(self).cells_killed,
            final(self).run_count == old(self).run_count,
    {
        let mut q: usize = 0;
        while q < TOTAL_QUADRANTS
            invariant
                self.wf(),
                q <= TOTAL_QUADRANTS,
                forall|j: int|
                    0 <= j < q ==> self.had_delta@[j] == (old(self).had_delta@[j] || old(self).births@[j] != old(self).deaths@[j]),
                forall|j: int| q <= j < TOTAL_QUADRANTS ==> self.had_delta@[j] == old(self).had_delta@[j],
                self.births == old(self).births,
                self.deaths == old(self).deaths,
                self.last_gc_time_ns == old(self).last_gc_time_ns,
                self.cells_killed == old(self).cells_killed,
                self.run_count == old(self).run_count,
            decreases TOTAL_QUADRANTS - q,
        {
            if self.births[q] != self.deaths[q] {
                self.had_delta.set(q, true);
            }
            q += 1;
        }
        let mut k: usize = 0;
        while k < TOTAL_QUADRANTS
            invariant
                self.wf(),
                k <= TOTAL_QUADRANTS,
                forall|j: int|
                    0 <= j < TOTAL_QUADRANTS ==> self.had_delta@[j] == (old(self).had_delta@[j]
                        || old(self).births@[j] != old(self).deaths@[j]),
                forall|j: int| 0 <= j < k ==> self.births@[j] == 0 && self.deaths@[j] == 0,
                self.last_gc_time_ns == old(self).last_gc_time_ns,
                self.cells_killed == old(self).cells_killed,
                self.run_count == old(self).run_count,
            decreases TOTAL_QUADRANTS - k,
        {
            self.births.set(k, 0);
            self.deaths.set(k, 0);
            k += 1;
        }
    }

    /// Mark a quadrant active so a fresh placement survives the sweep.
    pub fn mark_quadrant_active(&mut self, x: usize, y: usize)
        requires
            old(self).wf(),
            x < 512,
            y < 512,
        ensures
            final(self).wf(),
            final(self).had_delta@ == old(self).had_delta@.update(
                (y / 128) * 4 + x / 128,
                true,
            ),
            final(self).births == old(self).births,
            final(self).deaths == old(self).deaths,
    {
        let q = get_quadrant(x, y);
        self.had_delta.set(q, true);
    }

    /// Whether a sweep is due, and if so, which quadrants are stale:
    /// exactly those whose patterns never moved since the last sweep.
    /// Starting the sweep begins the next cycle, with every quadrant
    /// considered active again.
    pub fn begin_gc(&mut self, now: u64) -> (r: Option<Vec<bool>>)
        requires
            old(self).wf(),
        ensures
            final(self).wf(),
            match r {
                Some(stale) => {
                    &&& now - old(self).last_gc_time_ns >= GC_INTERVAL_NS || old(
                        self,
                    ).last_gc_time_ns > now
                    &&& final(self).last_gc_time_ns == now
                    &&& stale@.len() == TOTAL_QUADRANTS
                    &&& forall|q: int|
                        0 <= q < TOTAL_QUADRANTS ==> stale@[q] == !old(self).had_delta@[q]
                    &&& forall|q: int| 0 <= q < TOTAL_QUADRANTS ==> !final(self).had_delta@[q]
                    &&& final(self).births == old(self).births
                    &&& final(self).deaths == old(self).deaths
                    &&& final(self).cells_killed == old(self).cells_killed
                },
                None => {
                    &&& *final(self) == *old(self)
                    &&& now >= old(self).last_gc_time_ns
                    &&& now - old(self).last_gc_time_ns < GC_INTERVAL_NS
                },
            },
    {
        let elapsed = if now >= self.last_gc_time_ns {
            now - self.last_gc_time_ns
        } else {
            0
        };
        if self.last_gc_time_ns <= now && elapsed < GC_INTERVAL_NS {
            return None;
        }
        self.last_gc_time_ns = now;
        self.run_count = self.run_count.saturating_add(1);
        let mut stale: Vec<bool> = Vec::new();
        let mut q: usize = 0;
        while q < TOTAL_QUADRANTS
            invariant
                self.wf(),
                q <= TOTAL_QUADRANTS,
                stale@.len() == q,
                self.had_delta == old(self).had_delta,
                forall|j: int| 0 <= j < q ==> stale@[j] == !self.had_delta@[j],
                self.births == old(self).births,
                self.deaths == old(self).deaths,
                self.cells_killed == old(self).cells_killed,
                self.last_gc_time_ns == now,
            decreases TOTAL_QUADRANTS - q,
        {
            stale.push(!self.had_delta[q]);
            q += 1;
        }
        let mut k: usize = 0;
        while k < TOTAL_QUADRANTS
            invariant
                self.wf(),
                k <= TOTAL_QUADRANTS,
                stale@.len() == TOTAL_QUADRANTS,
                forall|j: int| 0 <= j < k ==> !self.had_delta@[j],
                forall|j: int|
                    0 <= j < TOTAL_QUADRANTS ==> stale@[j] == !old(self).had_delta@[j],
                forall|j: int|
                    k <= j < TOTAL_QUADRANTS ==> self.had_delta@[j] == old(self).had_delta@[j],
                self.births == old(self).births,
                self.deaths == old(self).deaths,
                self.cells_killed == old(self).cells_killed,
                self.last_gc_time_ns == now,
            decreases TOTAL_QUADRANTS - k,
        {
            self.had_delta.set(k, false);
            k += 1;
        }
        Some(stale)
    }

    /// Count cells a sweep removed.
    pub fn note_cells_killed(&mut self, n: u32)
        requires
            old(self).wf(),
        ensures
            final(self).wf(),
            final(self).cells_killed == old(self).cells_killed.saturating_add(n as u64),
            final(self).had_delta == old(self).had_delta,
            final(self).births == old(self).births,
            final(self).deaths == old(self).deaths,
    {
        self.cells_killed = self.cells_killed.saturating_add(n as u64);
    }

    /// The sweep statistics: runs, cells removed, per-quadrant activity.
    pub fn get_gc_stats(&self) -> (r: (u64, u64, Vec<bool>))
        requires
            self.wf(),
        ensures
            r.0 == self.run_count,
            r.1 == self.cells_killed,
            r.2@.len() == TOTAL_QUADRANTS,
            forall|q: int| 0 <= q < TOTAL_QUADRANTS ==> r.2@[q] == self.had_delta@[q],
    {
        let mut flags: Vec<bool> = Vec::new();
        let mut k: usize = 0;
        while k < TOTAL_QUADRANTS
            invariant
                self.wf(),
                k <= TOTAL_QUADRANTS,
                flags@.len() == k,
                forall|q: int| 0 <= q < k ==> flags@[q] == self.had_delta@[q],
            decreases TOTAL_QUADRANTS - k,
        {
            flags.push(self.had_delta[k]);
            k += 1;
        }
        (self.run_count, self.cells_killed, flags)
    }

    /// Reset the tracker, as after a game reset.
    pub fn reset_gc_state(&mut self)
        ensures
            final(self).wf(),
            forall|q: int| 0 <= q < TOTAL_QUADRANTS ==> final(self).had_delta@[q] == true,
            forall|q: int|
                0 <= q < TOTAL_QUADRANTS ==> final(self).births@[q] == 0 && final(self).deaths@[q] == 0,
            final(self).last_gc_time_ns == 0,
            final(self).cells_killed == 0,
            final(self).run_count == 0,
    {
        *self = GcState::new();
    }
}

/// How many entries of the first `n` are still false.
pub open spec fn count_false(s: Seq<bool>, n: int) -> int
    decreases n,
{
    if n <= 0 {
        0
    } else {
        count_false(s, n - 1) + (if s[n - 1] {
            0int
        } else {
            1int
        })
    }
}

proof fn lemma_count_false_nonneg(s: Seq<bool>, n: int)
    ensures
        count_false(s, n) >= 0,
    decreases n,
{
    if n > 0 {
        lemma_count_false_nonneg(s, n - 1);
    }
}

proof fn lemma_count_false_set_true(s: Seq<bool>, i: int, n: int)
    requires
        0 <= i < n <= s.len(),
        !s[i],
    ensures
        count_false(s.update(i, true), n) == count_false(s, n) - 1,
    decreases n,
{
    let s2 = s.update(i, true);
    if i == n - 1 {
        lemma_count_false_same(s, s2, n - 1);
    } else {
        lemma_count_false_set_true(s, i, n - 1);
        assert(s2[n - 1] == s[n - 1]);
    }
}

proof fn lemma_count_false_same(a: Seq<bool>, b: Seq<bool>, n: int)
    requires
        n <= a.len(),
        n <= b.len(),
        forall|j: int| 0 <= j < n ==> a[j] == b[j],
    ensures
        count_false(a, n) == count_false(b, n),
    decreases n,
{
    if n > 0 {
        lemma_count_false_same(a, b, n - 1);
    }
}

/// Collect the connected component of live cells around `(start_x,
/// start_y)`, eight-way with toroidal wrapping, marking every reached
/// cell visited. Collection stops once the component is clearly larger
/// than garbage, but the marking still covers it all. A cell is live
/// exactly when its byte is nonzero.
pub fn flood_fill(start_x: usize, start_y: usize, grid: &Vec<u8>, visited: &mut Vec<bool>) -> (r:
    Vec<(usize, usize)>)
    requires
        grid@.len() == 262_144,
        old(visited)@.len() == 262_144,
        start_x < 512,
        start_y < 512,
    ensures
        final(visited)@.len() == 262_144,
        forall|j: int| 0 <= j < 262_144 && old(visited)@[j] ==> final(visited)@[j],
        r@.len() <= GARBAGE_MAX_SIZE + 1,
        forall|k: int|
            0 <= k < r@.len() ==> (#[trigger] r@[k]).0 < 512 && r@[k].1 < 512 && grid@[r@[k].1
                * 512 + r@[k].0] != 0,
{
    let mut component: Vec<(usize, usize)> = Vec::new();
    let mut stack: Vec<(usize, usize)> = Vec::new();
    stack.push((start_x, start_y));
    let mut exceeded = false;
    while stack.len() > 0
        invariant
            grid@.len() == 262_144,
            visited@.len() == 262_144,
            forall|j: int| 0 <= j < 262_144 && old(visited)@[j] ==> visited@[j],
            forall|k: int| 0 <= k < stack@.len() ==> (#[trigger] stack@[k]).0 < 512 && stack@[
                k].1 < 512,
            component@.len() <= GARBAGE_MAX_SIZE + 1,
            component@.len() < GARBAGE_MAX_SIZE + 1 || exceeded,
            forall|k: int|
                0 <= k < component@.len() ==> (#[trigger] component@[k]).0 < 512 && component@[
                    k].1 < 512 && grid@[component@[k].1 * 512 + component@[k].0] != 0,
        decreases count_false(visited@, 262_144), stack@.len(),
    {
        let ghost count0 = count_false(visited@, 262_144);
        proof {
            lemma_count_false_nonneg(visited@, 262_144);
        }
        let (x, y) = match stack.pop() {
            Some(p) => p,
            None => {
                proof {
                    assert(false);
                }
                (0, 0)
            },
        };
        let i = y * 512 + x;
        if visited[i] {
            continue;
        }
        if grid[i] == 0 {
            continue;
        }
        proof {
            lemma_count_false_set_true(visited@, i as int, 262_144);
        }
        visited.set(i, true);
        proof {
            lemma_count_false_nonneg(visited@, 262_144);
            assert(count_false(visited@, 262_144) == count0 - 1);
        }
        if !exceeded {
            component.push((x, y));
            if component.len() > GARBAGE_MAX_SIZE {
                exceeded = true;
            }
        }
        let xm = (x + 511) % 512;
        let xp = (x + 1) % 512;
        let ym = (y + 511) % 512;
        let yp = (y + 1) % 512;
        stack.push((xm, ym));
        stack.push((x, ym));
        stack.push((xp, ym));
        stack.push((xm, y));
        stack.push((xp, y));
        stack.push((xm, yp));
        stack.push((x, yp));
        stack.push((xp, yp));
    }
    component
}

/// Run one garbage-collection sweep if it is due: in every quadrant
/// whose patterns never moved since the last sweep, every connected
/// component of at most `GARBAGE_MAX_SIZE` live cells is cleared. Cells
/// in active quadrants are never touched, even when a component spans
/// into one. Returns how many cells were cleared.
pub fn run_gc_if_needed(gc: &mut GcState, grid: &mut Vec<u8>, now: u64) -> (r: u32)
    requires
        old(gc).wf(),
        old(grid)@.len() == 262_144,
    ensures
        final(gc).wf(),
        final(grid)@.len() == 262_144,
        forall|j: int|
            0 <= j < 262_144 ==> final(grid)@[j] == old(grid)@[j] || final(grid)@[j] == 0,
        forall|j: int|
            0 <= j < 262_144 && old(gc).had_delta@[(j / 512 / 128) * 4 + (j % 512) / 128]
                ==> final(grid)@[j] == old(grid)@[j],
{
    let stale = match gc.begin_gc(now) {
        Some(stale) => stale,
        None => {
            return 0;
        },
    };
    let mut visited: Vec<bool> = Vec::new();
    let mut j: usize = 0;
    while j < 262_144
        invariant
            j <= 262_144,
            visited@.len() == j,
        decreases 262_144 - j,
    {
        visited.push(false);
        j += 1;
    }
    let mut cells_killed: u32 = 0;
    let mut quadrant: usize = 0;
    while quadrant < TOTAL_QUADRANTS
        invariant
            gc.wf(),
            stale@.len() == TOTAL_QUADRANTS,
            forall|q: int| 0 <= q < TOTAL_QUADRANTS ==> stale@[q] == !old(gc).had_delta@[q],
            grid@.len() == 262_144,
            visited@.len() == 262_144,
            quadrant <= TOTAL_QUADRANTS,
            forall|j2: int|
                0 <= j2 < 262_144 ==> grid@[j2] == old(grid)@[j2] || grid@[j2] == 0,
            forall|j2: int|
                0 <= j2 < 262_144 && old(gc).had_delta@[(j2 / 512 / 128) * 4 + (j2 % 512) / 128]
                    ==> grid@[j2] == old(grid)@[j2],
        decreases TOTAL_QUADRANTS - quadrant,
    {
        if !stale[quadrant] {
            quadrant += 1;
            continue;
        }
        let qx_start = (quadrant % QUADRANTS_PER_SIDE) * QUADRANT_SIZE;
        let qy_start = (quadrant / QUADRANTS_PER_SIDE) * QUADRANT_SIZE;
        let mut dy: usize = 0;
        while dy < QUADRANT_SIZE
            invariant
                gc.wf(),
                stale@.len() == TOTAL_QUADRANTS,
                forall|q: int| 0 <= q < TOTAL_QUADRANTS ==> stale@[q] == !old(gc).had_delta@[q],
                grid@.len() == 262_144,
                visited@.len() == 262_144,
                quadrant < TOTAL_QUADRANTS,
                qx_start == (quadrant % 4) * 128,
                qy_start == (quadrant / 4) * 128,
                dy <= QUADRANT_SIZE,
                forall|j2: int|
                    0 <= j2 < 262_144 ==> grid@[j2] == old(grid)@[j2] || grid@[j2] == 0,
                forall|j2: int|
                    0 <= j2 < 262_144 && old(gc).had_delta@[(j2 / 512 / 128) * 4 + (j2 % 512)
                        / 128] ==> grid@[j2] == old(grid)@[j2],
            decreases QUADRANT_SIZE - dy,
        {
            let y = qy_start + dy;
            let mut dx: usize = 0;
            while dx < QUADRANT_SIZE
                invariant
                    gc.wf(),
                    stale@.len() == TOTAL_QUADRANTS,
                    forall|q: int|
                        0 <= q < TOTAL_QUADRANTS ==> stale@[q] == !old(gc).had_delta@[q],
                    grid@.len() == 262_144,
                    visited@.len() == 262_144,
                    quadrant < TOTAL_QUADRANTS,
                    qx_start == (quadrant % 4) * 128,
                    qy_start == (quadrant / 4) * 128,
                    y == qy_start + dy,
                    dy < QUADRANT_SIZE,
                    dx <= QUADRANT_SIZE,
                    forall|j2: int|
                        0 <= j2 < 262_144 ==> grid@[j2] == old(grid)@[j2] || grid@[j2] == 0,
                    forall|j2: int|
                        0 <= j2 < 262_144 && old(gc).had_delta@[(j2 / 512 / 128) * 4 + (j2 % 512)
                            / 128] ==> grid@[j2] == old(grid)@[j2],
                decreases QUADRANT_SIZE - dx,
            {
                let x = qx_start + dx;
                let i = y * 512 + x;
                if grid[i] == 0 || visited[i] {
                    dx += 1;
                    continue;
                }
                let component = flood_fill(x, y, grid, &mut visited);
                if component.len() <= GARBAGE_MAX_SIZE {
                    let mut k: usize = 0;
                    while k < component.len()
                        invariant
                            gc.wf(),
                            stale@.len() == TOTAL_QUADRANTS,
                            forall|q: int|
                                0 <= q < TOTAL_QUADRANTS ==> stale@[q] == !old(
                                    gc,
                                ).had_delta@[q],
                            grid@.len() == 262_144,
                            k <= component@.len(),
                            forall|k2: int|
                                0 <= k2 < component@.len() ==> (#[trigger] component@[k2]).0
                                    < 512 && component@[k2].1 < 512,
                            forall|j2: int|
                                0 <= j2 < 262_144 ==> grid@[j2] == old(grid)@[j2] || grid@[j2]
                                    == 0,
                            forall|j2: int|
                                0 <= j2 < 262_144 && old(gc).had_delta@[(j2 / 512 / 128) * 4 + (
                                j2 % 512) / 128] ==> grid@[j2] == old(grid)@[j2],
                        decreases component@.len() - k,
                    {
                        let (cx, cy) = component[k];
                        // the component may spill into an active
                        // quadrant: those cells stay
                        let cq = get_quadrant(cx, cy);
                        if stale[cq] {
                            grid.set(cy * 512 + cx, 0);
                            cells_killed = cells_killed.saturating_add(1);
                        }
                        k += 1;
                    }
                }
                dx += 1;
            }
            dy += 1;
        }
        quadrant += 1;
    }
    gc.note_cells_killed(cells_killed);
    cells_killed
}

} // verus!
