use vstd::prelude::*;

verus! {

/// One grid cell, packed into two bytes: bits 0-3 hold the owner
/// (0 is unclaimed), bits 4-10 the points (0-127), bit 11 the alive flag.
#[derive(Clone, Copy, Debug, Default, PartialEq, Eq, Structural)]
pub struct Cell(pub u16);

/// The owner bits of a packed value.
pub open spec fn spec_owner(v: u16) -> u8 {
    (v & 0x0F) as u8
}

/// The point bits of a packed value.
pub open spec fn spec_points(v: u16) -> u8 {
    ((v >> 4) & 0x7F) as u8
}

/// The alive bit of a packed value.
pub open spec fn spec_alive(v: u16) -> bool {
    v & 0x800 != 0
}

/// The packed value that `owner`, `points` and `alive` produce.
pub open spec fn spec_pack(owner: u8, points: u8, alive: bool) -> u16 {
    if alive {
        (((owner & 0x0F) as u16) | (((points & 0x7F) as u16) << 4)) | 0x800u16
    } else {
        ((owner & 0x0F) as u16) | (((points & 0x7F) as u16) << 4)
    }
}

/// Packing and reading back agree field by field.
pub proof fn lemma_pack_fields(owner: u8, points: u8, alive: bool)
    ensures
        spec_owner(spec_pack(owner, points, alive)) == owner & 0x0F,
        spec_points(spec_pack(owner, points, alive)) == points & 0x7F,
        spec_alive(spec_pack(owner, points, alive)) == alive,
{
    let ow = (owner & 0x0F) as u16;
    let pt = (points & 0x7F) as u16;
    assert(((ow | (pt << 4)) | 0x800u16) & 0x0F == ow && (((ow | (pt << 4)) | 0x800u16) >> 4)
        & 0x7F == pt && ((ow | (pt << 4)) | 0x800u16) & 0x800 != 0 && (ow | (pt << 4)) & 0x0F == ow
        && ((ow | (pt << 4)) >> 4) & 0x7F == pt && (ow | (pt << 4)) & 0x800 == 0 && (ow as u8) == (
    owner & 0x0F) && (pt as u8) == (points & 0x7F)) by (bit_vector)
        requires
            ow == ((owner & 0x0F) as u16),
            pt == ((points & 0x7F) as u16),
    ;
}

impl Cell {
    /// Pack an owner, a point count and an alive flag into one cell.
    /// Owners above 15 and points above 127 are masked down, as the
    /// packed layout demands.
    pub fn new(owner: u8, points: u8, alive: bool) -> (r: Cell)
        ensures
            r.0 == spec_pack(owner, points, alive),
            r.owner_spec() == owner & 0x0F,
            r.points_spec() == points & 0x7F,
            r.alive_spec() == alive,
    {
        let mut v: u16 = (owner & 0x0F) as u16;
        v = v | ((points & 0x7F) as u16) << 4u16;
        if alive {
            v = v | 0x800;
        }
        proof {
            lemma_pack_fields(owner, points, alive);
        }
        Cell(v)
    }

    pub open spec fn owner_spec(self) -> u8 {
        spec_owner(self.0)
    }

    pub open spec fn points_spec(self) -> u8 {
        spec_points(self.0)
    }

    pub open spec fn alive_spec(self) -> bool {
        spec_alive(self.0)
    }

    /// The raw packed value, for serialization.
    pub fn packed(&self) -> (r: u16)
        ensures
            r == self.0,
    {
        self.0
    }

    /// Rebuild a cell from its raw packed value.
    pub fn from_packed(v: u16) -> (r: Cell)
        ensures
            r.0 == v,
    {
        Cell(v)
    }

    /// The owner (0 is unclaimed).
    pub fn owner(&self) -> (r: u8)
        ensures
            r == self.owner_spec(),
    {
        (self.0 & 0x0F) as u8
    }

    /// The points stored in this cell (0-127).
    pub fn points(&self) -> (r: u8)
        ensures
            r == self.points_spec(),
    {
        ((self.0 >> 4u16) & 0x7F) as u8
    }

    /// Whether the cell is alive.
    pub fn alive(&self) -> (r: bool)
        ensures
            r == self.alive_spec(),
    {
        self.0 & 0x800 != 0
    }

    /// Replace the owner bits, leaving points and alive alone.
    pub fn set_owner(&mut self, v: u8)
        ensures
            final(self).0 == (old(self).0 & !0x0F) | ((v & 0x0F) as u16),
            final(self).owner_spec() == v & 0x0F,
            final(self).points_spec() == old(self).points_spec(),
            final(self).alive_spec() == old(self).alive_spec(),
    {
        let w = (self.0 & !0x0F) | ((v & 0x0F) as u16);
        proof {
            let s = self.0;
            let b = (v & 0x0F) as u16;
            assert(b == (b & 0x0F)) by (bit_vector)
                requires
                    b == ((v & 0x0F) as u16),
            ;
            assert(((s & !0x0F) | b) & 0x0F == b && (((s & !0x0F) | b) >> 4) & 0x7F == (s >> 4)
                & 0x7F && (((s & !0x0F) | b) & 0x800) == (s & 0x800)) by (bit_vector)
                requires
                    b == (b & 0x0F),
            ;
        }
        self.0 = w;
    }

    /// Replace the point bits (masked to 0-127), leaving the rest alone.
    pub fn set_points(&mut self, v: u8)
        ensures
            final(self).0 == (old(self).0 & !0x07F0) | (((v & 0x7F) as u16) << 4),
            final(self).points_spec() == v & 0x7F,
            final(self).owner_spec() == old(self).owner_spec(),
            final(self).alive_spec() == old(self).alive_spec(),
    {
        let w = (self.0 & !0x07F0) | (((v & 0x7F) as u16) << 4u16);
        proof {
            let s = self.0;
            let b = (v & 0x7F) as u16;
            assert(b == (b & 0x7F)) by (bit_vector)
                requires
                    b == ((v & 0x7F) as u16),
            ;
            assert((((s & !0x07F0) | (b << 4)) >> 4) & 0x7F == b && ((s & !0x07F0) | (b << 4))
                & 0x0F == s & 0x0F && (((s & !0x07F0) | (b << 4)) & 0x800) == (s & 0x800)) by (
            bit_vector)
                requires
                    b == (b & 0x7F),
            ;
        }
        self.0 = w;
    }

    /// Set or clear the alive bit, leaving the rest alone.
    pub fn set_alive(&mut self, v: bool)
        ensures
            final(self).0 == (if v {
                old(self).0 | 0x800
            } else {
                old(self).0 & !0x800
            }),
            final(self).alive_spec() == v,
            final(self).owner_spec() == old(self).owner_spec(),
            final(self).points_spec() == old(self).points_spec(),
    {
        let s = self.0;
        if v {
            proof {
                assert((s | 0x800) & 0x800 != 0 && (s | 0x800) & 0x0F == s & 0x0F && ((s | 0x800)
                    >> 4) & 0x7F == (s >> 4) & 0x7F) by (bit_vector);
            }
            self.0 = s | 0x800;
        } else {
            proof {
                assert((s & !0x800) & 0x800 == 0 && (s & !0x800) & 0x0F == s & 0x0F && ((s
                    & !0x800) >> 4) & 0x7F == (s >> 4) & 0x7F) by (bit_vector);
            }
            self.0 = s & !0x800;
        }
    }

    /// Add points, saturating at the 127 the layout can hold.
    pub fn add_points(&mut self, n: u8)
        ensures
            final(self).points_spec() == (if old(self).points_spec() + n > 127 {
                127
            } else {
                old(self).points_spec() + n
            }),
            final(self).owner_spec() == old(self).owner_spec(),
            final(self).alive_spec() == old(self).alive_spec(),
    {
        let cur = self.points();
        let sum = cur.saturating_add(n);
        let clamped: u8 = if sum > 127 {
            127
        } else {
            sum
        };
        proof {
            let c = clamped;
            assert(c & 0x7F == c) by (bit_vector)
                requires
                    c <= 127,
            ;
        }
        self.set_points(clamped);
    }
}

} // verus!
