use vstd::prelude::*;

verus! {

/// The 64 x 32 one-bit framebuffer: one `u64` of column bits per row,
/// column 0 held in the most significant bit.
pub struct Display {
    pub pixel_rows: [u64; 32],
}

/// The single-bit row mask addressing column `x` (column 0 is bit 63).
pub open spec fn pix_mask(x: u8) -> u64
    recommends
        x < 64,
{
    1u64 << ((63 - x) as u64)
}

/// Whether the pixel at column `x` of the row value `row` is set.
pub open spec fn pixel_set(row: u64, x: u8) -> bool {
    row & pix_mask(x) != 0
}

impl Display {
    /// A display with every pixel unset.
    pub fn new() -> (d: Display)
        ensures
            forall|j: int| 0 <= j < 32 ==> d.pixel_rows@[j] == 0,
    {
        Display { pixel_rows: [0u64; 32] }
    }

    /// XORs exactly one pixel and reports its new state, so that a caller
    /// composing sprites can detect a set pixel that was turned off.
    pub fn toggle(&mut self, x: u8, y: u8) -> (set: bool)
        requires
            x < 64,
            y < 32,
        ensures
            final(self).pixel_rows@ == old(self).pixel_rows@.update(
                y as int,
                old(self).pixel_rows@[y as int] ^ pix_mask(x),
            ),
            set == !pixel_set(old(self).pixel_rows@[y as int], x),
            set == pixel_set(final(self).pixel_rows@[y as int], x),
    {
        let mask: u64 = 1u64 << ((63 - x) as u64);
        let row = self.pixel_rows[y as usize];
        let toggled = row ^ mask;
        self.pixel_rows[y as usize] = toggled;
        proof {
            assert((row ^ mask) & mask != 0 <==> row & mask == 0) by (bit_vector)
                requires
                    x < 64,
                    mask == 1u64 << ((63 - x) as u64),
            ;
        }
        toggled & mask != 0
    }

    /// The read-only view of the 32 row values, for the host's renderer.
    pub fn pixel_rows(&self) -> (rows: &[u64; 32])
        ensures
            rows@ == self.pixel_rows@,
    {
        &self.pixel_rows
    }

    /// Unsets every pixel, whatever the prior state.
    pub fn clear(&mut self)
        ensures
            forall|j: int| 0 <= j < 32 ==> final(self).pixel_rows@[j] == 0,
    {
        self.pixel_rows = [0u64; 32];
    }
}

/// Toggling the same pixel twice returns the display to its original state:
/// the XOR write is an involution on the addressed row bit and touches no
/// other row.
pub proof fn lemma_toggle_involution(rows: Seq<u64>, x: u8, y: u8)
    requires
        x < 64,
        y < 32,
        rows.len() == 32,
    ensures
        ({
            let once = rows.update(y as int, rows[y as int] ^ pix_mask(x));
            let twice = once.update(y as int, once[y as int] ^ pix_mask(x));
            twice == rows
        }),
{
    let m = pix_mask(x);
    let r0 = rows[y as int];
    let once = rows.update(y as int, r0 ^ m);
    let twice = once.update(y as int, once[y as int] ^ m);
    assert((r0 ^ m) ^ m == r0) by (bit_vector);
    assert(twice =~= rows);
}

} // verus!
