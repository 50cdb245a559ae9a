use vstd::prelude::*;

verus! {

/// The grid index of the pixel at column `x`, row `y` (row-major order on
/// the 64-wide, 32-high monochrome grid).
pub open spec fn pixel_index(x: int, y: int) -> int {
    y * 64 + x
}

/// Bit `b` of a sprite row byte, most significant bit first (`b` in 0..8).
pub open spec fn sprite_bit(byte: u8, b: int) -> bool {
    (byte >> ((7 - b) as u8)) & 1 == 1
}

/// The grid after XOR-compositing the first `nbits` bits of one sprite row
/// byte into row `row`, starting at column `x` and wrapping per bit around
/// the 64-column axis, paired with the collision flag: whether some set bit
/// landed on a pixel that was already lit.
pub open spec fn draw_bits(grid: Seq<bool>, byte: u8, x: u8, row: int, nbits: nat) -> (Seq<
    bool,
>, bool)
    decreases nbits,
{
    if nbits == 0 {
        (grid, false)
    } else {
        let b = nbits - 1;
        let prior = draw_bits(grid, byte, x, row, (nbits - 1) as nat);
        if sprite_bit(byte, b) {
            let idx = pixel_index((x + b) % 64, row);
            (prior.0.update(idx, !prior.0[idx]), prior.1 || prior.0[idx])
        } else {
            prior
        }
    }
}

/// One full 8-bit sprite row XORed into the grid at (`x`, `y`); the row
/// coordinate wraps once around the 32-row axis, the column wraps per bit.
pub open spec fn draw_byte_spec(grid: Seq<bool>, byte: u8, x: u8, y: u8) -> (Seq<bool>, bool) {
    draw_bits(grid, byte, x, (y % 32) as int, 8)
}

/// The 64-by-32 grid with every pixel off.
pub open spec fn blank_grid() -> Seq<bool> {
    Seq::new(2048, |j: int| false)
}

/// The 64-by-32 monochrome pixel grid, row-major, mutated only by clearing
/// or by XOR sprite drawing.
pub struct Display {
    buffer: Vec<bool>,
}

impl View for Display {
    type V = Seq<bool>;

    closed spec fn view(&self) -> Seq<bool> {
        self.buffer@
    }
}

/// A fresh all-off pixel buffer.
fn blank_buffer() -> (v: Vec<bool>)
    ensures
        v@ == blank_grid(),
{
    let mut v: Vec<bool> = Vec::new();
    while v.len() < 2048
        invariant
            v@.len() <= 2048,
            forall|j: int| 0 <= j < v@.len() ==> !v@[j],
        decreases 2048 - v@.len(),
    {
        v.push(false);
    }
    proof {
        assert(v@ =~= blank_grid());
    }
    v
}

impl Display {
    pub open spec fn wf(&self) -> bool {
        self@.len() == 2048
    }

    pub fn new() -> (d: Display)
        ensures
            d.wf(),
            d@ == blank_grid(),
    {
        Display { buffer: blank_buffer() }
    }

    /// Sets every pixel off.
    pub fn clear(&mut self)
        ensures
            final(self).wf(),
            final(self)@ == blank_grid(),
    {
        self.buffer = blank_buffer();
    }

    /// XORs one 8-bit sprite row into the grid at (`x`, `y`), most
    /// significant bit leftmost; coordinates wrap around both axes. Returns
    /// true exactly when a set bit turned an already-lit pixel off.
    pub fn draw_byte(&mut self, byte: u8, x: u8, y: u8) -> (collision: bool)
        requires
            old(self).wf(),
        ensures
            final(self).wf(),
            (final(self)@, collision) == draw_byte_spec(old(self)@, byte, x, y),
    {
        let row: usize = (y as usize) % 32;
        let mut collision: bool = false;
        let mut b: usize = 0;
        while b < 8
            invariant
                self.wf(),
                b <= 8,
                row == y % 32,
                (self@, collision) == draw_bits(old(self)@, byte, x, row as int, b as nat),
            decreases 8 - b,
        {
            let bit: u8 = (byte >> (7 - b) as u8) & 1;
            proof {
                assert(sprite_bit(byte, b as int) == (bit == 1));
            }
            if bit == 1 {
                let col: usize = ((x as usize) + b) % 64;
                let idx: usize = row * 64 + col;
                let was_lit: bool = self.buffer[idx];
                self.buffer.set(idx, !was_lit);
                if was_lit {
                    collision = true;
                }
            }
            b = b + 1;
        }
        collision
    }

    /// The read-only grid snapshot the host renderer consumes.
    pub fn read_buffer(&self) -> (r: &Vec<bool>)
        ensures
            r@ == self@,
    {
        &self.buffer
    }

    /// The buffer position of the pixel at column `x`, row `y`.
    pub fn get_index_from_coords(x: usize, y: usize) -> (idx: usize)
        requires
            x < 64,
            y < 32,
        ensures
            idx == pixel_index(x as int, y as int),
    {
        y * 64 + x
    }
}

} // verus!
