use vstd::prelude::*;

verus! {

/// The 16 built-in hexadecimal digit glyphs, 5 bytes per glyph, in digit
/// order 0..F. Instruction `Fx29` relies on glyph `d` starting at address
/// `d * 5`, so this table is fixed bit-for-bit.
pub open spec fn font_seq() -> Seq<u8> {
    seq![
        0xF0, 0x90, 0x90, 0x90, 0xF0, // 0
        0x20, 0x60, 0x20, 0x20, 0x70, // 1
        0xF0, 0x10, 0xF0, 0x80, 0xF0, // 2
        0xF0, 0x10, 0xF0, 0x10, 0xF0, // 3
        0x90, 0x90, 0xF0, 0x10, 0x10, // 4
        0xF0, 0x80, 0xF0, 0x10, 0xF0, // 5
        0xF0, 0x80, 0xF0, 0x90, 0xF0, // 6
        0xF0, 0x10, 0x20, 0x40, 0x40, // 7
        0xF0, 0x90, 0xF0, 0x90, 0xF0, // 8
        0xF0, 0x90, 0xF0, 0x10, 0xF0, // 9
        0xF0, 0x90, 0xF0, 0x90, 0x90, // A
        0xE0, 0x90, 0xE0, 0x90, 0xE0, // B
        0xF0, 0x80, 0x80, 0x80, 0xF0, // C
        0xE0, 0x90, 0x90, 0x90, 0xE0, // D
        0xF0, 0x80, 0xF0, 0x80, 0xF0, // E
        0xF0, 0x80, 0xF0, 0x80, 0x80, // F
    ]
}

/// Memory as it stands at machine initialization: the font table in
/// addresses [0, 80), zeroes everywhere else.
pub open spec fn ram_init_seq() -> Seq<u8> {
    Seq::new(4096, |j: int| if j < 80 { font_seq()[j] } else { 0u8 })
}

/// The flat 4096-byte addressable store.
pub struct Ram {
    mem: Vec<u8>,
}

impl View for Ram {
    type V = Seq<u8>;

    closed spec fn view(&self) -> Seq<u8> {
        self.mem@
    }
}

/// The 80 font bytes as an executable vector, in table order.
fn font_bytes() -> (v: Vec<u8>)
    ensures
        v@ == font_seq(),
{
    let mut v: Vec<u8> = Vec::new();
    v.push(0xF0); v.push(0x90); v.push(0x90); v.push(0x90); v.push(0xF0);
    v.push(0x20); v.push(0x60); v.push(0x20); v.push(0x20); v.push(0x70);
    v.push(0xF0); v.push(0x10); v.push(0xF0); v.push(0x80); v.push(0xF0);
    v.push(0xF0); v.push(0x10); v.push(0xF0); v.push(0x10); v.push(0xF0);
    v.push(0x90); v.push(0x90); v.push(0xF0); v.push(0x10); v.push(0x10);
    v.push(0xF0); v.push(0x80); v.push(0xF0); v.push(0x10); v.push(0xF0);
    v.push(0xF0); v.push(0x80); v.push(0xF0); v.push(0x90); v.push(0xF0);
    v.push(0xF0); v.push(0x10); v.push(0x20); v.push(0x40); v.push(0x40);
    v.push(0xF0); v.push(0x90); v.push(0xF0); v.push(0x90); v.push(0xF0);
    v.push(0xF0); v.push(0x90); v.push(0xF0); v.push(0x10); v.push(0xF0);
    v.push(0xF0); v.push(0x90); v.push(0xF0); v.push(0x90); v.push(0x90);
    v.push(0xE0); v.push(0x90); v.push(0xE0); v.push(0x90); v.push(0xE0);
    v.push(0xF0); v.push(0x80); v.push(0x80); v.push(0x80); v.push(0xF0);
    v.push(0xE0); v.push(0x90); v.push(0x90); v.push(0x90); v.push(0xE0);
    v.push(0xF0); v.push(0x80); v.push(0xF0); v.push(0x80); v.push(0xF0);
    v.push(0xF0); v.push(0x80); v.push(0xF0); v.push(0x80); v.push(0x80);
    proof {
        assert(v@ =~= font_seq());
    }
    v
}

impl Ram {
    pub open spec fn wf(&self) -> bool {
        self@.len() == 4096
    }

    /// A fresh store: font table seeded in [0, 80), zeroes above it.
    pub fn new() -> (r: Ram)
        ensures
            r.wf(),
            r@ == ram_init_seq(),
    {
        let mut mem: Vec<u8> = font_bytes();
        proof {
            assert(mem@ =~= ram_init_seq().take(80));
        }
        while mem.len() < 4096
            invariant
                80 <= mem@.len() <= 4096,
                mem@ == ram_init_seq().take(mem@.len() as int),
            decreases 4096 - mem@.len(),
        {
            mem.push(0);
            proof {
                assert(mem@ =~= ram_init_seq().take(mem@.len() as int));
            }
        }
        proof {
            assert(mem@ =~= ram_init_seq());
        }
        Ram { mem }
    }

    pub fn write_byte(&mut self, address: u16, value: u8)
        requires
            old(self).wf(),
            address < 4096,
        ensures
            final(self).wf(),
            final(self)@ == old(self)@.update(address as int, value),
    {
        self.mem.set(address as usize, value);
    }

    pub fn read_byte(&self, address: u16) -> (r: u8)
        requires
            self.wf(),
            address < 4096,
        ensures
            r == self@[address as int],
    {
        self.mem[address as usize]
    }
}

} // verus!
