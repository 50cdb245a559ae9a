use vstd::prelude::*;

use crate::bus::{Bus, BusView};
use crate::display::{blank_grid, draw_byte_spec};

verus! {

/// The first address after reserved low memory; program code loads here and
/// the program counter starts here.
pub const PROGRAM_START: u16 = 0x200;

/// A fatal condition that halts the machine: the offending instruction
/// address is carried along, with the raw instruction word where one was
/// decoded.
#[derive(Clone, Copy, Debug, PartialEq, Eq, Structural)]
pub enum Fault {
    /// The program counter left the addressable range before a full
    /// instruction word could be fetched.
    FetchOutOfRange { address: u16 },
    /// The decoded word has no defined behavior.
    UnknownInstruction { address: u16, instruction: u16 },
    /// A return was executed with an empty call stack.
    StackUnderflow { address: u16, instruction: u16 },
    /// An instruction would have touched memory outside the addressable
    /// range, or pushed the index register past its width.
    MemoryOutOfRange { address: u16, instruction: u16 },
}

/// The interpreter's own state: the sixteen 8-bit registers, the program
/// counter, the index register, and the return stack.
#[verifier::ext_equal]
pub ghost struct CpuView {
    pub vx: Seq<u8>,
    pub pc: u16,
    pub i: u16,
    pub ret_stack: Seq<u16>,
}

/// The 16-bit big-endian instruction word stored at `pc`.
pub open spec fn instr_at(ram: Seq<u8>, pc: u16) -> u16 {
    ((ram[pc as int] as u16) << 8) | (ram[pc as int + 1] as u16)
}

/// Top nibble: the opcode family.
pub open spec fn op_family(instr: u16) -> u16 {
    (instr & 0xF000) >> 12
}

/// Low 12 bits: the address operand.
pub open spec fn op_nnn(instr: u16) -> u16 {
    instr & 0x0FFF
}

/// Low byte: the immediate operand.
pub open spec fn op_nn(instr: u16) -> u8 {
    (instr & 0x00FF) as u8
}

/// Low nibble: the small immediate, typically a sprite height.
pub open spec fn op_n(instr: u16) -> u8 {
    (instr & 0x000F) as u8
}

/// Bits 8..12: the first register index.
pub open spec fn op_x(instr: u16) -> u8 {
    ((instr & 0x0F00) >> 8) as u8
}

/// Bits 4..8: the second register index.
pub open spec fn op_y(instr: u16) -> u8 {
    ((instr & 0x00F0) >> 4) as u8
}

/// 8-bit addition that wraps around 256.
pub open spec fn wrap_add(a: u8, b: u8) -> u8 {
    if a + b > 255 {
        (a + b - 256) as u8
    } else {
        (a + b) as u8
    }
}

/// 8-bit subtraction that wraps around 256.
pub open spec fn wrap_sub(a: u8, b: u8) -> u8 {
    if a >= b {
        (a - b) as u8
    } else {
        (a - b + 256) as u8
    }
}

/// The program counter after a conditional skip: four ahead when the
/// condition holds, else two.
pub open spec fn skip_pc(pc: u16, cond: bool) -> u16 {
    if cond {
        (pc + 4) as u16
    } else {
        (pc + 2) as u16
    }
}

/// The grid and collision flag after XORing the first `rows` sprite rows
/// stored at `base` into the grid at column `x`, starting row `y`; each row
/// wraps once around the 32-row axis.
pub open spec fn draw_rows(
    grid: Seq<bool>,
    ram: Seq<u8>,
    base: int,
    x: u8,
    y: u8,
    rows: nat,
) -> (Seq<bool>, bool)
    decreases rows,
{
    if rows == 0 {
        (grid, false)
    } else {
        let prior = draw_rows(grid, ram, base, x, y, (rows - 1) as nat);
        let drawn = draw_byte_spec(prior.0, ram[base + rows - 1], x, ((y + rows - 1) % 32) as u8);
        (drawn.0, prior.1 || drawn.1)
    }
}

/// Family 0: clear the screen, or pop the return stack into the program
/// counter.
pub open spec fn step_sys(c: CpuView, b: BusView, instr: u16) -> Result<(CpuView, BusView), Fault> {
    let nn = op_nn(instr);
    if nn == 0xE0 {
        Ok((CpuView { pc: (c.pc + 2) as u16, ..c }, BusView { disp: blank_grid(), ..b }))
    } else if nn == 0xEE {
        if c.ret_stack.len() == 0 {
            Err(Fault::StackUnderflow { address: c.pc, instruction: instr })
        } else {
            Ok((CpuView { pc: c.ret_stack.last(), ret_stack: c.ret_stack.drop_last(), ..c }, b))
        }
    } else {
        Err(Fault::UnknownInstruction { address: c.pc, instruction: instr })
    }
}

/// Family 8: register-to-register arithmetic and shifts. The add sets the
/// carry flag only when a carry occurs and otherwise leaves VF alone; the
/// subtract mirrors that rule, setting VF only when the wrapped difference
/// has its high bit set (a negative signed difference).
pub open spec fn step_alu(c: CpuView, instr: u16) -> Result<CpuView, Fault> {
    let n = op_n(instr);
    let x = op_x(instr) as int;
    let y = op_y(instr) as int;
    let vx = c.vx[x];
    let vy = c.vx[y];
    let pc2 = (c.pc + 2) as u16;
    if n == 0 {
        Ok(CpuView { vx: c.vx.update(x, vy), pc: pc2, ..c })
    } else if n == 2 {
        Ok(CpuView { vx: c.vx.update(x, vx & vy), pc: pc2, ..c })
    } else if n == 3 {
        Ok(CpuView { vx: c.vx.update(x, vx ^ vy), pc: pc2, ..c })
    } else if n == 4 {
        let with_sum = c.vx.update(x, wrap_add(vx, vy));
        let regs = if vx + vy > 255 {
            with_sum.update(15, 1u8)
        } else {
            with_sum
        };
        Ok(CpuView { vx: regs, pc: pc2, ..c })
    } else if n == 5 {
        let diff = wrap_sub(vx, vy);
        let with_diff = c.vx.update(x, diff);
        let regs = if diff >= 128 {
            with_diff.update(15, 1u8)
        } else {
            with_diff
        };
        Ok(CpuView { vx: regs, pc: pc2, ..c })
    } else if n == 6 {
        let regs = c.vx.update(15, vy & 1).update(y, vy >> 1).update(x, vy >> 1);
        Ok(CpuView { vx: regs, pc: pc2, ..c })
    } else {
        Err(Fault::UnknownInstruction { address: c.pc, instruction: instr })
    }
}

/// Family D: draw an `n`-row sprite from memory at the index register to
/// (Vx, Vy), setting VF to the collision flag.
pub open spec fn step_draw(c: CpuView, b: BusView, instr: u16) -> Result<
    (CpuView, BusView),
    Fault,
> {
    let n = op_n(instr);
    let x = op_x(instr) as int;
    let y = op_y(instr) as int;
    if c.i + n > 4096 {
        Err(Fault::MemoryOutOfRange { address: c.pc, instruction: instr })
    } else {
        let drawn = draw_rows(b.disp, b.ram, c.i as int, c.vx[x], c.vx[y], n as nat);
        Ok(
            (
                CpuView {
                    vx: c.vx.update(15, if drawn.1 { 1u8 } else { 0u8 }),
                    pc: (c.pc + 2) as u16,
                    ..c
                },
                BusView { disp: drawn.0, ..b },
            ),
        )
    }
}

/// Family E: conditional skips on the keypad state.
pub open spec fn step_key(c: CpuView, b: BusView, instr: u16) -> Result<(CpuView, BusView), Fault> {
    let nn = op_nn(instr);
    let x = op_x(instr) as int;
    if nn == 0x9E {
        Ok((CpuView { pc: skip_pc(c.pc, b.key == Some(c.vx[x])), ..c }, b))
    } else if nn == 0xA1 {
        Ok((CpuView { pc: skip_pc(c.pc, b.key != Some(c.vx[x])), ..c }, b))
    } else {
        Err(Fault::UnknownInstruction { address: c.pc, instruction: instr })
    }
}

/// Family F: timer access, key wait, index arithmetic, font lookup, BCD
/// store, and register dump/load.
pub open spec fn step_misc(c: CpuView, b: BusView, instr: u16) -> Result<
    (CpuView, BusView),
    Fault,
> {
    let nn = op_nn(instr);
    let x = op_x(instr) as int;
    let pc2 = (c.pc + 2) as u16;
    if nn == 0x07 {
        Ok((CpuView { vx: c.vx.update(x, b.delay_timer), pc: pc2, ..c }, b))
    } else if nn == 0x0A {
        match b.key {
            Some(v) => Ok((CpuView { vx: c.vx.update(x, v), pc: pc2, ..c }, b)),
            None => Ok((c, b)),
        }
    } else if nn == 0x15 {
        Ok((CpuView { pc: pc2, ..c }, BusView { delay_timer: c.vx[x], ..b }))
    } else if nn == 0x18 {
        Ok((CpuView { pc: pc2, ..c }, b))
    } else if nn == 0x1E {
        if c.i + c.vx[x] > 0xFFFF {
            Err(Fault::MemoryOutOfRange { address: c.pc, instruction: instr })
        } else {
            Ok((CpuView { i: (c.i + c.vx[x]) as u16, pc: pc2, ..c }, b))
        }
    } else if nn == 0x29 {
        Ok((CpuView { i: (c.vx[x] * 5) as u16, pc: pc2, ..c }, b))
    } else if nn == 0x33 {
        if c.i + 2 > 4095 {
            Err(Fault::MemoryOutOfRange { address: c.pc, instruction: instr })
        } else {
            let v = c.vx[x];
            let ram2 = b.ram.update(c.i as int, v / 100).update(c.i + 1, (v % 100) / 10).update(
                c.i + 2,
                v % 10,
            );
            Ok((CpuView { pc: pc2, ..c }, BusView { ram: ram2, ..b }))
        }
    } else if nn == 0x55 {
        if c.i + op_x(instr) > 4095 {
            Err(Fault::MemoryOutOfRange { address: c.pc, instruction: instr })
        } else {
            let ram2 = Seq::new(
                4096,
                |j: int|
                    if c.i <= j && j <= c.i + x {
                        c.vx[j - c.i]
                    } else {
                        b.ram[j]
                    },
            );
            Ok((CpuView { i: (c.i + x + 1) as u16, pc: pc2, ..c }, BusView { ram: ram2, ..b }))
        }
    } else if nn == 0x65 {
        if c.i + op_x(instr) > 4095 {
            Err(Fault::MemoryOutOfRange { address: c.pc, instruction: instr })
        } else {
            let regs = Seq::new(
                16,
                |j: int|
                    if 0 <= j && j <= x {
                        b.ram[c.i + j]
                    } else {
                        c.vx[j]
                    },
            );
            Ok((CpuView { vx: regs, pc: pc2, ..c }, b))
        }
    } else {
        Err(Fault::UnknownInstruction { address: c.pc, instruction: instr })
    }
}

/// The effect of one decoded instruction word on the whole machine. `rnd`
/// is the byte the random source hands the `Cxnn` instruction; every other
/// family ignores it.
pub open spec fn exec_instr(c: CpuView, b: BusView, instr: u16, rnd: u8) -> Result<
    (CpuView, BusView),
    Fault,
> {
    let family = op_family(instr);
    let nnn = op_nnn(instr);
    let nn = op_nn(instr);
    let x = op_x(instr) as int;
    let y = op_y(instr) as int;
    let pc2 = (c.pc + 2) as u16;
    if family == 0x0 {
        step_sys(c, b, instr)
    } else if family == 0x1 {
        Ok((CpuView { pc: nnn, ..c }, b))
    } else if family == 0x2 {
        Ok((CpuView { ret_stack: c.ret_stack.push(pc2), pc: nnn, ..c }, b))
    } else if family == 0x3 {
        Ok((CpuView { pc: skip_pc(c.pc, c.vx[x] == nn), ..c }, b))
    } else if family == 0x4 {
        Ok((CpuView { pc: skip_pc(c.pc, c.vx[x] != nn), ..c }, b))
    } else if family == 0x5 {
        Ok((CpuView { pc: skip_pc(c.pc, c.vx[x] == c.vx[y]), ..c }, b))
    } else if family == 0x6 {
        Ok((CpuView { vx: c.vx.update(x, nn), pc: pc2, ..c }, b))
    } else if family == 0x7 {
        Ok((CpuView { vx: c.vx.update(x, wrap_add(c.vx[x], nn)), pc: pc2, ..c }, b))
    } else if family == 0x8 {
        match step_alu(c, instr) {
            Ok(c2) => Ok((c2, b)),
            Err(f) => Err(f),
        }
    } else if family == 0x9 {
        Ok((CpuView { pc: skip_pc(c.pc, c.vx[x] != c.vx[y]), ..c }, b))
    } else if family == 0xA {
        Ok((CpuView { i: nnn, pc: pc2, ..c }, b))
    } else if family == 0xC {
        Ok((CpuView { vx: c.vx.update(x, rnd & nn), pc: pc2, ..c }, b))
    } else if family == 0xD {
        step_draw(c, b, instr)
    } else if family == 0xE {
        step_key(c, b, instr)
    } else if family == 0xF {
        step_misc(c, b, instr)
    } else {
        Err(Fault::UnknownInstruction { address: c.pc, instruction: instr })
    }
}

/// One full fetch-decode-execute cycle: fetch the word at the program
/// counter, then execute it. Faults if no full word lies inside memory.
pub open spec fn cycle(c: CpuView, b: BusView, rnd: u8) -> Result<(CpuView, BusView), Fault> {
    if c.pc + 1 >= 4096 {
        Err(Fault::FetchOutOfRange { address: c.pc })
    } else {
        exec_instr(c, b, instr_at(b.ram, c.pc), rnd)
    }
}

/// Every decoded field lies inside its width.
pub proof fn lemma_decode_bounds(instr: u16)
    ensures
        op_family(instr) < 16,
        op_x(instr) < 16,
        op_y(instr) < 16,
        op_n(instr) < 16,
        op_nnn(instr) < 4096,
{
    assert((instr & 0xF000) >> 12 < 16 && (instr & 0x0F00) >> 8 < 16 && (instr & 0x00F0) >> 4 < 16
        && instr & 0x000F < 16 && instr & 0x0FFF < 4096) by (bit_vector);
}

/// Relies on rand::random (rand crate): one byte drawn from the
/// thread-local generator; nothing is promised of its value.
#[verifier::external_body]
fn random_byte() -> u8 {
    rand::random::<u8>()
}

/// The instruction interpreter: registers, program counter, index register,
/// and call stack, stepped one fetch-decode-execute cycle at a time.
pub struct Cpu {
    vx: Vec<u8>,
    pc: u16,
    i: u16,
    ret_stack: Vec<u16>,
}

impl View for Cpu {
    type V = CpuView;

    closed spec fn view(&self) -> CpuView {
        CpuView { vx: self.vx@, pc: self.pc, i: self.i, ret_stack: self.ret_stack@ }
    }
}

impl Cpu {
    pub open spec fn wf(&self) -> bool {
        self@.vx.len() == 16
    }

    pub fn new() -> (cpu: Cpu)
        ensures
            cpu.wf(),
            cpu@ == (CpuView {
                vx: Seq::new(16, |j: int| 0u8),
                pc: PROGRAM_START,
                i: 0,
                ret_stack: Seq::<u16>::empty(),
            }),
    {
        let mut vx: Vec<u8> = Vec::new();
        let mut k: usize = 0;
        while k < 16
            invariant
                vx@.len() == k,
                k <= 16,
                forall|j: int| 0 <= j < k ==> vx@[j] == 0u8,
            decreases 16 - k,
        {
            vx.push(0);
            k = k + 1;
        }
        proof {
            assert(vx@ =~= Seq::new(16, |j: int| 0u8));
        }
        Cpu { vx, pc: PROGRAM_START, i: 0, ret_stack: Vec::<u16>::new() }
    }

    pub fn write_reg_vx(&mut self, index: u8, value: u8)
        requires
            old(self).wf(),
            index < 16,
        ensures
            final(self).wf(),
            final(self)@ == (CpuView {
                vx: old(self)@.vx.update(index as int, value),
                ..old(self)@
            }),
    {
        self.vx.set(index as usize, value);
    }

    pub fn read_reg_vx(&mut self, index: u8) -> (r: u8)
        requires
            old(self).wf(),
            index < 16,
        ensures
            *final(self) == *old(self),
            r == old(self)@.vx[index as int],
    {
        self.vx[index as usize]
    }

    pub fn get_pc(&self) -> (r: u16)
        ensures
            r == self@.pc,
    {
        self.pc
    }

    pub fn get_i(&self) -> (r: u16)
        ensures
            r == self@.i,
    {
        self.i
    }

    /// One fetch-decode-execute cycle against the bus. On success the
    /// machine advanced by exactly one `cycle` step for some random byte;
    /// on a fault nothing changed and every random byte leads to that
    /// fault.
    pub fn run_instruction(&mut self, bus: &mut Bus) -> (r: Result<(), Fault>)
        requires
            old(self).wf(),
            old(bus).wf(),
        ensures
            final(self).wf(),
            final(bus).wf(),
            match r {
                Ok(()) => exists|rnd: u8|
                    cycle(old(self)@, old(bus)@, rnd) == Ok::<(CpuView, BusView), Fault>(
                        (final(self)@, final(bus)@),
                    ),
                Err(f) => {
                    &&& final(self)@ == old(self)@
                    &&& final(bus)@ == old(bus)@
                    &&& forall|rnd: u8|
                        cycle(old(self)@, old(bus)@, rnd) == Err::<(CpuView, BusView), Fault>(f)
                },
            },
    {
        if self.pc >= 4095 {
            return Err(Fault::FetchOutOfRange { address: self.pc });
        }
        let hi: u16 = bus.ram_read_byte(self.pc) as u16;
        let lo: u16 = bus.ram_read_byte(self.pc + 1) as u16;
        let instruction: u16 = (hi << 8) | lo;
        proof {
            assert(instruction == instr_at(old(bus)@.ram, old(self)@.pc));
        }
        let r = self.execute(bus, instruction);
        proof {
            if r is Ok {
                let rnd = choose|rnd: u8|
                    exec_instr(old(self)@, old(bus)@, instruction, rnd) == Ok::<
                        (CpuView, BusView),
                        Fault,
                    >((self@, bus@));
                assert(cycle(old(self)@, old(bus)@, rnd) == Ok::<(CpuView, BusView), Fault>(
                    (self@, bus@),
                ));
            }
        }
        r
    }

    /// Executes one already-fetched instruction word.
    fn execute(&mut self, bus: &mut Bus, instruction: u16) -> (r: Result<(), Fault>)
        requires
            old(self).wf(),
            old(bus).wf(),
            old(self)@.pc + 1 < 4096,
        ensures
            final(self).wf(),
            final(bus).wf(),
            match r {
                Ok(()) => exists|rnd: u8|
                    exec_instr(old(self)@, old(bus)@, instruction, rnd) == Ok::<
                        (CpuView, BusView),
                        Fault,
                    >((final(self)@, final(bus)@)),
                Err(f) => {
                    &&& final(self)@ == old(self)@
                    &&& final(bus)@ == old(bus)@
                    &&& forall|rnd: u8|
                        exec_instr(old(self)@, old(bus)@, instruction, rnd) == Err::<
                            (CpuView, BusView),
                            Fault,
                        >(f)
                },
            },
    {
        let nnn: u16 = instruction & 0x0FFF;
        let nn: u8 = (instruction & 0x00FF) as u8;
        let n: u8 = (instruction & 0x000F) as u8;
        let x: u8 = ((instruction & 0x0F00) >> 8) as u8;
        let y: u8 = ((instruction & 0x00F0) >> 4) as u8;
        proof {
            lemma_decode_bounds(instruction);
            assert(nnn == op_nnn(instruction) && nn == op_nn(instruction) && n == op_n(instruction)
                && x == op_x(instruction) && y == op_y(instruction));
        }
        let pc: u16 = self.pc;
        match (instruction & 0xF000) >> 12 {
            0x0 => {
                match nn {
                    0xE0 => {
                        bus.clear_screen();
                        self.pc = pc + 2;
                        proof {
                            assert(exec_instr(old(self)@, old(bus)@, instruction, 0u8) == Ok::<
                                (CpuView, BusView),
                                Fault,
                            >((self@, bus@)));
                        }
                        Ok(())
                    },
                    0xEE => {
                        match self.ret_stack.pop() {
                            Some(addr) => {
                                self.pc = addr;
                                proof {
                                    assert(self@.ret_stack =~= old(self)@.ret_stack.drop_last());
                                    assert(exec_instr(old(self)@, old(bus)@, instruction, 0u8)
                                        == Ok::<(CpuView, BusView), Fault>((self@, bus@)));
                                }
                                Ok(())
                            },
                            None => {
                                let f = Fault::StackUnderflow { address: pc, instruction };
                                proof {
                                    assert(forall|rnd: u8|
                                        exec_instr(old(self)@, old(bus)@, instruction, rnd)
                                            == Err::<(CpuView, BusView), Fault>(f));
                                }
                                Err(f)
                            },
                        }
                    },
                    _ => {
                        let f = Fault::UnknownInstruction { address: pc, instruction };
                        proof {
                            assert(forall|rnd: u8|
                                exec_instr(old(self)@, old(bus)@, instruction, rnd) == Err::<
                                    (CpuView, BusView),
                                    Fault,
                                >(f));
                        }
                        Err(f)
                    },
                }
            },
            0x1 => {
                self.pc = nnn;
                proof {
                    assert(exec_instr(old(self)@, old(bus)@, instruction, 0u8) == Ok::<
                        (CpuView, BusView),
                        Fault,
                    >((self@, bus@)));
                }
                Ok(())
            },
            0x2 => {
                self.ret_stack.push(pc + 2);
                self.pc = nnn;
                proof {
                    assert(exec_instr(old(self)@, old(bus)@, instruction, 0u8) == Ok::<
                        (CpuView, BusView),
                        Fault,
                    >((self@, bus@)));
                }
                Ok(())
            },
            0x3 => {
                let vx_val: u8 = self.read_reg_vx(x);
                if vx_val == nn {
                    self.pc = pc + 4;
                } else {
                    self.pc = pc + 2;
                }
                proof {
                    assert(exec_instr(old(self)@, old(bus)@, instruction, 0u8) == Ok::<
                        (CpuView, BusView),
                        Fault,
                    >((self@, bus@)));
                }
                Ok(())
            },
            0x4 => {
                let vx_val: u8 = self.read_reg_vx(x);
                if vx_val != nn {
                    self.pc = pc + 4;
                } else {
                    self.pc = pc + 2;
                }
                proof {
                    assert(exec_instr(old(self)@, old(bus)@, instruction, 0u8) == Ok::<
                        (CpuView, BusView),
                        Fault,
                    >((self@, bus@)));
                }
                Ok(())
            },
            0x5 => {
                let vx_val: u8 = self.read_reg_vx(x);
                let vy_val: u8 = self.read_reg_vx(y);
                if vx_val == vy_val {
                    self.pc = pc + 4;
                } else {
                    self.pc = pc + 2;
                }
                proof {
                    assert(exec_instr(old(self)@, old(bus)@, instruction, 0u8) == Ok::<
                        (CpuView, BusView),
                        Fault,
                    >((self@, bus@)));
                }
                Ok(())
            },
            0x6 => {
                self.write_reg_vx(x, nn);
                self.pc = pc + 2;
                proof {
                    assert(exec_instr(old(self)@, old(bus)@, instruction, 0u8) == Ok::<
                        (CpuView, BusView),
                        Fault,
                    >((self@, bus@)));
                }
                Ok(())
            },
            0x7 => {
                let vx_val: u8 = self.read_reg_vx(x);
                let sum: u16 = vx_val as u16 + nn as u16;
                let low: u8 = if sum > 255 {
                    (sum - 256) as u8
                } else {
                    sum as u8
                };
                self.write_reg_vx(x, low);
                self.pc = pc + 2;
                proof {
                    assert(exec_instr(old(self)@, old(bus)@, instruction, 0u8) == Ok::<
                        (CpuView, BusView),
                        Fault,
                    >((self@, bus@)));
                }
                Ok(())
            },
            0x8 => {
                let vx_val: u8 = self.read_reg_vx(x);
                let vy_val: u8 = self.read_reg_vx(y);
                match n {
                    0 => {
                        self.write_reg_vx(x, vy_val);
                    },
                    2 => {
                        self.write_reg_vx(x, vx_val & vy_val);
                    },
                    3 => {
                        self.write_reg_vx(x, vx_val ^ vy_val);
                    },
                    4 => {
                        let sum: u16 = vx_val as u16 + vy_val as u16;
                        let low: u8 = if sum > 255 {
                            (sum - 256) as u8
                        } else {
                            sum as u8
                        };
                        self.write_reg_vx(x, low);
                        if sum > 0xFF {
                            self.write_reg_vx(0xF, 1);
                        }
                    },
                    5 => {
                        let diff: u8 = if vx_val >= vy_val {
                            vx_val - vy_val
                        } else {
                            (vx_val as u16 + 256 - vy_val as u16) as u8
                        };
                        self.write_reg_vx(x, diff);
                        if diff >= 128 {
                            self.write_reg_vx(0xF, 1);
                        }
                    },
                    6 => {
                        self.write_reg_vx(0xF, vy_val & 1);
                        self.write_reg_vx(y, vy_val >> 1);
                        self.write_reg_vx(x, vy_val >> 1);
                    },
                    _ => {
                        let f = Fault::UnknownInstruction { address: pc, instruction };
                        proof {
                            assert(forall|rnd: u8|
                                exec_instr(old(self)@, old(bus)@, instruction, rnd) == Err::<
                                    (CpuView, BusView),
                                    Fault,
                                >(f));
                        }
                        return Err(f);
                    },
                }
                self.pc = pc + 2;
                proof {
                    assert(exec_instr(old(self)@, old(bus)@, instruction, 0u8) == Ok::<
                        (CpuView, BusView),
                        Fault,
                    >((self@, bus@)));
                }
                Ok(())
            },
            0x9 => {
                let vx_val: u8 = self.read_reg_vx(x);
                let vy_val: u8 = self.read_reg_vx(y);
                if vx_val != vy_val {
                    self.pc = pc + 4;
                } else {
                    self.pc = pc + 2;
                }
                proof {
                    assert(exec_instr(old(self)@, old(bus)@, instruction, 0u8) == Ok::<
                        (CpuView, BusView),
                        Fault,
                    >((self@, bus@)));
                }
                Ok(())
            },
            0xA => {
                self.i = nnn;
                self.pc = pc + 2;
                proof {
                    assert(exec_instr(old(self)@, old(bus)@, instruction, 0u8) == Ok::<
                        (CpuView, BusView),
                        Fault,
                    >((self@, bus@)));
                }
                Ok(())
            },
            0xC => {
                let random_number: u8 = random_byte();
                self.write_reg_vx(x, random_number & nn);
                self.pc = pc + 2;
                proof {
                    assert(exec_instr(old(self)@, old(bus)@, instruction, random_number) == Ok::<
                        (CpuView, BusView),
                        Fault,
                    >((self@, bus@)));
                }
                Ok(())
            },
            0xD => {
                let vx_val: u8 = self.read_reg_vx(x);
                let vy_val: u8 = self.read_reg_vx(y);
                if (self.i as u32) + (n as u32) > 4096 {
                    let f = Fault::MemoryOutOfRange { address: pc, instruction };
                    proof {
                        assert(forall|rnd: u8|
                            exec_instr(old(self)@, old(bus)@, instruction, rnd) == Err::<
                                (CpuView, BusView),
                                Fault,
                            >(f));
                    }
                    Err(f)
                } else {
                    self.debug_draw_sprite(bus, vx_val, vy_val, n);
                    self.pc = pc + 2;
                    proof {
                        assert(exec_instr(old(self)@, old(bus)@, instruction, 0u8) == Ok::<
                            (CpuView, BusView),
                            Fault,
                        >((self@, bus@)));
                    }
                    Ok(())
                }
            },
            0xE => {
                match nn {
                    0x9E => {
                        let key: u8 = self.read_reg_vx(x);
                        if bus.is_key_pressed(key) {
                            self.pc = pc + 4;
                        } else {
                            self.pc = pc + 2;
                        }
                        proof {
                            assert(exec_instr(old(self)@, old(bus)@, instruction, 0u8) == Ok::<
                                (CpuView, BusView),
                                Fault,
                            >((self@, bus@)));
                        }
                        Ok(())
                    },
                    0xA1 => {
                        let key: u8 = self.read_reg_vx(x);
                        if !bus.is_key_pressed(key) {
                            self.pc = pc + 4;
                        } else {
                            self.pc = pc + 2;
                        }
                        proof {
                            assert(exec_instr(old(self)@, old(bus)@, instruction, 0u8) == Ok::<
                                (CpuView, BusView),
                                Fault,
                            >((self@, bus@)));
                        }
                        Ok(())
                    },
                    _ => {
                        let f = Fault::UnknownInstruction { address: pc, instruction };
                        proof {
                            assert(forall|rnd: u8|
                                exec_instr(old(self)@, old(bus)@, instruction, rnd) == Err::<
                                    (CpuView, BusView),
                                    Fault,
                                >(f));
                        }
                        Err(f)
                    },
                }
            },
            0xF => {
                match nn {
                    0x07 => {
                        let t: u8 = bus.get_delay_timer();
                        self.write_reg_vx(x, t);
                        self.pc = pc + 2;
                        proof {
                            assert(exec_instr(old(self)@, old(bus)@, instruction, 0u8) == Ok::<
                                (CpuView, BusView),
                                Fault,
                            >((self@, bus@)));
                        }
                        Ok(())
                    },
                    0x0A => {
                        let key: Option<u8> = bus.get_key_pressed();
                        match key {
                            Some(val) => {
                                self.write_reg_vx(x, val);
                                self.pc = pc + 2;
                            },
                            None => {},
                        }
                        proof {
                            assert(exec_instr(old(self)@, old(bus)@, instruction, 0u8) == Ok::<
                                (CpuView, BusView),
                                Fault,
                            >((self@, bus@)));
                        }
                        Ok(())
                    },
                    0x15 => {
                        let vx_val: u8 = self.read_reg_vx(x);
                        bus.set_delay_timer(vx_val);
                        self.pc = pc + 2;
                        proof {
                            assert(exec_instr(old(self)@, old(bus)@, instruction, 0u8) == Ok::<
                                (CpuView, BusView),
                                Fault,
                            >((self@, bus@)));
                        }
                        Ok(())
                    },
                    0x18 => {
                        self.pc = pc + 2;
                        proof {
                            assert(exec_instr(old(self)@, old(bus)@, instruction, 0u8) == Ok::<
                                (CpuView, BusView),
                                Fault,
                            >((self@, bus@)));
                        }
                        Ok(())
                    },
                    0x1E => {
                        let vx_val: u8 = self.read_reg_vx(x);
                        if (self.i as u32) + (vx_val as u32) > 0xFFFF {
                            let f = Fault::MemoryOutOfRange { address: pc, instruction };
                            proof {
                                assert(forall|rnd: u8|
                                    exec_instr(old(self)@, old(bus)@, instruction, rnd) == Err::<
                                        (CpuView, BusView),
                                        Fault,
                                    >(f));
                            }
                            Err(f)
                        } else {
                            self.i = self.i + vx_val as u16;
                            self.pc = pc + 2;
                            proof {
                                assert(exec_instr(old(self)@, old(bus)@, instruction, 0u8) == Ok::<
                                    (CpuView, BusView),
                                    Fault,
                                >((self@, bus@)));
                            }
                            Ok(())
                        }
                    },
                    0x29 => {
                        let vx_val: u8 = self.read_reg_vx(x);
                        self.i = (vx_val as u16) * 5;
                        self.pc = pc + 2;
                        proof {
                            assert(exec_instr(old(self)@, old(bus)@, instruction, 0u8) == Ok::<
                                (CpuView, BusView),
                                Fault,
                            >((self@, bus@)));
                        }
                        Ok(())
                    },
                    0x33 => {
                        if self.i > 4093 {
                            let f = Fault::MemoryOutOfRange { address: pc, instruction };
                            proof {
                                assert(forall|rnd: u8|
                                    exec_instr(old(self)@, old(bus)@, instruction, rnd) == Err::<
                                        (CpuView, BusView),
                                        Fault,
                                    >(f));
                            }
                            Err(f)
                        } else {
                            let vx_val: u8 = self.read_reg_vx(x);
                            let hundreds: u8 = vx_val / 100;
                            let tens: u8 = (vx_val % 100) / 10;
                            let ones: u8 = vx_val % 10;
                            bus.ram_write_byte(self.i, hundreds);
                            bus.ram_write_byte(self.i + 1, tens);
                            bus.ram_write_byte(self.i + 2, ones);
                            self.pc = pc + 2;
                            proof {
                                assert(exec_instr(old(self)@, old(bus)@, instruction, 0u8) == Ok::<
                                    (CpuView, BusView),
                                    Fault,
                                >((self@, bus@)));
                            }
                            Ok(())
                        }
                    },
                    0x55 => {
                        if (self.i as u32) + (x as u32) > 4095 {
                            let f = Fault::MemoryOutOfRange { address: pc, instruction };
                            proof {
                                assert(forall|rnd: u8|
                                    exec_instr(old(self)@, old(bus)@, instruction, rnd) == Err::<
                                        (CpuView, BusView),
                                        Fault,
                                    >(f));
                            }
                            Err(f)
                        } else {
                            let mut index: u8 = 0;
                            while index < x + 1
                                invariant
                                    self.wf(),
                                    bus.wf(),
                                    self@ == old(self)@,
                                    x < 16,
                                    index <= x + 1,
                                    old(self)@.i + x <= 4095,
                                    bus@.disp == old(bus)@.disp,
                                    bus@.key == old(bus)@.key,
                                    bus@.delay_timer == old(bus)@.delay_timer,
                                    forall|j: int|
                                        0 <= j < 4096 ==> bus@.ram[j] == (if old(self)@.i <= j
                                            && j < old(self)@.i + index {
                                            old(self)@.vx[j - old(self)@.i]
                                        } else {
                                            old(bus)@.ram[j]
                                        }),
                                decreases x + 1 - index,
                            {
                                let value: u8 = self.read_reg_vx(index);
                                bus.ram_write_byte(self.i + index as u16, value);
                                index = index + 1;
                            }
                            self.i = self.i + x as u16 + 1;
                            self.pc = pc + 2;
                            proof {
                                assert(bus@.ram =~= Seq::new(
                                    4096,
                                    |j: int|
                                        if old(self)@.i <= j && j <= old(self)@.i + x {
                                            old(self)@.vx[j - old(self)@.i]
                                        } else {
                                            old(bus)@.ram[j]
                                        },
                                ));
                                assert(bus@ =~= (BusView {
                                    ram: Seq::new(
                                        4096,
                                        |j: int|
                                            if old(self)@.i <= j && j <= old(self)@.i + x {
                                                old(self)@.vx[j - old(self)@.i]
                                            } else {
                                                old(bus)@.ram[j]
                                            },
                                    ),
                                    ..old(bus)@
                                }));
                                assert(exec_instr(old(self)@, old(bus)@, instruction, 0u8) == Ok::<
                                    (CpuView, BusView),
                                    Fault,
                                >((self@, bus@)));
                            }
                            Ok(())
                        }
                    },
                    0x65 => {
                        if (self.i as u32) + (x as u32) > 4095 {
                            let f = Fault::MemoryOutOfRange { address: pc, instruction };
                            proof {
                                assert(forall|rnd: u8|
                                    exec_instr(old(self)@, old(bus)@, instruction, rnd) == Err::<
                                        (CpuView, BusView),
                                        Fault,
                                    >(f));
                            }
                            Err(f)
                        } else {
                            let mut index: u8 = 0;
                            while index < x + 1
                                invariant
                                    self.wf(),
                                    bus.wf(),
                                    bus@ == old(bus)@,
                                    x < 16,
                                    index <= x + 1,
                                    old(self)@.i + x <= 4095,
                                    self@.pc == old(self)@.pc,
                                    self@.i == old(self)@.i,
                                    self@.ret_stack == old(self)@.ret_stack,
                                    forall|j: int|
                                        0 <= j < 16 ==> self@.vx[j] == (if 0 <= j && j < index {
                                            old(bus)@.ram[old(self)@.i + j]
                                        } else {
                                            old(self)@.vx[j]
                                        }),
                                decreases x + 1 - index,
                            {
                                let value: u8 = bus.ram_read_byte(self.i + index as u16);
                                self.write_reg_vx(index, value);
                                index = index + 1;
                            }
                            self.pc = pc + 2;
                            proof {
                                assert(self@.vx =~= Seq::new(
                                    16,
                                    |j: int|
                                        if 0 <= j && j <= x {
                                            old(bus)@.ram[old(self)@.i + j]
                                        } else {
                                            old(self)@.vx[j]
                                        },
                                ));
                                assert(exec_instr(old(self)@, old(bus)@, instruction, 0u8) == Ok::<
                                    (CpuView, BusView),
                                    Fault,
                                >((self@, bus@)));
                            }
                            Ok(())
                        }
                    },
                    _ => {
                        let f = Fault::UnknownInstruction { address: pc, instruction };
                        proof {
                            assert(forall|rnd: u8|
                                exec_instr(old(self)@, old(bus)@, instruction, rnd) == Err::<
                                    (CpuView, BusView),
                                    Fault,
                                >(f));
                        }
                        Err(f)
                    },
                }
            },
            _ => {
                let f = Fault::UnknownInstruction { address: pc, instruction };
                proof {
                    assert(forall|rnd: u8|
                        exec_instr(old(self)@, old(bus)@, instruction, rnd) == Err::<
                            (CpuView, BusView),
                            Fault,
                        >(f));
                }
                Err(f)
            },
        }
    }

    /// Draws the `height`-row sprite stored at the index register to
    /// (`x`, `y`), then sets VF to 1 exactly when some row collided.
    fn debug_draw_sprite(&mut self, bus: &mut Bus, x: u8, y: u8, height: u8)
        requires
            old(self).wf(),
            old(bus).wf(),
            height < 16,
            old(self)@.i + height <= 4096,
        ensures
            final(self).wf(),
            final(bus).wf(),
            ({
                let drawn = draw_rows(
                    old(bus)@.disp,
                    old(bus)@.ram,
                    old(self)@.i as int,
                    x,
                    y,
                    height as nat,
                );
                &&& final(bus)@ == (BusView { disp: drawn.0, ..old(bus)@ })
                &&& final(self)@ == (CpuView {
                    vx: old(self)@.vx.update(15, if drawn.1 { 1u8 } else { 0u8 }),
                    ..old(self)@
                })
            }),
    {
        let mut should_set_vf: bool = false;
        let mut sprite_y: u8 = 0;
        while sprite_y < height
            invariant
                self.wf(),
                bus.wf(),
                sprite_y <= height,
                height < 16,
                self@ == old(self)@,
                old(self)@.i + height <= 4096,
                bus@.ram == old(bus)@.ram,
                bus@.key == old(bus)@.key,
                bus@.delay_timer == old(bus)@.delay_timer,
                (bus@.disp, should_set_vf) == draw_rows(
                    old(bus)@.disp,
                    old(bus)@.ram,
                    old(self)@.i as int,
                    x,
                    y,
                    sprite_y as nat,
                ),
            decreases height - sprite_y,
        {
            let byte: u8 = bus.ram_read_byte(self.i + sprite_y as u16);
            let row_y: u8 = ((y as u16 + sprite_y as u16) % 32) as u8;
            let collided: bool = bus.debug_draw_byte(byte, x, row_y);
            if collided {
                should_set_vf = true;
            }
            sprite_y = sprite_y + 1;
            proof {
                assert((bus@.disp, should_set_vf) == draw_rows(
                    old(bus)@.disp,
                    old(bus)@.ram,
                    old(self)@.i as int,
                    x,
                    y,
                    sprite_y as nat,
                ));
            }
        }
        if should_set_vf {
            self.write_reg_vx(0xF, 1);
        } else {
            self.write_reg_vx(0xF, 0);
        }
    }
}

} // verus!
