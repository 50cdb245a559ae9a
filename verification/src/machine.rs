use vstd::prelude::*;

use crate::bus::{Bus, BusView};
use crate::cpu::{cycle, Cpu, CpuView, Fault, PROGRAM_START};
use crate::display::blank_grid;
use crate::ram::ram_init_seq;

verus! {

/// The whole machine: interpreter state plus everything behind the bus.
#[verifier::ext_equal]
pub ghost struct Chip8View {
    pub cpu: CpuView,
    pub bus: BusView,
}

/// One emulated machine instance: the interpreter together with its bus and
/// peripherals, as the host loop drives it.
pub struct Chip8 {
    bus: Bus,
    cpu: Cpu,
}

impl View for Chip8 {
    type V = Chip8View;

    closed spec fn view(&self) -> Chip8View {
        Chip8View { cpu: self.cpu@, bus: self.bus@ }
    }
}

impl Chip8 {
    pub open spec fn wf(&self) -> bool {
        self@.cpu.vx.len() == 16 && self@.bus.ram.len() == 4096 && self@.bus.disp.len() == 2048
    }

    pub fn new() -> (m: Chip8)
        ensures
            m.wf(),
            m@.cpu == (CpuView {
                vx: Seq::new(16, |j: int| 0u8),
                pc: PROGRAM_START,
                i: 0,
                ret_stack: Seq::<u16>::empty(),
            }),
            m@.bus == (BusView {
                ram: ram_init_seq(),
                disp: blank_grid(),
                key: None,
                delay_timer: 0,
            }),
    {
        Chip8 { bus: Bus::new(), cpu: Cpu::new() }
    }

    /// Loads a raw ROM image verbatim starting at the program start
    /// address; the rest of the machine is untouched.
    pub fn load_rom(&mut self, data: &Vec<u8>)
        requires
            old(self).wf(),
            data@.len() <= 4096 - 0x200,
        ensures
            final(self).wf(),
            final(self)@.cpu == old(self)@.cpu,
            final(self)@.bus == (BusView {
                ram: Seq::new(
                    4096,
                    |j: int|
                        if 0x200 <= j && j < 0x200 + data@.len() {
                            data@[j - 0x200]
                        } else {
                            old(self)@.bus.ram[j]
                        },
                ),
                ..old(self)@.bus
            }),
    {
        let mut offset: usize = 0;
        while offset < data.len()
            invariant
                self.wf(),
                self@.cpu == old(self)@.cpu,
                offset <= data@.len(),
                data@.len() <= 3584,
                self@.bus.disp == old(self)@.bus.disp,
                self@.bus.key == old(self)@.bus.key,
                self@.bus.delay_timer == old(self)@.bus.delay_timer,
                forall|j: int|
                    0 <= j < 4096 ==> self@.bus.ram[j] == (if 0x200 <= j && j < 0x200 + offset {
                        data@[j - 0x200]
                    } else {
                        old(self)@.bus.ram[j]
                    }),
            decreases data@.len() - offset,
        {
            let value: u8 = data[offset];
            self.bus.ram_write_byte(0x200 + offset as u16, value);
            offset = offset + 1;
        }
        proof {
            assert(self@.bus =~= (BusView {
                ram: Seq::new(
                    4096,
                    |j: int|
                        if 0x200 <= j && j < 0x200 + data@.len() {
                            data@[j - 0x200]
                        } else {
                            old(self)@.bus.ram[j]
                        },
                ),
                ..old(self)@.bus
            }));
        }
    }

    /// One fetch-decode-execute cycle of the whole machine.
    pub fn run_instruction(&mut self) -> (r: Result<(), Fault>)
        requires
            old(self).wf(),
        ensures
            final(self).wf(),
            match r {
                Ok(()) => exists|rnd: u8|
                    cycle(old(self)@.cpu, old(self)@.bus, rnd) == Ok::<(CpuView, BusView), Fault>(
                        (final(self)@.cpu, final(self)@.bus),
                    ),
                Err(f) => {
                    &&& final(self)@ == old(self)@
                    &&& forall|rnd: u8|
                        cycle(old(self)@.cpu, old(self)@.bus, rnd) == Err::<
                            (CpuView, BusView),
                            Fault,
                        >(f)
                },
            },
    {
        self.cpu.run_instruction(&mut self.bus)
    }

    pub fn set_key_pressed(&mut self, key: Option<u8>)
        ensures
            final(self)@ == (Chip8View {
                cpu: old(self)@.cpu,
                bus: BusView { key, ..old(self)@.bus },
            }),
            final(self).wf() == old(self).wf(),
    {
        self.bus.set_key_pressed(key);
    }

    pub fn get_display_buffer(&self) -> (r: &Vec<bool>)
        ensures
            r@ == self@.bus.disp,
    {
        self.bus.get_display_buffer()
    }

    pub fn get_delay_timer(&self) -> (r: u8)
        ensures
            r == self@.bus.delay_timer,
    {
        self.bus.get_delay_timer()
    }

    pub fn set_delay_timer(&mut self, value: u8)
        ensures
            final(self)@ == (Chip8View {
                cpu: old(self)@.cpu,
                bus: BusView { delay_timer: value, ..old(self)@.bus },
            }),
            final(self).wf() == old(self).wf(),
    {
        self.bus.set_delay_timer(value);
    }

    pub fn read_reg_vx(&mut self, index: u8) -> (r: u8)
        requires
            old(self).wf(),
            index < 16,
        ensures
            *final(self) == *old(self),
            r == old(self)@.cpu.vx[index as int],
    {
        self.cpu.read_reg_vx(index)
    }

    pub fn get_pc(&self) -> (r: u16)
        ensures
            r == self@.cpu.pc,
    {
        self.cpu.get_pc()
    }

    pub fn get_i(&self) -> (r: u16)
        ensures
            r == self@.cpu.i,
    {
        self.cpu.get_i()
    }
}

} // verus!
