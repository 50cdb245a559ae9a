use vstd::prelude::*;

use crate::display::{blank_grid, draw_byte_spec, Display};
use crate::keyboard::Keyboard;
use crate::ram::{ram_init_seq, Ram};

verus! {

/// Everything the interpreter can observe or change through the bus:
/// memory, pixel grid, asserted key, and the delay timer.
#[verifier::ext_equal]
pub ghost struct BusView {
    pub ram: Seq<u8>,
    pub disp: Seq<bool>,
    pub key: Option<u8>,
    pub delay_timer: u8,
}

/// Mediates every peripheral access the interpreter makes: memory reads and
/// writes, display operations, keypad queries, and delay-timer access, so
/// that no instruction touches a peripheral directly.
pub struct Bus {
    ram: Ram,
    display: Display,
    keyboard: Keyboard,
    delay_timer: u8,
}

impl View for Bus {
    type V = BusView;

    closed spec fn view(&self) -> BusView {
        BusView {
            ram: self.ram@,
            disp: self.display@,
            key: self.keyboard@,
            delay_timer: self.delay_timer,
        }
    }
}

impl Bus {
    pub open spec fn wf(&self) -> bool {
        self@.ram.len() == 4096 && self@.disp.len() == 2048
    }

    pub fn new() -> (bus: Bus)
        ensures
            bus.wf(),
            bus@ == (BusView {
                ram: ram_init_seq(),
                disp: blank_grid(),
                key: None,
                delay_timer: 0,
            }),
    {
        Bus { ram: Ram::new(), display: Display::new(), keyboard: Keyboard::new(), delay_timer: 0 }
    }

    pub fn ram_read_byte(&self, address: u16) -> (r: u8)
        requires
            self.wf(),
            address < 4096,
        ensures
            r == self@.ram[address as int],
    {
        self.ram.read_byte(address)
    }

    pub fn ram_write_byte(&mut self, address: u16, value: u8)
        requires
            old(self).wf(),
            address < 4096,
        ensures
            final(self).wf(),
            final(self)@ == (BusView { ram: old(self)@.ram.update(address as int, value), ..old(self)@ }),
    {
        self.ram.write_byte(address, value);
    }

    pub fn clear_screen(&mut self)
        requires
            old(self).wf(),
        ensures
            final(self).wf(),
            final(self)@ == (BusView { disp: blank_grid(), ..old(self)@ }),
    {
        self.display.clear();
    }

    /// XORs one sprite row byte into the display at (`x`, `y`) and reports
    /// whether a lit pixel was turned off.
    pub fn debug_draw_byte(&mut self, byte: u8, x: u8, y: u8) -> (collision: bool)
        requires
            old(self).wf(),
        ensures
            final(self).wf(),
            final(self)@ == (BusView {
                disp: draw_byte_spec(old(self)@.disp, byte, x, y).0,
                ..old(self)@
            }),
            collision == draw_byte_spec(old(self)@.disp, byte, x, y).1,
    {
        self.display.draw_byte(byte, x, y)
    }

    /// Signals frame readiness to the host collaborator; a rendering hook
    /// with no effect on the machine state.
    pub fn present_screen(&mut self)
        ensures
            *final(self) == *old(self),
    {
    }

    pub fn get_display_buffer(&self) -> (r: &Vec<bool>)
        ensures
            r@ == self@.disp,
    {
        self.display.read_buffer()
    }

    pub fn is_key_pressed(&self, key_code: u8) -> (r: bool)
        ensures
            r == (self@.key == Some(key_code)),
    {
        self.keyboard.is_key_pressed(key_code)
    }

    pub fn set_key_pressed(&mut self, key: Option<u8>)
        ensures
            final(self)@ == (BusView { key, ..old(self)@ }),
            final(self).wf() == old(self).wf(),
    {
        self.keyboard.set_key_pressed(key);
    }

    pub fn get_key_pressed(&self) -> (r: Option<u8>)
        ensures
            r == self@.key,
    {
        self.keyboard.get_key_pressed()
    }

    pub fn get_delay_timer(&self) -> (r: u8)
        ensures
            r == self@.delay_timer,
    {
        self.delay_timer
    }

    pub fn set_delay_timer(&mut self, value: u8)
        ensures
            final(self)@ == (BusView { delay_timer: value, ..old(self)@ }),
            final(self).wf() == old(self).wf(),
    {
        self.delay_timer = value;
    }
}

} // verus!
