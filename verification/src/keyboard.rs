use vstd::prelude::*;

verus! {

/// The 16-key hex keypad as the interpreter sees it: which key, if any, is
/// currently asserted. The host input collaborator writes it; the
/// interpreter only reads it.
pub struct Keyboard {
    key_pressed: Option<u8>,
}

impl View for Keyboard {
    type V = Option<u8>;

    closed spec fn view(&self) -> Option<u8> {
        self.key_pressed
    }
}

impl Keyboard {
    pub fn new() -> (kb: Keyboard)
        ensures
            kb@ is None,
    {
        Keyboard { key_pressed: None }
    }

    pub fn is_key_pressed(&self, key_code: u8) -> (r: bool)
        ensures
            r == (self@ == Some(key_code)),
    {
        match self.key_pressed {
            Some(key) => key == key_code,
            None => false,
        }
    }

    pub fn set_key_pressed(&mut self, key: Option<u8>)
        ensures
            final(self)@ == key,
    {
        self.key_pressed = key;
    }

    pub fn get_key_pressed(&self) -> (r: Option<u8>)
        ensures
            r == self@,
    {
        self.key_pressed
    }
}

} // verus!
