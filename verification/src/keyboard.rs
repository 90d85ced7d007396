use vstd::prelude::*;

verus! {

/// The input latch: at most one key of the 16-symbol hexadecimal keypad is
/// recorded as pressed at a time. The host input layer maps its own key
/// identifiers to the 4-bit keypad space before calling in.
pub struct Keyboard {
    pub pressed: Option<u8>,
}

impl Keyboard {
    pub fn new() -> (k: Keyboard)
        ensures
            k.pressed is None,
    {
        Keyboard { pressed: None }
    }

    /// Latches `key` as the currently pressed key, silently replacing any
    /// earlier press. A value outside the 16-key keypad space is dropped.
    pub fn set_key(&mut self, key: u8)
        ensures
            key <= 0xF ==> final(self).pressed == Some(key),
            key > 0xF ==> final(self).pressed == old(self).pressed,
    {
        if key <= 0xF {
            self.pressed = Some(key);
        }
    }

    /// Reports whether `keyval` is the currently latched key.
    pub fn is_pressed(&self, keyval: u8) -> (r: bool)
        ensures
            r == (self.pressed == Some(keyval)),
    {
        match self.pressed {
            Some(pressed_key) => keyval == pressed_key,
            None => false,
        }
    }

    /// Unsets the latch.
    pub fn clear(&mut self)
        ensures
            final(self).pressed is None,
    {
        self.pressed = None;
    }
}

} // verus!
