//! The keyboard input pipeline.
//!
//! The keyboard interrupt handler reads a raw scancode byte from the
//! keyboard port and pushes it into a bounded queue; a cooperative task
//! drains the queue and turns the bytes into key presses with the
//! `pc_keyboard` decoder.  The queue discipline (bounded, first in first
//! out, a full queue drops the scancode) is verified here; reading the port,
//! waking the task and printing the keys stay with the unverified handler
//! and runner.

use vstd::prelude::*;

use std::collections::VecDeque;

use pc_keyboard::DecodedKey;
use pc_keyboard::HandleControl;
use pc_keyboard::KeyEvent;
use pc_keyboard::PS2Keyboard;
use pc_keyboard::ScancodeSet1;
use pc_keyboard::layouts::Us104Key;

verus! {

/// The keyboard decoder the kernel uses: scancode-set-1 bytes under the US
/// 104-key layout.  The decoder type of `pc_keyboard` carries trait bounds
/// in its generics that cannot be declared here, so the concrete instance is
/// held opaquely in this wrapper struct.
#[verifier::external_body]
pub struct Keyboard {
    inner: PS2Keyboard<Us104Key, ScancodeSet1>,
}

/// The decoder state for scancode set 1.
#[verifier::external_type_specification]
#[verifier::external_body]
pub struct ExScancodeSet1(ScancodeSet1);

/// One completed key event: which key, pressed or released.
#[verifier::external_type_specification]
#[verifier::external_body]
pub struct ExKeyEvent(KeyEvent);

/// A decoded key press: a printable character, or a key with no printable
/// equivalent given as its key-code number.
#[derive(Debug, Clone, Copy, PartialEq, Eq, Structural)]
pub enum DecodedInput {
    RawKey(u8),
    Unicode(char),
}

/// Relies on pc_keyboard::ScancodeSet1::new: a fresh scancode-set-1 decoder
/// state.
#[verifier::external_body]
fn scancode_set1_new() -> ScancodeSet1 {
    ScancodeSet1::new()
}

/// Relies on pc_keyboard::PS2Keyboard::new: a decoder built from a scancode
/// set, a layout and a control-key policy.
#[verifier::external_body]
fn ps2_keyboard_new(set: ScancodeSet1) -> Keyboard {
    Keyboard { inner: PS2Keyboard::new(set, Us104Key, HandleControl::Ignore) }
}

/// A fresh keyboard decoder, as the interrupt handler and the keyboard task
/// build it: scancode set 1, US layout, control keys left alone.
pub fn new_keyboard() -> Keyboard {
    let set = scancode_set1_new();
    ps2_keyboard_new(set)
}

/// Relies on pc_keyboard::PS2Keyboard::add_byte: advances the decoder by one
/// scancode byte; a completed key event comes back as Ok(Some), an
/// incomplete sequence as Ok(None), and a byte the set does not know as an
/// error, which is dropped here exactly as the callers drop it.
#[verifier::external_body]
fn keyboard_add_byte(kb: &mut Keyboard, scancode: u8) -> Option<KeyEvent> {
    match kb.inner.add_byte(scancode) {
        Ok(Some(ev)) => Some(ev),
        Ok(None) => None,
        Err(_) => None,
    }
}

/// Relies on pc_keyboard::PS2Keyboard::process_keyevent: turns a key event
/// into a character or a raw key according to the layout and the modifier
/// state the decoder tracks.
#[verifier::external_body]
fn keyboard_process_keyevent(kb: &mut Keyboard, ev: KeyEvent) -> Option<DecodedInput> {
    match kb.inner.process_keyevent(ev) {
        Some(DecodedKey::RawKey(k)) => Some(DecodedInput::RawKey(k as u8)),
        Some(DecodedKey::Unicode(c)) => Some(DecodedInput::Unicode(c)),
        None => None,
    }
}

/// Feeds one scancode byte to the decoder: when the byte completes a key
/// event that the layout maps to an input, that input comes back.  What
/// comes back depends on the decoder's accumulated state; an unknown byte
/// or a half-finished multi-byte sequence yields nothing yet.
pub fn decode_scancode(kb: &mut Keyboard, scancode: u8) -> Option<DecodedInput> {
    match keyboard_add_byte(kb, scancode) {
        Some(ev) => keyboard_process_keyevent(kb, ev),
        None => None,
    }
}

/// The bounded queue between the keyboard interrupt handler and the
/// keyboard task, front first.
pub struct ScancodeQueue {
    items: VecDeque<u8>,
    capacity: usize,
}

impl View for ScancodeQueue {
    type V = Seq<u8>;

    closed spec fn view(&self) -> Seq<u8> {
        self.items@
    }
}

impl ScancodeQueue {
    /// How many scancodes the queue can hold.
    pub closed spec fn spec_capacity(&self) -> usize {
        self.capacity
    }

    /// Creates an empty queue holding at most `capacity` scancodes.
    pub fn new(capacity: usize) -> (r: ScancodeQueue)
        ensures
            r@ == Seq::<u8>::empty(),
            r.spec_capacity() == capacity,
    {
        ScancodeQueue { items: VecDeque::new(), capacity }
    }

    /// What the interrupt handler does with a scancode byte: queued behind
    /// the waiting bytes when there is room, dropped otherwise.  The result
    /// says whether the byte was kept, so the caller can report a full
    /// queue and wake the draining task only when something was queued.
    pub fn add_scancode(&mut self, scancode: u8) -> (kept: bool)
        ensures
            final(self).spec_capacity() == old(self).spec_capacity(),
            old(self)@.len() < old(self).spec_capacity() ==> kept && final(self)@ == old(
                self,
            )@.push(scancode),
            old(self)@.len() >= old(self).spec_capacity() ==> !kept && final(self)@ == old(self)@,
    {
        if self.items.len() < self.capacity {
            self.items.push_back(scancode);
            true
        } else {
            false
        }
    }

    /// What the draining task does each time it is polled: take the oldest
    /// waiting scancode, or report that the queue is empty and the task
    /// must wait to be woken.
    pub fn pop_scancode(&mut self) -> (r: Option<u8>)
        ensures
            final(self).spec_capacity() == old(self).spec_capacity(),
            match r {
                Some(scancode) => {
                    &&& old(self)@.len() > 0
                    &&& scancode == old(self)@[0]
                    &&& final(self)@ == old(self)@.drop_first()
                },
                None => {
                    &&& old(self)@.len() == 0
                    &&& final(self)@ == old(self)@
                },
            },
    {
        let r = self.items.pop_front();
        proof {
            if r is Some {
                assert(self@ =~= old(self)@.drop_first());
            }
        }
        r
    }
}

} // verus!
