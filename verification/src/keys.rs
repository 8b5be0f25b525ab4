//! The keys that drive the program.

use evdev::Key;
use vstd::prelude::*;

verus! {

/// The code of the right control key.
pub open spec fn right_ctrl() -> u16 {
    97
}

/// The code of the right shift key.
pub open spec fn right_shift() -> u16 {
    54
}

/// Compares the key that `evdev::Key::new` makes of `code` with
/// `evdev::Key::KEY_RIGHTCTRL`: keys are equal when their codes are, and that
/// one has the code 97.
#[verifier::external_body]
fn is_right_ctrl(code: u16) -> (is: bool)
    ensures
        is <==> code == right_ctrl(),
{
    Key::new(code) == Key::KEY_RIGHTCTRL
}

/// Compares the key that `evdev::Key::new` makes of `code` with
/// `evdev::Key::KEY_RIGHTSHIFT`: keys are equal when their codes are, and that
/// one has the code 54.
#[verifier::external_body]
fn is_right_shift(code: u16) -> (is: bool)
    ensures
        is <==> code == right_shift(),
{
    Key::new(code) == Key::KEY_RIGHTSHIFT
}

/// What a key is for.
#[derive(Debug, Clone, Copy, PartialEq, Eq, Structural)]
pub enum HotKey {
    /// Plays the last answer again: the right control key.
    Replay,
    /// Records while it is held: the right shift key.
    Talk,
    /// Any other key.
    Other,
}

/// Whether a key went down or up.
#[derive(Debug, Clone, Copy, PartialEq, Eq, Structural)]
pub enum KeyState {
    Pressed,
    Released,
}

/// What the key with the code `code` is for.
pub open spec fn hot_key_of(code: u16) -> HotKey {
    if code == right_ctrl() {
        HotKey::Replay
    } else if code == right_shift() {
        HotKey::Talk
    } else {
        HotKey::Other
    }
}

/// What the key that an event names is for. Key codes have 16 bits; the event
/// gives them in 32.
pub fn hot_key(key: u32) -> (hot_key: HotKey)
    ensures
        hot_key == hot_key_of(key as u16),
        hot_key is Replay <==> key % 65536 == 97,
        hot_key is Talk <==> key % 65536 == 54,
        hot_key is Other <==> key % 65536 != 97 && key % 65536 != 54,
{
    assert(key as u16 == key % 65536) by (bit_vector);
    let code: u16 = key as u16;
    if is_right_ctrl(code) {
        HotKey::Replay
    } else if is_right_shift(code) {
        HotKey::Talk
    } else {
        HotKey::Other
    }
}

/// The right control key alone plays an answer again, the right shift key alone is
/// to talk, and every other key is neither.
pub proof fn hot_keys_only(code: u16)
    ensures
        hot_key_of(code) is Replay <==> code == 97,
        hot_key_of(code) is Talk <==> code == 54,
        hot_key_of(code) is Other <==> code != 97 && code != 54,
{
}

} // verus!
