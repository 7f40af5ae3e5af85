//! Device rules: which input devices count as keyboards, and which raw key
//! events are transitions.
use vstd::prelude::*;

verus! {

/// Linux input code of the `A` key.
pub const KEY_A: u16 = 30;

/// Linux input code of the `Z` key.
pub const KEY_Z: u16 = 44;

/// Linux input code of the space bar.
pub const KEY_SPACE: u16 = 57;

/// What a device reports about itself, read without opening it exclusively.
#[derive(Debug)]
pub struct DeviceCaps {
    /// The device reports key-class events.
    pub supports_key_events: bool,
    /// The key codes it supports.
    pub supported_keys: Vec<u16>,
}

/// Why no listener could be set up.
#[derive(Clone, Copy, Debug, PartialEq, Eq, Structural)]
pub enum ListenerError {
    /// No device qualifies as a keyboard.
    NoKeyboardFound,
}

/// A device is a keyboard when it reports key events and supports at least
/// the two ends of the alphabet and the space bar.
pub open spec fn keyboard_caps(supports_key_events: bool, keys: Seq<u16>) -> bool {
    supports_key_events && keys.contains(KEY_A) && keys.contains(KEY_Z) && keys.contains(
        KEY_SPACE,
    )
}

/// The positions of the keyboards among `devices`, in order.
pub open spec fn keyboard_indices(devices: Seq<DeviceCaps>) -> Seq<usize>
    decreases devices.len(),
{
    if devices.len() == 0 {
        Seq::empty()
    } else {
        let rest = keyboard_indices(devices.drop_last());
        let last = devices.last();
        if keyboard_caps(last.supports_key_events, last.supported_keys@) {
            rest.push((devices.len() - 1) as usize)
        } else {
            rest
        }
    }
}

fn contains_code(keys: &[u16], code: u16) -> (r: bool)
    ensures
        r == keys@.contains(code),
{
    let mut i: usize = 0;
    while i < keys.len()
        invariant
            i <= keys@.len(),
            forall|j: int| 0 <= j < i ==> keys@[j] != code,
        decreases keys@.len() - i,
    {
        if keys[i] == code {
            assert(keys@[i as int] == code);
            return true;
        }
        i = i + 1;
    }
    false
}

/// Whether a device with these capabilities qualifies as a keyboard.
pub fn is_keyboard(supports_key_events: bool, supported_keys: &[u16]) -> (r: bool)
    ensures
        r == keyboard_caps(supports_key_events, supported_keys@),
{
    supports_key_events && contains_code(supported_keys, KEY_A) && contains_code(
        supported_keys,
        KEY_Z,
    ) && contains_code(supported_keys, KEY_SPACE)
}

/// The positions of the qualifying keyboards among `devices`, or
/// `NoKeyboardFound` when there is none.
pub fn find_keyboards(devices: &[DeviceCaps]) -> (r: Result<Vec<usize>, ListenerError>)
    ensures
        match r {
            Ok(v) => v@ == keyboard_indices(devices@) && v@.len() > 0,
            Err(e) => e == ListenerError::NoKeyboardFound && keyboard_indices(devices@).len()
                == 0,
        },
{
    let mut found: Vec<usize> = Vec::new();
    let mut i: usize = 0;
    while i < devices.len()
        invariant
            i <= devices@.len(),
            found@ == keyboard_indices(devices@.subrange(0, i as int)),
        decreases devices@.len() - i,
    {
        proof {
            let next = devices@.subrange(0, i + 1);
            assert(next.drop_last() =~= devices@.subrange(0, i as int));
        }
        let dev = &devices[i];
        if is_keyboard(dev.supports_key_events, dev.supported_keys.as_slice()) {
            found.push(i);
        }
        i = i + 1;
    }
    assert(devices@.subrange(0, i as int) =~= devices@);
    if found.len() == 0 {
        Err(ListenerError::NoKeyboardFound)
    } else {
        Ok(found)
    }
}

/// Reads the value of a raw key event: 1 is a press, 0 a release, anything
/// else (autorepeat) is no transition.
pub fn key_transition(value: i32) -> (r: Option<bool>)
    ensures
        value == 1 ==> r == Some(true),
        value == 0 ==> r == Some(false),
        value != 0 && value != 1 ==> r is None,
{
    if value == 1 {
        Some(true)
    } else if value == 0 {
        Some(false)
    } else {
        None
    }
}

} // verus!
