//! Keys and mouse buttons: the numbers that they are stored as, and the
//! list of those that are held down.

use vstd::prelude::*;
use vstd::std_specs::cmp::PartialEqSpecImpl;

verus! {

/// A key of the keyboard, named by the number of its key code.
#[derive(Copy, Clone, Debug, Eq, Hash)]
pub struct VirtualKeyCode {
    pub code: u8,
}

/// A button of the mouse.
#[derive(Copy, Clone, Debug, Eq, Hash)]
pub enum MouseButton {
    Left,
    Right,
    Middle,
    Other(u8),
}

#[derive(Copy, Clone, Debug, Eq, Hash)]
pub enum KeyOrButton {
    Key(VirtualKeyCode),
    Button(MouseButton),
}

/// Keys and buttons that trigger something, each group held down together.
#[derive(Clone, Debug)]
pub struct KeyCombination {
    pub keys: Vec<Vec<KeyOrButton>>,
}

impl PartialEq for VirtualKeyCode {
    fn eq(&self, other: &Self) -> (r: bool) {
        self.code == other.code
    }
}

impl PartialEqSpecImpl for VirtualKeyCode {
    open spec fn obeys_eq_spec() -> bool {
        true
    }

    open spec fn eq_spec(&self, other: &Self) -> bool {
        self.code == other.code
    }
}

impl PartialEq for MouseButton {
    fn eq(&self, other: &Self) -> (r: bool) {
        match (*self, *other) {
            (MouseButton::Left, MouseButton::Left) => true,
            (MouseButton::Right, MouseButton::Right) => true,
            (MouseButton::Middle, MouseButton::Middle) => true,
            (MouseButton::Other(a), MouseButton::Other(b)) => a == b,
            _ => false,
        }
    }
}

impl PartialEqSpecImpl for MouseButton {
    open spec fn obeys_eq_spec() -> bool {
        true
    }

    open spec fn eq_spec(&self, other: &Self) -> bool {
        match (*self, *other) {
            (MouseButton::Left, MouseButton::Left) => true,
            (MouseButton::Right, MouseButton::Right) => true,
            (MouseButton::Middle, MouseButton::Middle) => true,
            (MouseButton::Other(a), MouseButton::Other(b)) => a == b,
            _ => false,
        }
    }
}

impl PartialEq for KeyOrButton {
    fn eq(&self, other: &Self) -> (r: bool) {
        match (*self, *other) {
            (KeyOrButton::Key(a), KeyOrButton::Key(b)) => a == b,
            (KeyOrButton::Button(a), KeyOrButton::Button(b)) => a == b,
            _ => false,
        }
    }
}

impl PartialEqSpecImpl for KeyOrButton {
    open spec fn obeys_eq_spec() -> bool {
        true
    }

    open spec fn eq_spec(&self, other: &Self) -> bool {
        match (*self, *other) {
            (KeyOrButton::Key(a), KeyOrButton::Key(b)) => a == b,
            (KeyOrButton::Button(a), KeyOrButton::Button(b)) => a == b,
            _ => false,
        }
    }
}

/// Two keys or buttons compare equal exactly if they are the same.
pub proof fn lemma_key_or_button_equality()
    ensures
        vstd::laws_eq::obeys_concrete_eq::<KeyOrButton>(),
{
    reveal(vstd::laws_eq::obeys_concrete_eq);
}

/// Number of the left mouse button.
pub const LEFT_BUTTON_CODE: u64 = 1001;

/// Number of the middle mouse button.
pub const MIDDLE_BUTTON_CODE: u64 = 1002;

/// Number of the right mouse button.
pub const RIGHT_BUTTON_CODE: u64 = 1003;

/// Number of the first of the other mouse buttons.
pub const OTHER_BUTTON_BASE: u64 = 2000;

impl KeyOrButton {
    /// The number that a key or button is stored as: a key as its key code,
    /// the left, middle and right button as 1001, 1002 and 1003, and any
    /// other button as its own number above 2000.
    pub open spec fn spec_code(&self) -> u64 {
        match *self {
            KeyOrButton::Key(key) => key.code as u64,
            KeyOrButton::Button(MouseButton::Other(button)) => (button + OTHER_BUTTON_BASE) as u64,
            KeyOrButton::Button(MouseButton::Left) => LEFT_BUTTON_CODE,
            KeyOrButton::Button(MouseButton::Middle) => MIDDLE_BUTTON_CODE,
            KeyOrButton::Button(MouseButton::Right) => RIGHT_BUTTON_CODE,
        }
    }

    /// The key or button that is stored as `code`, if there is one.
    pub open spec fn spec_from_code(code: u64) -> Option<KeyOrButton> {
        if code <= u8::MAX {
            Some(KeyOrButton::Key(VirtualKeyCode { code: code as u8 }))
        } else if code == LEFT_BUTTON_CODE {
            Some(KeyOrButton::Button(MouseButton::Left))
        } else if code == MIDDLE_BUTTON_CODE {
            Some(KeyOrButton::Button(MouseButton::Middle))
        } else if code == RIGHT_BUTTON_CODE {
            Some(KeyOrButton::Button(MouseButton::Right))
        } else if OTHER_BUTTON_BASE <= code <= OTHER_BUTTON_BASE + u8::MAX {
            Some(KeyOrButton::Button(MouseButton::Other((code - OTHER_BUTTON_BASE) as u8)))
        } else {
            None
        }
    }

    /// The number that the key or button is stored as.
    pub fn code(&self) -> (r: u64)
        ensures
            r == self.spec_code(),
    {
        match *self {
            KeyOrButton::Key(key) => key.code as u64,
            KeyOrButton::Button(button) => {
                match button {
                    MouseButton::Other(other) => other as u64 + OTHER_BUTTON_BASE,
                    MouseButton::Left => LEFT_BUTTON_CODE,
                    MouseButton::Middle => MIDDLE_BUTTON_CODE,
                    MouseButton::Right => RIGHT_BUTTON_CODE,
                }
            },
        }
    }

    /// The key or button that is stored as `code`; `None` for a number that
    /// no key or button is stored as.
    pub fn from_code(code: u64) -> (r: Option<KeyOrButton>)
        ensures
            r == Self::spec_from_code(code),
    {
        if code <= 255 {
            Some(KeyOrButton::Key(VirtualKeyCode { code: code as u8 }))
        } else if code == LEFT_BUTTON_CODE {
            Some(KeyOrButton::Button(MouseButton::Left))
        } else if code == MIDDLE_BUTTON_CODE {
            Some(KeyOrButton::Button(MouseButton::Middle))
        } else if code == RIGHT_BUTTON_CODE {
            Some(KeyOrButton::Button(MouseButton::Right))
        } else if code >= OTHER_BUTTON_BASE && code <= OTHER_BUTTON_BASE + 255 {
            Some(KeyOrButton::Button(MouseButton::Other((code - OTHER_BUTTON_BASE) as u8)))
        } else {
            None
        }
    }
}

/// Reading the number that a key or button was stored as gives back that
/// key or button, and storing what was read from a number gives back that
/// number.
pub proof fn lemma_code_round_trip(key: KeyOrButton, code: u64)
    ensures
        KeyOrButton::spec_from_code(key.spec_code()) == Some(key),
        KeyOrButton::spec_from_code(code) matches Some(read) ==> read.spec_code() == code,
{
}

/// The place of the first occurrence of `key` in `keys`.
pub open spec fn first_place_of(keys: Seq<KeyOrButton>, key: KeyOrButton) -> Option<int>
    decreases keys.len(),
{
    if keys.len() == 0 {
        None
    } else if keys[0] == key {
        Some(0int)
    } else {
        match first_place_of(keys.drop_first(), key) {
            Some(place) => Some(place + 1),
            None => None,
        }
    }
}

/// The keys and buttons that are held down after `key` went down: `key`
/// joins them at the end.
pub fn key_pressed(keys_down: &mut Vec<KeyOrButton>, key: KeyOrButton)
    ensures
        final(keys_down)@ == old(keys_down)@.push(key),
{
    keys_down.push(key);
}

/// The keys and buttons that are held down after `key` went up: its first
/// occurrence leaves them, the others keep their order.
pub fn key_released(keys_down: &mut Vec<KeyOrButton>, key: KeyOrButton)
    ensures
        final(keys_down)@ == match first_place_of(old(keys_down)@, key) {
            Some(place) => old(keys_down)@.remove(place),
            None => old(keys_down)@,
        },
{
    proof {
        lemma_key_or_button_equality();
    }
    let mut i: usize = 0;
    while i < keys_down.len()
        invariant
            i <= keys_down@.len(),
            keys_down@ == old(keys_down)@,
            vstd::laws_eq::obeys_concrete_eq::<KeyOrButton>(),
            forall|j: int| 0 <= j < i ==> keys_down@[j] != key,
        decreases keys_down@.len() - i,
    {
        let found = keys_down[i] == key;
        proof {
            reveal(vstd::laws_eq::obeys_concrete_eq);
        }
        if found {
            proof {
                lemma_first_place_of(keys_down@, key, i as int);
            }
            keys_down.remove(i);
            return;
        }
        i += 1;
    }
    proof {
        lemma_first_place_of_absent(keys_down@, key);
    }
}

/// The first place of a key is the place before which it does not occur.
pub proof fn lemma_first_place_of(keys: Seq<KeyOrButton>, key: KeyOrButton, place: int)
    requires
        0 <= place < keys.len(),
        keys[place] == key,
        forall|j: int| 0 <= j < place ==> keys[j] != key,
    ensures
        first_place_of(keys, key) == Some(place),
    decreases keys.len(),
{
    if place > 0 {
        lemma_first_place_of(keys.drop_first(), key, place - 1);
    }
}

/// A key that does not occur has no first place.
pub proof fn lemma_first_place_of_absent(keys: Seq<KeyOrButton>, key: KeyOrButton)
    requires
        forall|j: int| 0 <= j < keys.len() ==> keys[j] != key,
    ensures
        first_place_of(keys, key) is None,
    decreases keys.len(),
{
    if keys.len() > 0 {
        lemma_first_place_of_absent(keys.drop_first(), key);
    }
}

} // verus!
