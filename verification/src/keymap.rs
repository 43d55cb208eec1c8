use vstd::prelude::*;

verus! {

// The conventional CHIP-8 keypad layout on the left of a QWERTY keyboard:
//   1 2 3 4  ->  1 2 3 C
//   Q W E R  ->  4 5 6 D
//   A S D F  ->  7 8 9 E
//   Z X C V  ->  A 0 B F

/// The keypad index a typed character stands for, if any.
pub open spec fn key_of_char(ch: char) -> Option<u8> {
    match ch {
        '1' => Some(0x1),
        '2' => Some(0x2),
        '3' => Some(0x3),
        '4' => Some(0xC),
        'q' => Some(0x4),
        'w' => Some(0x5),
        'e' => Some(0x6),
        'r' => Some(0xD),
        'a' => Some(0x7),
        's' => Some(0x8),
        'd' => Some(0x9),
        'f' => Some(0xE),
        'z' => Some(0xA),
        'x' => Some(0x0),
        'c' => Some(0xB),
        'v' => Some(0xF),
        _ => None,
    }
}

/// Maps a typed character to its keypad index; every mapped index is a
/// valid key.
pub fn key_from_char(ch: char) -> (r: Option<u8>)
    ensures
        r == key_of_char(ch),
        r matches Some(k) ==> k < 16,
{
    match ch {
        '1' => Some(0x1),
        '2' => Some(0x2),
        '3' => Some(0x3),
        '4' => Some(0xC),
        'q' => Some(0x4),
        'w' => Some(0x5),
        'e' => Some(0x6),
        'r' => Some(0xD),
        'a' => Some(0x7),
        's' => Some(0x8),
        'd' => Some(0x9),
        'f' => Some(0xE),
        'z' => Some(0xA),
        'x' => Some(0x0),
        'c' => Some(0xB),
        'v' => Some(0xF),
        _ => None,
    }
}

} // verus!
