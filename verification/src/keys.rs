//! Byte-to-key-name classification: every input byte maps to a display name
//! and a "special" flag. Printable ASCII (32..=126) maps to itself and is the
//! only non-special range; control bytes map to fixed names and bytes above
//! 127 render as an uppercase `0x..` code.

use vstd::prelude::*;

use crate::text::push_char;

verus! {

/// The uppercase hexadecimal digit character for the nibble `n`.
pub open spec fn hex_upper_char(n: nat) -> char
    recommends
        n < 16,
{
    crate::text::hex_digit_upper(n) as char
}

/// The display name of the key that produced the byte `b`.
pub open spec fn key_name_spec(b: u8) -> Seq<char> {
    if b == 0 {
        "NULL"@
    } else if b == 1 {
        "Ctrl+A"@
    } else if b == 2 {
        "Ctrl+B"@
    } else if b == 3 {
        "Ctrl+C"@
    } else if b == 4 {
        "Ctrl+D"@
    } else if b == 5 {
        "Ctrl+E"@
    } else if b == 6 {
        "Ctrl+F"@
    } else if b == 7 {
        "Ctrl+G"@
    } else if b == 8 || b == 127 {
        "Backspace"@
    } else if b == 9 {
        "Tab"@
    } else if b == 10 || b == 13 {
        "Enter"@
    } else if b == 27 {
        "ESC"@
    } else if 32 <= b && b < 127 {
        seq![b as char]
    } else {
        "0x"@.push(hex_upper_char((b / 16) as nat)).push(hex_upper_char((b % 16) as nat))
    }
}

/// Whether the byte `b` is a special (non-printable) key: exactly the bytes
/// outside the printable ASCII range 32..=126.
pub open spec fn key_special_spec(b: u8) -> bool {
    !(32 <= b && b < 127)
}

/// The uppercase hexadecimal digit character for a nibble.
fn hex_upper_char_ex(n: u8) -> (c: char)
    requires
        n < 16,
    ensures
        c == hex_upper_char(n as nat),
{
    if n < 10 {
        (48 + n) as char
    } else {
        (55 + n) as char
    }
}

/// Classifies one input byte: returns its display name and whether it is a
/// special key, exactly as `key_name_spec` and `key_special_spec` state.
pub fn decode_key_byte(b: u8) -> (r: (String, bool))
    ensures
        r.0@ == key_name_spec(b),
        r.1 == key_special_spec(b),
{
    if b == 0 {
        (String::from_str("NULL"), true)
    } else if b == 1 {
        (String::from_str("Ctrl+A"), true)
    } else if b == 2 {
        (String::from_str("Ctrl+B"), true)
    } else if b == 3 {
        (String::from_str("Ctrl+C"), true)
    } else if b == 4 {
        (String::from_str("Ctrl+D"), true)
    } else if b == 5 {
        (String::from_str("Ctrl+E"), true)
    } else if b == 6 {
        (String::from_str("Ctrl+F"), true)
    } else if b == 7 {
        (String::from_str("Ctrl+G"), true)
    } else if b == 8 || b == 127 {
        (String::from_str("Backspace"), true)
    } else if b == 9 {
        (String::from_str("Tab"), true)
    } else if b == 10 || b == 13 {
        (String::from_str("Enter"), true)
    } else if b == 27 {
        (String::from_str("ESC"), true)
    } else if 32 <= b && b < 127 {
        let mut s = String::new();
        push_char(&mut s, b as char);
        proof {
            assert(s@ =~= seq![b as char]);
        }
        (s, false)
    } else {
        let mut s = String::from_str("0x");
        push_char(&mut s, hex_upper_char_ex(b / 16));
        push_char(&mut s, hex_upper_char_ex(b % 16));
        (s, true)
    }
}

} // verus!
