use crate::artifact::{placeholder_views, Placeholder, PlaceholderView};
use crate::link_model::ADDRESS_LEN;
use vstd::prelude::*;

verus! {

/// The value of a hexadecimal digit, given as the byte of its character.
pub open spec fn hex_value(digit: u8) -> Option<u8> {
    if 0x30 <= digit <= 0x39 {
        Some((digit - 0x30) as u8)
    } else if 0x61 <= digit <= 0x66 {
        Some((digit - 0x61 + 10) as u8)
    } else if 0x41 <= digit <= 0x46 {
        Some((digit - 0x41 + 10) as u8)
    } else {
        None
    }
}

/// Whether the byte at place `i` of the code belongs to a placeholder.
pub open spec fn covered(placeholders: Seq<PlaceholderView>, i: int) -> bool {
    exists|k: int|
        0 <= k < placeholders.len() && (#[trigger] placeholders[k]).offset <= i
            < placeholders[k].offset + ADDRESS_LEN
}

/// The byte at place `i` of the code that `text` stands for: zero where a
/// placeholder covers it, else the value of the two digits at `2 * i`; none
/// where those are not two hexadecimal digits.
pub open spec fn decoded_byte(text: Seq<u8>, placeholders: Seq<PlaceholderView>, i: int) -> Option<
    u8,
> {
    if covered(placeholders, i) {
        Some(0u8)
    } else {
        match (hex_value(text[2 * i]), hex_value(text[2 * i + 1])) {
            (Some(high), Some(low)) => Some((high * 16 + low) as u8),
            _ => None,
        }
    }
}

/// `text` is the hexadecimal form of `code`, but for the bytes that
/// placeholders cover, which are zero in `code` whatever `text` holds there.
pub open spec fn decodes_to(text: Seq<u8>, placeholders: Seq<PlaceholderView>, code: Seq<u8>) -> bool {
    &&& text.len() == 2 * code.len()
    &&& forall|i: int|
        0 <= i < code.len() ==> decoded_byte(text, placeholders, i) == Some(#[trigger] code[i])
}

/// `text` is the hexadecimal form of no code: its length is odd, or
/// outside the placeholders something other than a hexadecimal digit stands
/// in it.
pub open spec fn undecodable(text: Seq<u8>, placeholders: Seq<PlaceholderView>) -> bool {
    ||| text.len() % 2 == 1
    ||| exists|i: int| 0 <= i < text.len() / 2 && decoded_byte(text, placeholders, i) is None
}

/// The value of a hexadecimal digit, given as the byte of its character.
pub fn hex_digit(digit: u8) -> (value: Option<u8>)
    ensures
        value == hex_value(digit),
        value matches Some(v) ==> v < 16,
{
    if 0x30 <= digit && digit <= 0x39 {
        Some(digit - 0x30)
    } else if 0x61 <= digit && digit <= 0x66 {
        Some(digit - 0x61 + 10)
    } else if 0x41 <= digit && digit <= 0x46 {
        Some(digit - 0x41 + 10)
    } else {
        None
    }
}

/// Whether the byte at place `i` of the code belongs to a placeholder.
pub fn is_covered(placeholders: &Vec<Placeholder>, i: usize) -> (yes: bool)
    ensures
        yes == covered(placeholder_views(placeholders@), i as int),
{
    let ghost views = placeholder_views(placeholders@);
    let mut k: usize = 0;
    while k < placeholders.len()
        invariant
            k <= placeholders.len(),
            views == placeholder_views(placeholders@),
            forall|j: int|
                0 <= j < k ==> !((#[trigger] views[j]).offset <= i < views[j].offset + ADDRESS_LEN),
        decreases placeholders.len() - k,
    {
        let offset = placeholders[k].offset;
        assert(views[k as int].offset == offset);
        if offset <= i && i - offset < ADDRESS_LEN {
            return true;
        }
        k += 1;
    }
    false
}

/// Reads unlinked code from its hexadecimal form. The bytes that the
/// placeholders cover are read as zero, whatever stands for them in the
/// text. Text of odd length, and text that holds anything but hexadecimal
/// digits outside the placeholders, is no code.
pub fn decode_template(text: &[u8], placeholders: &Vec<Placeholder>) -> (code: Option<Vec<u8>>)
    ensures
        match code {
            Some(code) => decodes_to(text@, placeholder_views(placeholders@), code@),
            None => undecodable(text@, placeholder_views(placeholders@)),
        },
{
    if text.len() % 2 == 1 {
        return None;
    }
    let ghost views = placeholder_views(placeholders@);
    let len = text.len() / 2;
    let mut code: Vec<u8> = Vec::new();
    let mut i: usize = 0;
    while i < len
        invariant
            i <= len,
            text@.len() == 2 * len <= usize::MAX,
            views == placeholder_views(placeholders@),
            code@.len() == i,
            forall|j: int| 0 <= j < i ==> decoded_byte(text@, views, j) == Some(#[trigger] code@[j]),
        decreases len - i,
    {
        let byte = if is_covered(placeholders, i) {
            0u8
        } else {
            match (hex_digit(text[2 * i]), hex_digit(text[2 * i + 1])) {
                (Some(high), Some(low)) => high * 16 + low,
                _ => {
                    assert(decoded_byte(text@, views, i as int) is None);
                    return None;
                },
            }
        };
        code.push(byte);
        i += 1;
    }
    Some(code)
}

} // verus!
