//! Terminals.

use vstd::prelude::*;

use crate::bytes;
use crate::text;
use crate::text::{copy_text, push_decimal};

verus! {

/// The path of the slave end of a pty, by its number.
pub open spec fn slave_name(number: u32) -> Seq<char> {
    "/dev/pts/"@ + text::decimal(number as nat)
}

/// The path of the slave end of a pty, by its number.
pub fn slave_path(number: u32) -> (r: String)
    ensures
        r@ == slave_name(number),
{
    let mut r: String = copy_text("/dev/pts/");
    push_decimal(&mut r, number as u64);
    r
}

/// The path of a pty's slave can be handed to the kernel, and is short.
pub proof fn slave_path_is_plain(number: u32)
    ensures
        !slave_name(number).contains('\0'),
        bytes::c_bytes(slave_name(number)).len() <= 20,
{
    let digits = text::decimal(number as nat);
    let s = slave_name(number);
    reveal_strlit("/dev/pts/");
    text::lemma_decimal_is_number(number as nat);
    reveal_with_fuel(text::ten_to, 11);
    text::decimal_is_short(number as nat, 10);
    assert forall|i: int| 0 <= i < s.len() implies '\0' < #[trigger] s[i] <= '\u{7f}' by {
        if i >= 9 {
            assert(text::is_digit(digits[i - 9]));
        }
    }
    assert(vstd::utf8::is_ascii_chars(s));
    bytes::ascii_takes_a_byte_each(s);
}

/// The slave of a pty is in the directory of the pty slaves, by its number
/// in decimal.
pub proof fn slave_is_named_by_its_number(number: u32)
    ensures
        slave_name(number).take(9) == "/dev/pts/"@,
        text::unsigned_value(slave_name(number).skip(9), u32::MAX as nat) == Some(number as nat),
        slave_name(number)[9] == '0' ==> number == 0,
{
    reveal_strlit("/dev/pts/");
    let digits = text::decimal(number as nat);
    text::decimal_reads_back(number as nat);
    text::decimal_has_no_leading_zero(number as nat);
    assert(slave_name(number).take(9) =~= "/dev/pts/"@);
    assert(slave_name(number).skip(9) =~= digits);
}

} // verus!
