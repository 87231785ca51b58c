//! Percent-encoding of launch arguments.
//!
//! Encoding is byte-wise: unreserved bytes pass through, the space byte
//! becomes `%20`, and every other byte becomes `%` followed by its two-digit
//! uppercase hexadecimal value.  Multi-byte characters are therefore encoded
//! one constituent byte at a time.

use vstd::prelude::*;

use crate::text::push_char;
use vstd::string::StrSliceExecFns;
use vstd::string::StringSliceAdditionalSpecFns;

verus! {

pub const BYTE_UPPER_A: u8 = 65;

pub const BYTE_UPPER_Z: u8 = 90;

pub const BYTE_LOWER_A: u8 = 97;

pub const BYTE_LOWER_Z: u8 = 122;

pub const BYTE_ZERO: u8 = 48;

pub const BYTE_NINE: u8 = 57;

pub const BYTE_HYPHEN: u8 = 45;

pub const BYTE_DOT: u8 = 46;

pub const BYTE_UNDERSCORE: u8 = 95;

pub const BYTE_TILDE: u8 = 126;

pub const BYTE_SPACE: u8 = 32;

/// Bytes that pass through the encoder unchanged:
/// letters, digits, `-`, `.`, `_` and `~`.
pub open spec fn is_unreserved_byte(b: u8) -> bool {
    (BYTE_UPPER_A <= b && b <= BYTE_UPPER_Z) || (BYTE_LOWER_A <= b && b <= BYTE_LOWER_Z) || (
    BYTE_ZERO <= b && b <= BYTE_NINE) || b == BYTE_HYPHEN || b == BYTE_DOT || b == BYTE_UNDERSCORE
        || b == BYTE_TILDE
}

/// The uppercase hexadecimal digit for a value below sixteen.
pub open spec fn hex_digit_char(n: u8) -> char
    recommends
        n < 16,
{
    if n < 10 {
        (((BYTE_ZERO + n) as u8) as char)
    } else {
        (((BYTE_UPPER_A + (n - 10)) as u8) as char)
    }
}

/// The encoding of one input byte.
pub open spec fn encoded_byte(b: u8) -> Seq<char> {
    if is_unreserved_byte(b) {
        seq![b as char]
    } else if b == BYTE_SPACE {
        seq!['%', '2', '0']
    } else {
        seq!['%', hex_digit_char((b / 16) as u8), hex_digit_char((b % 16) as u8)]
    }
}

/// The encoding of a whole byte sequence, byte by byte, left to right.
pub open spec fn percent_encoded(bytes: Seq<u8>) -> Seq<char>
    decreases bytes.len(),
{
    if bytes.len() == 0 {
        Seq::empty()
    } else {
        percent_encoded(bytes.drop_last()) + encoded_byte(bytes.last())
    }
}

/// An uppercase hexadecimal digit: `0` to `9` or `A` to `F`.
pub open spec fn is_upper_hex_digit(c: char) -> bool {
    let u = c as u32;
    (48 <= u && u <= 57) || (65 <= u && u <= 70)
}

/// Every byte outside the unreserved set that is not the space byte is
/// encoded as `%` followed by its two-digit uppercase hexadecimal value.
pub proof fn lemma_percent_encodes_other_bytes(b: u8)
    requires
        !is_unreserved_byte(b),
        b != BYTE_SPACE,
    ensures
        percent_encoded(seq![b]) == seq![
            '%',
            hex_digit_char((b / 16) as u8),
            hex_digit_char((b % 16) as u8),
        ],
        is_upper_hex_digit(hex_digit_char((b / 16) as u8)),
        is_upper_hex_digit(hex_digit_char((b % 16) as u8)),
{
    let one = seq![b];
    assert(one.drop_last() =~= Seq::<u8>::empty());
    assert(one.last() == b);
    assert(percent_encoded(Seq::<u8>::empty()) =~= Seq::<char>::empty());
    assert(percent_encoded(one) =~= Seq::<char>::empty() + encoded_byte(b));
    assert(Seq::<char>::empty() + encoded_byte(b) =~= encoded_byte(b));
}

/// The uppercase hexadecimal digit for a value below sixteen.
fn hex_digit(n: u8) -> (c: char)
    requires
        n < 16,
    ensures
        c == hex_digit_char(n),
{
    if n < 10 {
        (BYTE_ZERO + n) as char
    } else {
        (BYTE_UPPER_A + (n - 10)) as char
    }
}

/// Percent-encodes the bytes of `input` for use as a URL path segment.
pub fn percent_encode(input: &str) -> (r: String)
    ensures
        r@ == percent_encoded(input.spec_bytes()),
{
    let bytes = input.as_bytes_vec();
    let mut out = String::new();
    let mut i: usize = 0;
    while i < bytes.len()
        invariant
            i <= bytes@.len(),
            bytes@ == input.spec_bytes(),
            out@ == percent_encoded(bytes@.take(i as int)),
        decreases bytes@.len() - i,
    {
        let b = bytes[i];
        if (BYTE_UPPER_A <= b && b <= BYTE_UPPER_Z) || (BYTE_LOWER_A <= b && b <= BYTE_LOWER_Z) || (
        BYTE_ZERO <= b && b <= BYTE_NINE) || b == BYTE_HYPHEN || b == BYTE_DOT || b
            == BYTE_UNDERSCORE || b == BYTE_TILDE {
            push_char(&mut out, b as char);
        } else if b == BYTE_SPACE {
            push_char(&mut out, '%');
            push_char(&mut out, '2');
            push_char(&mut out, '0');
        } else {
            push_char(&mut out, '%');
            push_char(&mut out, hex_digit(b / 16));
            push_char(&mut out, hex_digit(b % 16));
        }
        proof {
            let pre = bytes@.take(i as int);
            let post = bytes@.take(i + 1);
            assert(post.drop_last() =~= pre);
            assert(post.last() == b);
            assert(out@ =~= percent_encoded(pre) + encoded_byte(b));
        }
        i += 1;
    }
    proof {
        assert(bytes@.take(bytes@.len() as int) =~= bytes@);
    }
    out
}

} // verus!
