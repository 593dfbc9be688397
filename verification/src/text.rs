//! Text in fixed-width byte fields.
//!
//! A text field holds the UTF-8 bytes of its value and then zeros up to the
//! field's width. Reading the text back drops the zeros at the end and
//! decodes what is left, which fails where the bytes are no UTF-8.

use vstd::prelude::*;
use vstd::string::StringSliceAdditionalSpecFns;
use vstd::utf8::{
    char_u32_cast,
    encode_scalar,
    encode_utf8,
    is_leading_byte_width_1,
    partial_valid_utf8,
    partial_valid_utf8_extend_ascii_block,
    valid_utf8,
};

verus! {

/// `core::str::Utf8Error`, which says no more here than that bytes were no
/// UTF-8.
#[verifier::external_type_specification]
#[verifier::external_body]
pub struct ExUtf8Error(core::str::Utf8Error);

/// `core::str::from_utf8` succeeds on the byte strings that are well-formed
/// UTF-8 and on no others, and the string slice it then gives has exactly
/// the bytes it was given.
pub assume_specification[ core::str::from_utf8 ](v: &[u8]) -> (r: Result<
    &str,
    core::str::Utf8Error,
>)
    ensures
        r is Ok <==> valid_utf8(v@),
        r is Ok ==> r->Ok_0.spec_bytes() == v@,
;

/// The field of `width` bytes that holds `value`: the bytes of `value` as far
/// as they fit, then zeros.
pub open spec fn column(value: Seq<u8>, width: nat) -> Seq<u8> {
    Seq::new(width, |i: int| if i < value.len() { value[i] } else { 0u8 })
}

/// `field` without the zeros at its end.
pub open spec fn trimmed(field: Seq<u8>) -> Seq<u8>
    decreases field.len(),
{
    if field.len() > 0 && field.last() == 0u8 {
        trimmed(field.drop_last())
    } else {
        field
    }
}

/// The digits of `n` in base ten, as ASCII bytes, without leading zeros.
pub open spec fn decimal(n: nat) -> Seq<u8>
    decreases n,
{
    if n < 10 {
        seq![(n + 48) as u8]
    } else {
        decimal(n / 10).push((n % 10 + 48) as u8)
    }
}

/// Every byte is below 128.
pub open spec fn is_ascii_bytes(bytes: Seq<u8>) -> bool {
    forall|i: int| 0 <= i < bytes.len() ==> #[trigger] bytes[i] < 128
}

/// Trimming cuts a field after its last byte that is not zero.
pub proof fn lemma_trimmed_prefix(field: Seq<u8>, n: int)
    requires
        0 <= n <= field.len(),
        n > 0 ==> field[n - 1] != 0,
        forall|i: int| n <= i < field.len() ==> field[i] == 0,
    ensures
        trimmed(field) == field.subrange(0, n),
    decreases field.len(),
{
    if n == field.len() {
        assert(field.subrange(0, n) =~= field);
    } else {
        let shorter = field.drop_last();
        lemma_trimmed_prefix(shorter, n);
        assert(shorter.subrange(0, n) =~= field.subrange(0, n));
    }
}

/// The zeros that pad a value to the width of its field go when the field is
/// trimmed, so a value that fits and does not itself end in a zero byte comes
/// back as it was.
pub proof fn lemma_trimmed_column(value: Seq<u8>, width: nat)
    requires
        value.len() <= width,
    ensures
        trimmed(column(value, width)) == trimmed(value),
        value.len() == 0 || value.last() != 0 ==> trimmed(column(value, width)) == value,
    decreases width - value.len(),
{
    let field = column(value, width);
    if value.len() == width {
        assert(field =~= value);
    } else {
        assert(field.last() == 0);
        assert(field.drop_last() =~= column(value, (width - 1) as nat));
        lemma_trimmed_column(value, (width - 1) as nat);
    }
}

/// The encoding of a character ends in a zero byte only where the character
/// is the one with the number zero.
proof fn lemma_last_byte_of_scalar(scalar: u32)
    ensures
        encode_scalar(scalar).len() >= 1,
        encode_scalar(scalar).last() == 0u8 <==> scalar == 0,
{
    assert(scalar <= 0x7F ==> ((scalar & 0x7F) as u8 == 0u8 <==> scalar == 0)) by (bit_vector);
    assert(0x80u8 | (scalar & 0x3F) as u8 != 0u8) by (bit_vector);
}

/// A text ends in a zero byte only where its last character is the one with
/// the number zero.
pub proof fn lemma_last_byte_of_text(chars: Seq<char>)
    requires
        chars.len() > 0,
    ensures
        encode_utf8(chars).len() > 0,
        encode_utf8(chars).last() == 0u8 <==> chars.last() == '\0',
    decreases chars.len(),
{
    let rest = chars.drop_first();
    lemma_last_byte_of_scalar(chars[0] as u32);
    if rest.len() == 0 {
        assert(encode_utf8(rest) =~= Seq::<u8>::empty());
        assert(encode_utf8(chars) =~= encode_scalar(chars[0] as u32));
        assert(chars[0] as u32 == 0 <==> chars[0] == '\0') by {
            char_u32_cast(chars[0], chars[0] as u32);
            char_u32_cast('\0', 0u32);
        }
    } else {
        lemma_last_byte_of_text(rest);
        assert(chars.last() == rest.last());
    }
}

/// ASCII bytes are well-formed UTF-8.
pub proof fn lemma_ascii_is_utf8(bytes: Seq<u8>)
    requires
        is_ascii_bytes(bytes),
    ensures
        valid_utf8(bytes),
{
    assert(bytes.subrange(0, 0) =~= Seq::<u8>::empty());
    assert(partial_valid_utf8(bytes, 0));
    assert forall|i: int| 0 <= i < bytes.len() implies #[trigger] is_leading_byte_width_1(
        bytes[i],
    ) by {}
    partial_valid_utf8_extend_ascii_block(bytes, 0, bytes.len() as int);
    assert(bytes.subrange(0, bytes.len() as int) =~= bytes);
}

/// A number in base ten has at least one digit, and all are ASCII digits.
pub proof fn lemma_decimal_digits(n: nat)
    ensures
        decimal(n).len() >= 1,
        forall|i: int| 0 <= i < decimal(n).len() ==> 48 <= #[trigger] decimal(n)[i] <= 57,
    decreases n,
{
    if n >= 10 {
        lemma_decimal_digits(n / 10);
    }
}

/// How many bytes of `field` are left when the zeros at its end are dropped.
pub(crate) fn trimmed_len(field: &[u8]) -> (n: usize)
    ensures
        n <= field@.len(),
        trimmed(field@) == field@.subrange(0, n as int),
{
    let mut n: usize = field.len();
    while n > 0 && field[n - 1] == 0
        invariant
            n <= field@.len(),
            forall|i: int| n <= i < field@.len() ==> field@[i] == 0,
        decreases n,
    {
        n -= 1;
    }
    proof {
        lemma_trimmed_prefix(field@, n as int);
    }
    n
}

/// Appends the base-ten digits of `n` to `out`.
pub(crate) fn push_decimal(out: &mut Vec<u8>, n: u32)
    ensures
        final(out)@ == old(out)@ + decimal(n as nat),
    decreases n,
{
    if n >= 10 {
        push_decimal(out, n / 10);
    }
    out.push((n % 10) as u8 + 48);
}

} // verus!
