//! Decimal and hexadecimal text of numbers and hashes.

use vstd::prelude::*;

verus! {

/// The digit character for `d` in `0..16`: `0`-`9`, then `a`-`f`.
pub open spec fn digit_char(d: int) -> char {
    if d < 10 {
        (48 + d) as char
    } else {
        (87 + d) as char
    }
}

/// The decimal text of `n`, most significant digit first, without leading zeros.
pub open spec fn decimal(n: nat) -> Seq<char>
    decreases n,
{
    if n < 10 {
        seq![digit_char(n as int)]
    } else {
        decimal(n / 10).push(digit_char((n % 10) as int))
    }
}

/// The lowercase hexadecimal text of `bytes`, two digits per byte, high nibble first.
pub open spec fn hex_lower(bytes: Seq<u8>) -> Seq<char>
    decreases bytes.len(),
{
    if bytes.len() == 0 {
        Seq::empty()
    } else {
        hex_lower(bytes.drop_last()) + seq![
            digit_char((bytes.last() / 16) as int),
            digit_char((bytes.last() % 16) as int),
        ]
    }
}

/// `c` is one of the decimal digits `0`-`9`.
pub open spec fn is_decimal_digit(c: char) -> bool {
    48 <= c as u32 <= 57
}

/// The number that the decimal digits `s` stand for, most significant first.
pub open spec fn decimal_value(s: Seq<char>) -> int
    decreases s.len(),
{
    if s.len() == 0 {
        0
    } else {
        decimal_value(s.drop_last()) * 10 + (s.last() as u32 - 48)
    }
}

/// `c` is one of the lowercase hexadecimal digits `0`-`9`, `a`-`f`.
pub open spec fn is_hex_digit(c: char) -> bool {
    (48 <= c as u32 <= 57) || (97 <= c as u32 <= 102)
}

/// The value of the lowercase hexadecimal digit `c`.
pub open spec fn hex_digit_value(c: char) -> int {
    if c as u32 <= 57 {
        c as u32 - 48
    } else {
        c as u32 - 87
    }
}

/// The decimal text of a number reads back as that number: it is made of
/// decimal digits only, has no leading zero (but for `0` itself, written
/// `0`), and ends in the digit of `n % 10`.
pub proof fn lemma_decimal_reads_back(n: nat)
    ensures
        decimal(n).len() >= 1,
        forall|i: int| 0 <= i < decimal(n).len() ==> is_decimal_digit(#[trigger] decimal(n)[i]),
        decimal_value(decimal(n)) == n,
        n == 0 ==> decimal(n) == seq!['0'],
        n > 0 ==> decimal(n)[0] != '0',
        decimal(n).last() as u32 == 48 + n % 10,
    decreases n,
{
    if n >= 10 {
        lemma_decimal_reads_back(n / 10);
        let d = decimal(n);
        assert(d.drop_last() == decimal(n / 10));
        assert(decimal_value(d) == decimal_value(decimal(n / 10)) * 10 + (d.last() as u32 - 48));
        assert((n / 10) * 10 + n % 10 == n);
    } else {
        assert(decimal(n).drop_last() =~= Seq::<char>::empty());
        assert(decimal_value(Seq::<char>::empty()) == 0);
    }
}

/// Two numbers have the same decimal text only if they are equal.
pub proof fn lemma_decimal_injective(n: nat, m: nat)
    requires
        decimal(n) == decimal(m),
    ensures
        n == m,
{
    lemma_decimal_reads_back(n);
    lemma_decimal_reads_back(m);
}

/// The hexadecimal text of `bytes` has two lowercase hexadecimal digits per
/// byte, and the two digits of each byte read back as that byte, high nibble
/// first.
pub proof fn lemma_hex_reads_back(bytes: Seq<u8>)
    ensures
        hex_lower(bytes).len() == 2 * bytes.len(),
        forall|i: int| 0 <= i < hex_lower(bytes).len() ==> is_hex_digit(#[trigger] hex_lower(bytes)[i]),
        forall|i: int| 0 <= i < bytes.len() ==> hex_digit_value(hex_lower(bytes)[2 * i]) * 16
            + hex_digit_value(hex_lower(bytes)[2 * i + 1]) == #[trigger] bytes[i],
    decreases bytes.len(),
{
    if bytes.len() > 0 {
        let rest = bytes.drop_last();
        lemma_hex_reads_back(rest);
        let h = hex_lower(bytes);
        assert forall|i: int| 0 <= i < bytes.len() implies hex_digit_value(h[2 * i]) * 16
            + hex_digit_value(h[2 * i + 1]) == #[trigger] bytes[i] by {
            if i < rest.len() {
                assert(bytes[i] == rest[i]);
                assert(h[2 * i] == hex_lower(rest)[2 * i]);
                assert(h[2 * i + 1] == hex_lower(rest)[2 * i + 1]);
            }
        }
    }
}

/// The one-character string holding the digit `d`.
fn digit_str(d: usize) -> (s: &'static str)
    requires
        d < 16,
    ensures
        s@ == seq![digit_char(d as int)],
{
    let digits = "0123456789abcdef";
    proof {
        reveal_strlit("0123456789abcdef");
    }
    digits.substring_char(d, d + 1)
}

/// Appends the decimal text of `n` to `out`.
pub fn push_decimal(out: &mut String, n: u64)
    ensures
        final(out)@ == old(out)@ + decimal(n as nat),
        final(out)@.take(old(out)@.len() as int) == old(out)@,
        decimal_value(final(out)@.skip(old(out)@.len() as int)) == n,
    decreases n,
{
    proof {
        lemma_decimal_reads_back(n as nat);
        assert((old(out)@ + decimal(n as nat)).take(old(out)@.len() as int) =~= old(out)@);
        assert((old(out)@ + decimal(n as nat)).skip(old(out)@.len() as int) =~= decimal(n as nat));
    }
    if n >= 10 {
        push_decimal(out, n / 10);
    }
    let d = (n % 10) as usize;
    out.append(digit_str(d));
}

/// The decimal text of `n`, as the `{}` format of an unsigned integer writes it.
pub fn decimal_string(n: u64) -> (s: String)
    ensures
        s@ == decimal(n as nat),
        s@.len() >= 1,
        forall|i: int| 0 <= i < s@.len() ==> is_decimal_digit(#[trigger] s@[i]),
        n > 0 ==> s@[0] != '0',
        decimal_value(s@) == n,
{
    let mut s = String::new();
    push_decimal(&mut s, n);
    proof {
        lemma_decimal_reads_back(n as nat);
    }
    s
}

/// Appends `0x` and the lowercase hexadecimal text of `bytes` to `out`.
pub fn push_hex(out: &mut String, bytes: &[u8; 32])
    ensures
        final(out)@ == old(out)@ + seq!['0', 'x'] + hex_lower(bytes@),
{
    let ghost start = out@;
    let prefix = "0x";
    proof {
        reveal_strlit("0x");
    }
    out.append(prefix);
    let mut i: usize = 0;
    while i < 32
        invariant
            i <= 32,
            bytes@.len() == 32,
            out@ == start + seq!['0', 'x'] + hex_lower(bytes@.take(i as int)),
        decreases 32 - i,
    {
        let b = bytes[i];
        out.append(digit_str((b / 16) as usize));
        out.append(digit_str((b % 16) as usize));
        assert(bytes@.take(i + 1).drop_last() == bytes@.take(i as int));
        i = i + 1;
    }
    assert(bytes@.take(32) == bytes@);
}

} // verus!
