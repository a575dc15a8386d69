//! Decimal and lowercase-hexadecimal renderings of natural numbers as ASCII
//! bytes, with the facts the rest of the crate needs: which byte values can
//! occur, and that both renderings are injective.

use vstd::prelude::*;

verus! {

/// ASCII byte of a single decimal digit.
pub open spec fn dec_digit(d: nat) -> u8
    recommends
        d < 10,
{
    (48 + d) as u8
}

/// ASCII byte of a single lowercase hexadecimal digit.
pub open spec fn hex_digit(d: nat) -> u8
    recommends
        d < 16,
{
    if d < 10 {
        (48 + d) as u8
    } else {
        (87 + d) as u8
    }
}

/// Decimal rendering of `n`, most significant digit first, no leading zeros
/// (a single `'0'` for zero).
pub open spec fn spec_dec(n: nat) -> Seq<u8>
    decreases n,
{
    if n < 10 {
        seq![dec_digit(n)]
    } else {
        spec_dec(n / 10).push(dec_digit(n % 10))
    }
}

/// Lowercase hexadecimal rendering of `n`, most significant digit first, no
/// leading zeros (a single `'0'` for zero).
pub open spec fn spec_hex(n: nat) -> Seq<u8>
    decreases n,
{
    if n < 16 {
        seq![hex_digit(n)]
    } else {
        spec_hex(n / 16).push(hex_digit(n % 16))
    }
}

/// Every byte of a decimal rendering is an ASCII digit.
pub proof fn lemma_dec_bytes_range(n: nat)
    ensures
        spec_dec(n).len() >= 1,
        forall|i: int| 0 <= i < spec_dec(n).len() ==> 48 <= #[trigger] spec_dec(n)[i] <= 57,
    decreases n,
{
    if n >= 10 {
        lemma_dec_bytes_range(n / 10);
    }
}

/// Every byte of a hexadecimal rendering is an ASCII digit or one of `'a'`
/// through `'f'`.
pub proof fn lemma_hex_bytes_range(n: nat)
    ensures
        spec_hex(n).len() >= 1,
        forall|i: int|
            0 <= i < spec_hex(n).len() ==> (48 <= #[trigger] spec_hex(n)[i] <= 57 || 97
                <= spec_hex(n)[i] <= 102),
    decreases n,
{
    if n >= 16 {
        lemma_hex_bytes_range(n / 16);
    }
}

/// Distinct numbers have distinct decimal renderings.
pub proof fn lemma_dec_injective(a: nat, b: nat)
    requires
        spec_dec(a) == spec_dec(b),
    ensures
        a == b,
    decreases a + b,
{
    lemma_dec_bytes_range(a);
    lemma_dec_bytes_range(b);
    if a < 10 && b < 10 {
        assert(spec_dec(a)[0] == spec_dec(b)[0]);
    } else if a < 10 {
        lemma_dec_bytes_range(b / 10);
        assert(spec_dec(b).len() >= 2);
    } else if b < 10 {
        lemma_dec_bytes_range(a / 10);
        assert(spec_dec(a).len() >= 2);
    } else {
        let sa = spec_dec(a / 10);
        let sb = spec_dec(b / 10);
        assert(spec_dec(a) == sa.push(dec_digit(a % 10)));
        assert(spec_dec(b) == sb.push(dec_digit(b % 10)));
        assert(sa.push(dec_digit(a % 10)).drop_last() =~= sa);
        assert(sb.push(dec_digit(b % 10)).drop_last() =~= sb);
        assert(sa == sb);
        assert(sa.push(dec_digit(a % 10)).last() == dec_digit(a % 10));
        assert(sb.push(dec_digit(b % 10)).last() == dec_digit(b % 10));
        assert(dec_digit(a % 10) == dec_digit(b % 10));
        assert(a % 10 == b % 10);
        lemma_dec_injective(a / 10, b / 10);
        assert(a == 10 * (a / 10) + a % 10);
        assert(b == 10 * (b / 10) + b % 10);
    }
}

/// Distinct numbers have distinct hexadecimal renderings.
pub proof fn lemma_hex_injective(a: nat, b: nat)
    requires
        spec_hex(a) == spec_hex(b),
    ensures
        a == b,
    decreases a + b,
{
    lemma_hex_bytes_range(a);
    lemma_hex_bytes_range(b);
    if a < 16 && b < 16 {
        assert(spec_hex(a)[0] == spec_hex(b)[0]);
    } else if a < 16 {
        lemma_hex_bytes_range(b / 16);
        assert(spec_hex(b).len() >= 2);
    } else if b < 16 {
        lemma_hex_bytes_range(a / 16);
        assert(spec_hex(a).len() >= 2);
    } else {
        let sa = spec_hex(a / 16);
        let sb = spec_hex(b / 16);
        assert(spec_hex(a) == sa.push(hex_digit(a % 16)));
        assert(spec_hex(b) == sb.push(hex_digit(b % 16)));
        assert(sa.push(hex_digit(a % 16)).drop_last() =~= sa);
        assert(sb.push(hex_digit(b % 16)).drop_last() =~= sb);
        assert(sa == sb);
        assert(sa.push(hex_digit(a % 16)).last() == hex_digit(a % 16));
        assert(sb.push(hex_digit(b % 16)).last() == hex_digit(b % 16));
        assert(hex_digit(a % 16) == hex_digit(b % 16));
        assert(a % 16 == b % 16);
        lemma_hex_injective(a / 16, b / 16);
        assert(a == 16 * (a / 16) + a % 16);
        assert(b == 16 * (b / 16) + b % 16);
    }
}

/// Decimal rendering of a machine integer.
pub fn dec_bytes(n: usize) -> (r: Vec<u8>)
    ensures
        r@ == spec_dec(n as nat),
    decreases n,
{
    if n < 10 {
        let mut v: Vec<u8> = Vec::new();
        v.push(48 + n as u8);
        assert(v@ =~= spec_dec(n as nat));
        v
    } else {
        let mut v = dec_bytes(n / 10);
        v.push(48 + (n % 10) as u8);
        assert(v@ =~= spec_dec(n as nat));
        v
    }
}

/// Lowercase hexadecimal rendering of a machine integer.
pub fn hex_bytes(n: u64) -> (r: Vec<u8>)
    ensures
        r@ == spec_hex(n as nat),
    decreases n,
{
    if n < 16 {
        let d = n as u8;
        let byte: u8 = if d < 10 {
            48 + d
        } else {
            87 + d
        };
        let mut v: Vec<u8> = Vec::new();
        v.push(byte);
        assert(v@ =~= spec_hex(n as nat));
        v
    } else {
        let mut v = hex_bytes(n / 16);
        let d = (n % 16) as u8;
        let byte: u8 = if d < 10 {
            48 + d
        } else {
            87 + d
        };
        v.push(byte);
        assert(v@ =~= spec_hex(n as nat));
        v
    }
}

} // verus!
