//! Number formatting shared by the serial port, the terminal and the shell.
use vstd::prelude::*;

verus! {

/// ASCII code of the lower-case hexadecimal digit for `n` (`n < 16`).
pub open spec fn hex_digit(n: u64) -> u8 {
    if n < 10 {
        (48 + n) as u8
    } else {
        (87 + n) as u8
    }
}

/// The `k`-th nibble (4-bit group, counted from the least significant end) of `v`.
pub open spec fn nibble(v: u64, k: u64) -> u64 {
    (v >> (4 * k)) & 0xf
}

/// The sixteen lower-case hexadecimal digits of `v`, most significant first.
pub open spec fn hex16(v: u64) -> Seq<u8> {
    Seq::new(16, |i: int| hex_digit(nibble(v, (15 - i) as u64)))
}

/// ASCII code of the decimal digit `d` (`d < 10`).
pub open spec fn dec_digit(d: nat) -> u8 {
    (48 + d) as u8
}

/// The decimal digits of `v` without leading zeros (`"0"` for zero).
pub open spec fn dec_digits(v: nat) -> Seq<u8>
    decreases v,
{
    if v < 10 {
        seq![dec_digit(v)]
    } else {
        dec_digits(v / 10).push(dec_digit(v % 10))
    }
}

/// Ten to the power `k`.
pub open spec fn pow10(k: nat) -> nat
    decreases k,
{
    if k == 0 {
        1
    } else {
        10 * pow10((k - 1) as nat)
    }
}

/// Every character that `dec_digits` produces is an ASCII digit.
pub proof fn lemma_dec_digits_are_digits(v: nat)
    ensures
        forall|i: int| 0 <= i < dec_digits(v).len() ==> 48 <= #[trigger] dec_digits(v)[i] <= 57,
        dec_digits(v).len() >= 1,
    decreases v,
{
    if v >= 10 {
        lemma_dec_digits_are_digits(v / 10);
    }
}

proof fn lemma_nibble_step(v: u64, n: u64, k: u64)
    requires
        k < 16,
        n == v >> (4 * k),
    ensures
        n & 0xf == nibble(v, k),
        k < 15 ==> n >> 4 == v >> (4 * (k + 1)),
        n & 0xf < 16,
{
    assert(n & 0xf < 16) by (bit_vector);
    assert(k < 15 ==> (v >> (4 * k)) >> 4 == v >> (4 * (k + 1))) by (bit_vector)
        requires
            k < 16,
    ;
}

/// The sixteen hexadecimal digits of `v`, most significant first.
pub fn hex16_digits(v: u64) -> (r: Vec<u8>)
    ensures
        r@ == hex16(v),
{
    let mut buf: Vec<u8> = Vec::new();
    let mut j: usize = 0;
    while j < 16
        invariant
            j <= 16,
            buf@.len() == j,
            forall|t: int| 0 <= t < j ==> buf@[t] == 48u8,
        decreases 16 - j,
    {
        buf.push(48u8);
        j = j + 1;
    }
    let mut n: u64 = v;
    let mut i: usize = 16;
    let mut k: u64 = 0;
    assert(v >> 0u64 == v) by (bit_vector);
    while i > 0
        invariant
            i <= 16,
            k == 16 - i,
            buf@.len() == 16,
            k < 16 ==> n == v >> (4 * k),
            forall|t: int| i <= t < 16 ==> buf@[t] == hex16(v)[t],
        decreases i,
    {
        i = i - 1;
        proof {
            lemma_nibble_step(v, n, k);
        }
        let nib: u8 = (n & 0xf) as u8;
        let d: u8 = if nib < 10 {
            48u8 + nib
        } else {
            87u8 + nib
        };
        buf.set(i, d);
        n = n >> 4;
        k = k + 1;
    }
    assert(buf@ =~= hex16(v));
    buf
}

/// The decimal digits of `v`, most significant first, with no leading zeros.
pub fn decimal_digits(v: u64) -> (r: Vec<u8>)
    ensures
        r@ == dec_digits(v as nat),
{
    if v == 0 {
        let mut z: Vec<u8> = Vec::new();
        z.push(48u8);
        assert(z@ =~= dec_digits(0));
        return z;
    }
    let mut buf: Vec<u8> = Vec::new();
    let mut j: usize = 0;
    while j < 20
        invariant
            j <= 20,
            buf@.len() == j,
        decreases 20 - j,
    {
        buf.push(48u8);
        j = j + 1;
    }
    proof {
        reveal_with_fuel(pow10, 21);
        assert(pow10(20) == 100000000000000000000nat);
    }
    let mut n: u64 = v;
    let mut i: usize = 20;
    while n > 0
        invariant
            i <= 20,
            buf@.len() == 20,
            (n as nat) < pow10(i as nat),
            n > 0 ==> dec_digits(v as nat) =~= dec_digits(n as nat) + buf@.subrange(i as int, 20),
            n == 0 ==> dec_digits(v as nat) =~= buf@.subrange(i as int, 20),
        decreases n,
    {
        assert(i > 0) by {
            if i == 0 {
                assert(pow10(0) == 1);
            }
        }
        let ghost old_suffix = buf@.subrange(i as int, 20);
        i = i - 1;
        let d: u8 = (n % 10) as u8;
        buf.set(i, 48u8 + d);
        proof {
            assert(buf@.subrange(i as int, 20) =~= seq![dec_digit((n % 10) as nat)] + old_suffix);
            assert(pow10((i + 1) as nat) == 10 * pow10(i as nat));
        }
        let ghost old_n = n;
        n = n / 10;
        proof {
            if old_n >= 10 {
                assert(dec_digits(old_n as nat) == dec_digits(n as nat).push(dec_digit((old_n % 10) as nat)));
                assert(dec_digits(n as nat).push(dec_digit((old_n % 10) as nat)) + old_suffix
                    =~= dec_digits(n as nat) + (seq![dec_digit((old_n % 10) as nat)] + old_suffix));
            } else {
                assert(dec_digits(old_n as nat) =~= seq![dec_digit(old_n as nat)]);
            }
        }
    }
    let mut out: Vec<u8> = Vec::new();
    let mut t: usize = i;
    while t < 20
        invariant
            i <= t <= 20,
            buf@.len() == 20,
            out@ =~= buf@.subrange(i as int, t as int),
        decreases 20 - t,
    {
        out.push(buf[t]);
        t = t + 1;
    }
    out
}

} // verus!
