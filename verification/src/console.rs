//! What goes out on the debug console, as the bytes in their order. The
//! caller puts them into the transmit register of the serial device.
use vstd::prelude::*;
use vstd::string::StringSliceAdditionalSpecFns;

verus! {

/// The digit of a value below sixteen: `0` to `9`, and `a` to `f`.
pub open spec fn hex_digit(n: int) -> u8 {
    if n < 10 {
        (0x30 + n) as u8
    } else {
        (0x61 + n - 10) as u8
    }
}

/// The hexadecimal digits of a number, the most significant first; none for
/// zero.
pub open spec fn hex_digits(v: nat) -> Seq<u8>
    decreases v,
{
    if v == 0 {
        Seq::empty()
    } else {
        hex_digits(v / 16).push(hex_digit((v % 16) as int))
    }
}

/// What `puth` puts out for `v`: `0x`, and the digits of `v` without leading
/// zeroes, or one `0` if `v` is zero.
pub open spec fn hex_text(v: u64) -> Seq<u8> {
    seq![0x30u8, 0x78u8] + if v == 0 {
        seq![0x30u8]
    } else {
        hex_digits(v as nat)
    }
}

/// The part of `v` from digit `i` up; zero from digit 16 on.
pub open spec fn upper(v: u64, i: int) -> u64 {
    if i >= 16 {
        0
    } else {
        v >> ((4 * i) as u64)
    }
}

/// The bytes of the string, in order.
pub fn puts(s: &str) -> (out: Vec<u8>)
    ensures
        out@ == s.spec_bytes(),
{
    let bytes = s.as_bytes();
    let mut out: Vec<u8> = Vec::new();
    let mut i: usize = 0;
    while i < bytes.len()
        invariant
            i <= bytes@.len(),
            out@ == bytes@.take(i as int),
        decreases bytes@.len() - i,
    {
        out.push(bytes[i]);
        i = i + 1;
    }
    out
}

/// The number in hexadecimal: `0x` and its digits, without leading zeroes.
pub fn puth(v: u64) -> (out: Vec<u8>)
    ensures
        out@ == hex_text(v),
{
    let mut out: Vec<u8> = Vec::new();
    out.push(0x30);
    out.push(0x78);
    if v == 0 {
        out.push(0x30);
    } else {
        let mut i: u64 = 16;
        while i > 0
            invariant
                i <= 16,
                out@ == seq![0x30u8, 0x78u8] + hex_digits(upper(v, i as int) as nat),
            decreases i,
        {
            i = i - 1;
            let rest = v >> (i * 4);
            proof {
                lemma_upper_step(v, i);
            }
            if rest > 0 {
                let n = (rest & 0xF) as u8;
                if n < 10 {
                    out.push(0x30 + n);
                } else {
                    out.push(0x61 + n - 10);
                }
            }
        }
        assert(upper(v, 0) == v) by (bit_vector);
    }
    out
}

/// Taking one more digit in: the part from digit `i + 1` up is the part from
/// digit `i` up without its last digit, and that digit is its low four bits.
proof fn lemma_upper_step(v: u64, i: u64)
    requires
        i < 16,
    ensures
        upper(v, i as int) == v >> (i * 4) as u64,
        upper(v, i + 1) == upper(v, i as int) / 16,
        upper(v, i as int) & 0xF == upper(v, i as int) % 16,
{
    let rest = v >> (i * 4) as u64;
    assert(rest & 0xF == rest % 16) by (bit_vector);
    if i == 15 {
        assert((v >> 60) / 16 == 0) by (bit_vector);
    } else {
        let next = ((i + 1) * 4) as u64;
        let here = (i * 4) as u64;
        assert(v >> next == (v >> here) / 16) by (bit_vector)
            requires
                next == here + 4,
                here < 60,
        ;
    }
}

} // verus!
