//! The checksum that closes a serialized Redis value: CRC-64 with the
//! Jones polynomial, bits reflected, starting from zero.

use vstd::prelude::*;

verus! {

/// The Jones polynomial, bits reflected.
pub const POLY: u64 = 0x95ac9329ac4bc9b5;

/// One step of the shift register: the lowest bit leaves, and where it
/// was set the polynomial is added.
pub open spec fn shift(c: u64) -> u64 {
    if c & 1 == 1 {
        (c >> 1) ^ POLY
    } else {
        c >> 1
    }
}

/// `rounds` steps of the shift register.
pub open spec fn shifts(c: u64, rounds: nat) -> u64
    decreases rounds,
{
    if rounds == 0 {
        c
    } else {
        shift(shifts(c, (rounds - 1) as nat))
    }
}

/// The checksum after the byte `b`, from the checksum `crc` before it.
pub open spec fn crc64_byte(crc: u64, b: u8) -> u64 {
    shifts(crc ^ (b as u64), 8)
}

/// The checksum after the bytes of `data`, from the checksum `crc` before
/// them.
pub open spec fn crc64_spec(crc: u64, data: Seq<u8>) -> u64
    decreases data.len(),
{
    if data.len() == 0 {
        crc
    } else {
        crc64_byte(crc64_spec(crc, data.drop_last()), data.last())
    }
}

/// The checksum after the bytes of `data`, from the checksum `crc` before
/// them.
pub fn crc64(crc: u64, data: &[u8]) -> (sum: u64)
    ensures
        sum == crc64_spec(crc, data@),
{
    let mut sum: u64 = crc;
    let mut i: usize = 0;
    while i < data.len()
        invariant
            i <= data.len(),
            sum == crc64_spec(crc, data@.take(i as int)),
        decreases data.len() - i,
    {
        let ghost before = sum;
        let mut c: u64 = sum ^ (data[i] as u64);
        let ghost start = c;
        let mut k: u8 = 0;
        while k < 8
            invariant
                k <= 8,
                c == shifts(start, k as nat),
            decreases 8 - k,
        {
            if c & 1 == 1 {
                c = (c >> 1) ^ POLY;
            } else {
                c = c >> 1;
            }
            k = k + 1;
        }
        sum = c;
        i = i + 1;
        proof {
            let t = data@.take(i as int);
            assert(t.drop_last() =~= data@.take(i - 1));
            assert(t.last() == data@[i - 1]);
        }
    }
    proof {
        assert(data@.take(i as int) =~= data@);
    }
    sum
}

/// The eight bytes of `v`, lowest first.
pub open spec fn le_bytes(v: u64) -> Seq<u8> {
    Seq::new(8, |i: int| ((v >> ((8 * i) as u64)) & 0xff) as u8)
}

/// Appends the eight bytes of `v` to `out`, lowest first.
pub fn push_u64_le(out: &mut Vec<u8>, v: u64)
    ensures
        final(out)@ == old(out)@ + le_bytes(v),
{
    let mut k: u64 = 0;
    while k < 8
        invariant
            k <= 8,
            out@ == old(out)@ + le_bytes(v).take(k as int),
        decreases 8 - k,
    {
        let b: u8 = ((v >> (8 * k)) & 0xff) as u8;
        out.push(b);
        k = k + 1;
        proof {
            assert(out@ =~= old(out)@ + le_bytes(v).take(k as int));
        }
    }
    proof {
        assert(le_bytes(v).take(8) =~= le_bytes(v));
    }
}

} // verus!
