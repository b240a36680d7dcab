//! Whole numbers of variable and of fixed length.

use vstd::prelude::*;

verus! {

/// A number in groups of seven bits, the lowest first, all but the last with the high bit set.
pub open spec fn varint(value: nat) -> Seq<u8>
    decreases value,
{
    if value < 128 {
        seq![value as u8]
    } else {
        seq![(value % 128 + 128) as u8] + varint(value / 128)
    }
}

/// The number at the start of `bytes` and the number of bytes it takes, where `count` of its
/// groups were read before. It has no more than ten groups and 64 bits.
pub open spec fn varint_from(bytes: Seq<u8>, count: nat) -> Option<(nat, nat)>
    decreases bytes.len(),
{
    if bytes.len() == 0 || count >= 10 {
        None
    } else if bytes[0] < 128 {
        if count == 9 && bytes[0] >= 2 {
            None
        } else {
            Some((bytes[0] as nat, 1))
        }
    } else {
        match varint_from(bytes.skip(1), count + 1) {
            None => None,
            Some((rest, length)) => Some(((bytes[0] - 128 + 128 * rest) as nat, length + 1)),
        }
    }
}

/// The number at the start of `bytes` and the number of bytes it takes.
pub open spec fn read_varint(bytes: Seq<u8>) -> Option<(nat, nat)> {
    varint_from(bytes, 0)
}

/// Two to the number of bits that are left after `count` groups.
pub open spec fn bits_left(count: nat) -> nat {
    if count == 0 {
        0x1_0000_0000_0000_0000
    } else if count == 1 {
        0x200_0000_0000_0000
    } else if count == 2 {
        0x4_0000_0000_0000
    } else if count == 3 {
        0x800_0000_0000
    } else if count == 4 {
        0x10_0000_0000
    } else if count == 5 {
        0x2000_0000
    } else if count == 6 {
        0x40_0000
    } else if count == 7 {
        0x8000
    } else if count == 8 {
        0x100
    } else {
        2
    }
}

/// A number that was read fits what is left of 64 bits, and takes some of the bytes.
pub proof fn varint_is_bounded(bytes: Seq<u8>, count: nat)
    ensures
        varint_from(bytes, count) matches Some((value, length)) ==> {
            &&& value < bits_left(count)
            &&& 1 <= length <= bytes.len()
            &&& length + count <= 10
        },
    decreases bytes.len(),
{
    if bytes.len() > 0 && count < 10 && bytes[0] >= 128 {
        varint_is_bounded(bytes.skip(1), count + 1);
    }
}

/// A number that was written reads back, whatever stands behind it.
pub proof fn varint_reads_back(value: nat, tail: Seq<u8>, count: nat)
    requires
        count < 10,
        value < bits_left(count),
    ensures
        varint_from(varint(value) + tail, count) == Some((value, varint(value).len())),
        varint(value).len() >= 1,
    decreases value,
{
    let bytes = varint(value) + tail;
    if value < 128 {
        assert(bytes[0] == value as u8);
    } else {
        assert(count < 9);
        assert(value / 128 < bits_left(count + 1)) by {
            assert(bits_left(count) == 128 * bits_left(count + 1));
        }
        varint_reads_back(value / 128, tail, count + 1);
        assert(bytes[0] == (value % 128 + 128) as u8);
        assert(bytes.skip(1) =~= varint(value / 128) + tail);
        assert(value == value % 128 + 128 * (value / 128));
    }
}

/// Appends a number.
pub fn write_varint(out: &mut Vec<u8>, value: u64)
    ensures
        final(out)@ == old(out)@ + varint(value as nat),
    decreases value,
{
    if value < 128 {
        out.push(value as u8);
        proof {
            assert(out@ =~= old(out)@ + varint(value as nat));
        }
    } else {
        out.push((value % 128) as u8 + 128);
        let ghost between = out@;
        write_varint(out, value / 128);
        proof {
            assert(out@ =~= old(out)@ + varint(value as nat));
        }
    }
}

/// The number at a place, and the number of bytes it takes.
pub fn varint_at(bytes: &Vec<u8>, at: usize, count: u8) -> (r: Option<(u64, usize)>)
    requires
        at <= bytes.len(),
        count <= 10,
    ensures
        match r {
            Some((value, length)) => {
                &&& varint_from(bytes@.skip(at as int), count as nat) == Some(
                    (value as nat, length as nat),
                )
                &&& 1 <= length
                &&& at + length <= bytes.len()
            },
            None => varint_from(bytes@.skip(at as int), count as nat) is None,
        },
    decreases 10 - count,
{
    let ghost rest = bytes@.skip(at as int);
    proof {
        varint_is_bounded(rest, count as nat);
    }
    if at >= bytes.len() || count >= 10 {
        return None;
    }
    let byte: u8 = bytes[at];
    proof {
        assert(rest[0] == byte);
        assert(rest.skip(1) =~= bytes@.skip(at + 1));
        varint_is_bounded(rest.skip(1), (count + 1) as nat);
    }
    if byte < 128 {
        if count == 9 && byte >= 2 {
            return None;
        }
        return Some((byte as u64, 1));
    }
    match varint_at(bytes, at + 1, count + 1) {
        None => None,
        Some((value, length)) => {
            proof {
                assert(bits_left(count as nat) == 128 * bits_left((count + 1) as nat) || count
                    == 9);
            }
            Some(((byte - 128) as u64 + 128 * value, length + 1))
        },
    }
}

/// The number with the given bytes, the lowest first.
pub open spec fn little_endian(bytes: Seq<u8>) -> nat
    decreases bytes.len(),
{
    if bytes.len() == 0 {
        0
    } else {
        (bytes[0] + 256 * little_endian(bytes.skip(1))) as nat
    }
}

/// The `length` lowest bytes of a number, the lowest first.
pub open spec fn low_bytes(value: nat, length: nat) -> Seq<u8>
    decreases length,
{
    if length == 0 {
        Seq::empty()
    } else {
        seq![(value % 256) as u8] + low_bytes(value / 256, (length - 1) as nat)
    }
}

pub open spec fn bytes_range(length: nat) -> nat
    decreases length,
{
    if length == 0 {
        1
    } else {
        256 * bytes_range((length - 1) as nat)
    }
}

pub proof fn little_endian_is_bounded(bytes: Seq<u8>)
    ensures
        little_endian(bytes) < bytes_range(bytes.len()),
    decreases bytes.len(),
{
    if bytes.len() > 0 {
        little_endian_is_bounded(bytes.skip(1));
    }
}

/// A number of fixed length reads back.
pub proof fn low_bytes_read_back(value: nat, length: nat)
    requires
        value < bytes_range(length),
    ensures
        low_bytes(value, length).len() == length,
        little_endian(low_bytes(value, length)) == value,
    decreases length,
{
    if length > 0 {
        low_bytes_read_back(value / 256, (length - 1) as nat);
        let bytes = low_bytes(value, length);
        assert(bytes.skip(1) =~= low_bytes(value / 256, (length - 1) as nat));
        assert(bytes[0] == (value % 256) as u8);
    }
}

/// Appends a number of eight bytes.
pub fn write_fixed(out: &mut Vec<u8>, value: u64, length: u8)
    ensures
        final(out)@ == old(out)@ + low_bytes(value as nat, length as nat),
    decreases length,
{
    if length > 0 {
        out.push((value % 256) as u8);
        let ghost between = out@;
        write_fixed(out, value / 256, length - 1);
        proof {
            assert(out@ =~= old(out)@ + low_bytes(value as nat, length as nat));
        }
    } else {
        proof {
            assert(out@ =~= old(out)@ + low_bytes(value as nat, length as nat));
        }
    }
}

/// The number of up to eight bytes at a place.
pub fn fixed_at(bytes: &Vec<u8>, at: usize, length: u8) -> (r: u64)
    requires
        length <= 8,
        at + length <= bytes.len(),
    ensures
        r == little_endian(bytes@.subrange(at as int, at + length)),
    decreases length,
{
    let ghost part = bytes@.subrange(at as int, at + length);
    proof {
        little_endian_is_bounded(part);
        bytes_range_is_wide(length as nat);
    }
    if length == 0 {
        return 0;
    }
    proof {
        assert(part.skip(1) =~= bytes@.subrange(at + 1, at + 1 + (length - 1)));
    }
    let rest: u64 = fixed_at(bytes, at + 1, length - 1);
    bytes[at] as u64 + 256 * rest
}

proof fn bytes_range_is_wide(length: nat)
    requires
        length <= 8,
    ensures
        bytes_range(length) <= 0x1_0000_0000_0000_0000,
{
    reveal_with_fuel(bytes_range, 9);
}

} // verus!
