//! Unsigned integers as little-endian bytes.
use vstd::prelude::*;

verus! {

/// The lowest `len` bytes of a number, lowest first.
pub open spec fn le_bytes(value: nat, len: nat) -> Seq<u8>
    decreases len,
{
    if len == 0 {
        Seq::empty()
    } else {
        seq![(value % 256) as u8] + le_bytes(value / 256, (len - 1) as nat)
    }
}

/// The number that bytes stand for, lowest byte first.
pub open spec fn le_value(bytes: Seq<u8>) -> nat
    decreases bytes.len(),
{
    if bytes.len() == 0 {
        0
    } else {
        bytes[0] as nat + 256 * le_value(bytes.skip(1))
    }
}

/// How many numbers `len` bytes can stand for.
pub open spec fn le_bound(len: nat) -> nat
    decreases len,
{
    if len == 0 {
        1
    } else {
        256 * le_bound((len - 1) as nat)
    }
}

pub proof fn lemma_le_len(value: nat, len: nat)
    ensures
        le_bytes(value, len).len() == len,
    decreases len,
{
    if len > 0 {
        lemma_le_len(value / 256, (len - 1) as nat);
    }
}

/// Reading the bytes of a number that fits gives the number back.
pub proof fn le_bytes_read_back(value: nat, len: nat)
    requires
        value < le_bound(len),
    ensures
        le_bytes(value, len).len() == len,
        le_value(le_bytes(value, len)) == value,
    decreases len,
{
    if len > 0 {
        le_bytes_read_back(value / 256, (len - 1) as nat);
        let all = le_bytes(value, len);
        assert(all.skip(1) =~= le_bytes(value / 256, (len - 1) as nat));
    }
}

/// Bytes stand for numbers that fit, and the bytes of that number are the same bytes.
pub proof fn le_value_writes_back(bytes: Seq<u8>)
    ensures
        le_value(bytes) < le_bound(bytes.len()),
        le_bytes(le_value(bytes), bytes.len()) == bytes,
    decreases bytes.len(),
{
    if bytes.len() > 0 {
        let rest = bytes.skip(1);
        le_value_writes_back(rest);
        let v = le_value(bytes);
        assert(v == bytes[0] as nat + 256 * le_value(rest));
        assert(v % 256 == bytes[0] as nat && v / 256 == le_value(rest));
        assert(le_bytes(v, bytes.len()) =~= bytes);
    } else {
        assert(le_bytes(0, 0) =~= bytes);
    }
}

pub proof fn lemma_le_bounds()
    ensures
        le_bound(1) == 0x100,
        le_bound(2) == 0x1_0000,
        le_bound(4) == 0x1_0000_0000,
        le_bound(8) == 0x1_0000_0000_0000_0000,
        le_bound(16) == 0x1_0000_0000_0000_0000_0000_0000_0000_0000,
{
    reveal_with_fuel(le_bound, 17);
}

/// Appends the lowest `len` bytes of a number.
pub fn push_le(out: &mut Vec<u8>, value: u128, len: usize)
    ensures
        final(out)@ == old(out)@ + le_bytes(value as nat, len as nat),
{
    let mut rest: u128 = value;
    let mut left: usize = len;
    proof {
        assert(old(out)@ + le_bytes(value as nat, len as nat) == out@ + le_bytes(
            rest as nat,
            left as nat,
        ));
    }
    while left > 0
        invariant
            old(out)@ + le_bytes(value as nat, len as nat) == out@ + le_bytes(
                rest as nat,
                left as nat,
            ),
        decreases left,
    {
        let ghost before = out@;
        out.push((rest % 256) as u8);
        proof {
            assert(out@ + le_bytes((rest / 256) as nat, (left - 1) as nat) =~= before + le_bytes(
                rest as nat,
                left as nat,
            ));
        }
        rest = rest / 256;
        left -= 1;
    }
    proof {
        assert(out@ + le_bytes(rest as nat, 0) =~= out@);
    }
}

/// Reads a number from up to sixteen bytes.
pub fn read_le(bytes: &Vec<u8>, start: usize, end: usize) -> (value: u128)
    requires
        start <= end <= bytes@.len(),
        end - start <= 16,
    ensures
        value == le_value(bytes@.subrange(start as int, end as int)),
{
    let mut at: usize = end;
    let mut value: u128 = 0;
    proof {
        lemma_le_bounds();
        assert(bytes@.subrange(end as int, end as int) =~= Seq::<u8>::empty());
    }
    while at > start
        invariant
            start <= at <= end <= bytes@.len(),
            end - start <= 16,
            value == le_value(bytes@.subrange(at as int, end as int)),
        decreases at,
    {
        at -= 1;
        proof {
            let part = bytes@.subrange(at as int, end as int);
            assert(part.skip(1) =~= bytes@.subrange(at + 1, end as int));
            le_value_writes_back(part);
            lemma_le_monotone(part.len(), 16);
            lemma_le_bounds();
        }
        value = value * 256 + bytes[at] as u128;
    }
    value
}

proof fn lemma_le_monotone(one: nat, other: nat)
    requires
        one <= other,
    ensures
        le_bound(one) <= le_bound(other),
        le_bound(one) > 0,
    decreases other,
{
    if one < other {
        lemma_le_monotone(one, (other - 1) as nat);
    } else if one > 0 {
        lemma_le_monotone((one - 1) as nat, (other - 1) as nat);
    }
}

} // verus!
