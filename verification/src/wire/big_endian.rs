//! Unsigned integers in network byte order.
use vstd::prelude::*;

verus! {

/// 256 to the power of `width`: how many values fit in `width` bytes.
pub open spec fn byte_capacity(width: nat) -> nat
    decreases width,
{
    if width == 0 {
        1
    } else {
        256 * byte_capacity((width - 1) as nat)
    }
}

/// The last `width` bytes of `value`, most significant byte first.
pub open spec fn be_bytes(value: nat, width: nat) -> Seq<u8>
    decreases width,
{
    if width == 0 {
        Seq::empty()
    } else {
        be_bytes(value / 256, (width - 1) as nat).push((value % 256) as u8)
    }
}

/// The number that `bytes` stand for, most significant byte first.
pub open spec fn be_value(bytes: Seq<u8>) -> nat
    decreases bytes.len(),
{
    if bytes.len() == 0 {
        0
    } else {
        be_value(bytes.drop_last()) * 256 + bytes.last() as nat
    }
}

pub proof fn lemma_be_bytes_len(value: nat, width: nat)
    ensures
        be_bytes(value, width).len() == width,
    decreases width,
{
    if width > 0 {
        lemma_be_bytes_len(value / 256, (width - 1) as nat);
    }
}

/// Writing a number and reading it back gives the number, if it fits.
pub proof fn lemma_value_of_bytes(value: nat, width: nat)
    requires
        value < byte_capacity(width),
    ensures
        be_value(be_bytes(value, width)) == value,
    decreases width,
{
    lemma_be_bytes_len(value, width);
    if width > 0 {
        lemma_be_bytes_len(value / 256, (width - 1) as nat);
        lemma_value_of_bytes(value / 256, (width - 1) as nat);
        assert(be_bytes(value, width).drop_last() =~= be_bytes(value / 256, (width - 1) as nat));
    }
}

/// Reading a number and writing it back gives the bytes.
pub proof fn lemma_bytes_of_value(bytes: Seq<u8>)
    ensures
        be_bytes(be_value(bytes), bytes.len()) == bytes,
    decreases bytes.len(),
{
    if bytes.len() > 0 {
        lemma_bytes_of_value(bytes.drop_last());
        assert(be_value(bytes) / 256 == be_value(bytes.drop_last()));
        assert(be_bytes(be_value(bytes), bytes.len()) =~= bytes);
    } else {
        assert(be_bytes(be_value(bytes), bytes.len()) =~= bytes);
    }
}

/// A number of `width` bytes is below the capacity of `width` bytes.
pub proof fn lemma_value_bound(bytes: Seq<u8>)
    ensures
        be_value(bytes) < byte_capacity(bytes.len()),
    decreases bytes.len(),
{
    if bytes.len() > 0 {
        lemma_value_bound(bytes.drop_last());
    }
}

/// How much the widths of the wire format hold.
pub proof fn lemma_capacities()
    ensures
        byte_capacity(2) == 0x1_0000,
        byte_capacity(4) == 0x1_0000_0000,
        byte_capacity(8) == 0x1_0000_0000_0000_0000,
{
    reveal_with_fuel(byte_capacity, 9);
}

proof fn lemma_capacity_monotone(a: nat, b: nat)
    requires
        a <= b,
    ensures
        byte_capacity(a) <= byte_capacity(b),
    decreases b,
{
    if a < b {
        lemma_capacity_monotone(a, (b - 1) as nat);
    }
}

/// Writes the last `width` bytes of `value` into `buf`, starting at `at`.
pub fn put_be(buf: &mut [u8], at: usize, value: u64, width: usize)
    requires
        at + width <= old(buf)@.len(),
    ensures
        final(buf)@ == old(buf)@.take(at as int) + be_bytes(value as nat, width as nat)
            + old(buf)@.skip(at + width),
{
    let ghost before = buf@;
    let total: usize = buf.len();
    let mut rest: u64 = value;
    let mut left: usize = width;
    proof {
        lemma_be_bytes_len(value as nat, width as nat);
    }
    while left > 0
        invariant
            left <= width,
            at + width <= before.len(),
            buf@.len() == before.len() == total,
            be_bytes(value as nat, width as nat).len() == width,
            be_bytes(value as nat, width as nat).take(left as int) == be_bytes(
                rest as nat,
                left as nat,
            ),
            forall|i: int|
                at + left <= i < at + width ==> buf@[i] == be_bytes(value as nat, width as nat)[i
                    - at],
            forall|i: int| 0 <= i < at + left ==> buf@[i] == before[i],
            forall|i: int| at + width <= i < before.len() ==> buf@[i] == before[i],
        decreases left,
    {
        let ghost all = be_bytes(value as nat, width as nat);
        let ghost now = be_bytes(rest as nat, left as nat);
        proof {
            lemma_be_bytes_len(rest as nat / 256, (left - 1) as nat);
            assert(now.last() == (rest as nat % 256) as u8);
            assert(all[left - 1] == all.take(left as int)[left - 1]);
            assert(all.take(left - 1) =~= all.take(left as int).drop_last());
            assert(now.drop_last() =~= be_bytes(rest as nat / 256, (left - 1) as nat));
        }
        buf[at + left - 1] = (rest % 256) as u8;
        rest = rest / 256;
        left = left - 1;
    }
    assert(buf@ =~= before.take(at as int) + be_bytes(value as nat, width as nat) + before.skip(
        at + width,
    ));
}

/// Reads the number that stands in the `width` bytes from `at`.
pub fn get_be(bytes: &[u8], at: usize, width: usize) -> (value: u64)
    requires
        at + width <= bytes@.len(),
        width <= 8,
    ensures
        value == be_value(bytes@.subrange(at as int, at + width)),
{
    let total: usize = bytes.len();
    let mut value: u64 = 0;
    let mut read: usize = 0;
    assert(bytes@.subrange(at as int, at as int) =~= Seq::empty());
    while read < width
        invariant
            read <= width <= 8,
            at + width <= bytes@.len() == total,
            value == be_value(bytes@.subrange(at as int, at + read)),
        decreases width - read,
    {
        let ghost prefix = bytes@.subrange(at as int, at + read);
        let ghost next = bytes@.subrange(at as int, at + read + 1);
        proof {
            assert(next.drop_last() =~= prefix);
            assert(next.last() == bytes@[at + read]);
            lemma_value_bound(next);
            lemma_capacity_monotone((read + 1) as nat, 8);
            lemma_capacities();
        }
        value = value * 256 + bytes[at + read] as u64;
        read = read + 1;
    }
    value
}

} // verus!
