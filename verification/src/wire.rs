//! Big-endian integers.
use vstd::prelude::*;

verus! {

/// The `width` low bytes of `n`, most significant first.
pub open spec fn be_bytes(n: nat, width: nat) -> Seq<u8>
    decreases width,
{
    if width == 0 {
        Seq::empty()
    } else {
        be_bytes(n / 256, (width - 1) as nat).push((n % 256) as u8)
    }
}

/// The number whose base-256 digits are `bytes`, most significant first.
pub open spec fn be_value(bytes: Seq<u8>) -> nat
    decreases bytes.len(),
{
    if bytes.len() == 0 {
        0
    } else {
        be_value(bytes.drop_last()) * 256 + bytes.last() as nat
    }
}

/// How many numbers `width` bytes can tell apart.
pub open spec fn be_range(width: nat) -> nat
    decreases width,
{
    if width == 0 {
        1
    } else {
        256 * be_range((width - 1) as nat)
    }
}

/// Writing a number big-endian and reading it back gives the number.
pub proof fn be_value_of_bytes(n: nat, width: nat)
    requires
        n < be_range(width),
    ensures
        be_bytes(n, width).len() == width,
        be_value(be_bytes(n, width)) == n,
    decreases width,
{
    if width > 0 {
        be_value_of_bytes(n / 256, (width - 1) as nat);
        assert(be_bytes(n, width).drop_last() == be_bytes(n / 256, (width - 1) as nat));
    }
}

/// Reading bytes big-endian and writing the number back gives the bytes.
pub proof fn be_bytes_of_value(bytes: Seq<u8>)
    ensures
        be_value(bytes) < be_range(bytes.len()),
        be_bytes(be_value(bytes), bytes.len()) == bytes,
    decreases bytes.len(),
{
    if bytes.len() > 0 {
        let init = bytes.drop_last();
        be_bytes_of_value(init);
        assert(be_value(bytes) / 256 == be_value(init));
        assert(be_value(bytes) % 256 == bytes.last() as nat);
        assert(init.push(bytes.last()) == bytes);
    }
}

/// `width` bytes hold every number below the stated power of two.
pub proof fn be_ranges()
    ensures
        be_range(2) == 0x1_0000,
        be_range(4) == 0x1_0000_0000,
        be_range(8) == 0x1_0000_0000_0000_0000,
{
    reveal_with_fuel(be_range, 9);
}

/// Any `width` gives exactly `width` bytes.
pub broadcast proof fn be_bytes_width(n: nat, width: nat)
    ensures
        #[trigger] be_bytes(n, width).len() == width,
    decreases width,
{
    if width > 0 {
        be_bytes_width(n / 256, (width - 1) as nat);
    }
}

/// Appends the `width` low bytes of `n`, most significant first.
pub fn put_be(out: &mut Vec<u8>, n: u64, width: u8)
    ensures
        final(out)@ == old(out)@ + be_bytes(n as nat, width as nat),
    decreases width,
{
    if width > 0 {
        put_be(out, n / 256, width - 1);
        out.push((n % 256) as u8);
    }
}

/// Reads up to eight bytes as one big-endian number.
pub fn get_be(bytes: &[u8]) -> (n: u64)
    requires
        bytes@.len() <= 8,
    ensures
        n == be_value(bytes@),
{
    let mut n: u64 = 0;
    let mut i: usize = 0;
    while i < bytes.len()
        invariant
            i <= bytes@.len() <= 8,
            n == be_value(bytes@.take(i as int)),
        decreases bytes@.len() - i,
    {
        proof {
            be_bytes_of_value(bytes@.take(i as int));
            reveal_with_fuel(be_range, 9);
            assert(n < 0x100_0000_0000_0000);
            assert(bytes@.take(i + 1).drop_last() == bytes@.take(i as int));
        }
        n = n * 256 + bytes[i] as u64;
        i = i + 1;
    }
    assert(bytes@.take(i as int) == bytes@);
    n
}

/// The most significant byte comes first: each byte further to the front is
/// worth 256 times as much.
pub proof fn law_most_significant_first(bytes: Seq<u8>, rest: Seq<u8>, byte: u8)
    ensures
        be_value(seq![byte]) == byte,
        be_value(seq![byte] + rest) == byte * be_range(rest.len()) + be_value(rest),
        be_value(bytes.push(byte)) == 256 * be_value(bytes) + byte,
        be_range(rest.len() + 1) == 256 * be_range(rest.len()),
        be_range(0) == 1,
    decreases rest.len(),
{
    assert(bytes.push(byte).drop_last() == bytes);
    reveal_with_fuel(be_value, 2);
    assert(seq![byte].drop_last() =~= Seq::<u8>::empty());
    if rest.len() == 0 {
        assert(seq![byte] + rest =~= seq![byte]);
        let one = be_range(0);
        assert(byte * one == byte) by (nonlinear_arith)
            requires
                one == 1,
        ;
    } else {
        let all = seq![byte] + rest;
        law_most_significant_first(bytes, rest.drop_last(), byte);
        assert(all.drop_last() =~= seq![byte] + rest.drop_last());
        let range = be_range(rest.drop_last().len());
        assert(byte * (256 * range) == 256 * (byte * range)) by (nonlinear_arith);
        assert(all.last() == rest.last());
        assert(be_value(all) == be_value(all.drop_last()) * 256 + all.last() as nat);
        assert(be_value(rest) == be_value(rest.drop_last()) * 256 + rest.last() as nat);
        assert(be_range(rest.len()) == 256 * range);
        assert(be_value(all.drop_last()) == byte * range + be_value(rest.drop_last()));
        assert(byte * be_range(rest.len()) == 256 * (byte * range));
    }
}

} // verus!
