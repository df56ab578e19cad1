//! Unsigned integers in network byte order.
//!
//! A field of `n` bytes stands for the number whose base-256 digits are those
//! bytes, most significant first.

use vstd::prelude::*;

verus! {

/// The number that `bytes` spell in base 256, most significant byte first.
pub open spec fn be_value(bytes: Seq<u8>) -> nat
    decreases bytes.len(),
{
    if bytes.len() == 0 {
        0
    } else {
        be_value(bytes.drop_last()) * 256 + bytes.last() as nat
    }
}

/// The `width` least significant base-256 digits of `value`, most significant
/// first.
pub open spec fn be_bytes(value: nat, width: nat) -> Seq<u8>
    decreases width,
{
    if width == 0 {
        Seq::empty()
    } else {
        be_bytes(value / 256, (width - 1) as nat).push((value % 256) as u8)
    }
}

/// 256 to the power `n`: the number of values an `n`-byte field can take.
pub open spec fn radix_pow(n: nat) -> nat
    decreases n,
{
    if n == 0 {
        1
    } else {
        256 * radix_pow((n - 1) as nat)
    }
}

/// The powers of 256 that bound the field widths in use.
pub proof fn lemma_radix_pow_values()
    ensures
        radix_pow(0) == 1,
        radix_pow(1) == 0x100,
        radix_pow(2) == 0x1_0000,
        radix_pow(3) == 0x100_0000,
        radix_pow(4) == 0x1_0000_0000,
        radix_pow(5) == 0x100_0000_0000,
        radix_pow(6) == 0x1_0000_0000_0000,
        radix_pow(7) == 0x100_0000_0000_0000,
        radix_pow(8) == 0x1_0000_0000_0000_0000,
{
    reveal_with_fuel(radix_pow, 10);
}

/// A field of `width` bytes is `width` bytes long.
pub proof fn lemma_be_bytes_len(value: nat, width: nat)
    ensures
        be_bytes(value, width).len() == width,
    decreases width,
{
    if width > 0 {
        lemma_be_bytes_len(value / 256, (width - 1) as nat);
    }
}

/// An `n`-byte field spells a number below 256^n.
pub proof fn lemma_be_value_bound(bytes: Seq<u8>)
    ensures
        be_value(bytes) < radix_pow(bytes.len()),
    decreases bytes.len(),
{
    if bytes.len() > 0 {
        lemma_be_value_bound(bytes.drop_last());
    }
}

/// Writing a number that fits in `width` bytes and reading the bytes back
/// gives the number again.
pub proof fn lemma_be_value_of_bytes(value: nat, width: nat)
    requires
        value < radix_pow(width),
    ensures
        be_value(be_bytes(value, width)) == value,
    decreases width,
{
    if width > 0 {
        let head = be_bytes(value / 256, (width - 1) as nat);
        lemma_be_value_of_bytes(value / 256, (width - 1) as nat);
        assert(be_bytes(value, width).drop_last() =~= head);
    }
}

/// Reading a field and writing the number back in the same width gives the
/// same bytes: no two fields of one width spell the same number.
pub proof fn lemma_be_bytes_of_value(bytes: Seq<u8>)
    ensures
        be_bytes(be_value(bytes), bytes.len()) == bytes,
    decreases bytes.len(),
{
    if bytes.len() > 0 {
        let head = bytes.drop_last();
        lemma_be_bytes_of_value(head);
        assert(be_value(bytes) / 256 == be_value(head));
        assert(be_value(bytes) % 256 == bytes.last() as nat);
        assert(be_bytes(be_value(bytes), bytes.len()) =~= bytes);
    }
}

/// Writes the `width` low-order bytes of `value` at `offset`, most
/// significant first, and leaves every other byte of `buffer` as it was.
pub fn put_be(buffer: &mut [u8], offset: usize, width: usize, value: u64)
    requires
        offset + width <= old(buffer)@.len(),
    ensures
        final(buffer)@ == old(buffer)@.subrange(0, offset as int) + be_bytes(
            value as nat,
            width as nat,
        ) + old(buffer)@.subrange(offset + width, old(buffer)@.len() as int),
{
    let len: usize = buffer.len();
    let mut rest: u64 = value;
    let mut i: usize = width;
    while i > 0
        invariant
            i <= width,
            offset + width <= len,
            buffer@.len() == len,
            old(buffer)@.len() == len,
            buffer@.subrange(0, offset + i) == old(buffer)@.subrange(0, offset + i),
            buffer@.subrange(offset + width, buffer@.len() as int) == old(buffer)@.subrange(
                offset + width,
                buffer@.len() as int,
            ),
            be_bytes(value as nat, width as nat) == be_bytes(rest as nat, i as nat)
                + buffer@.subrange(offset + i, offset + width),
        decreases i,
    {
        let ghost before = buffer@;
        i = i - 1;
        buffer[offset + i] = (rest % 256) as u8;
        rest = rest / 256;
        proof {
            assert(buffer@.subrange(0, offset + i) =~= before.subrange(0, offset + i + 1).subrange(
                0,
                offset + i,
            ));
            assert(buffer@.subrange(offset + width, buffer@.len() as int) =~= before.subrange(
                offset + width,
                buffer@.len() as int,
            ));
            assert(buffer@.subrange(offset + i, offset + width) =~= seq![buffer@[offset + i]]
                + before.subrange(offset + i + 1, offset + width));
            assert(old(buffer)@.subrange(0, offset + i) =~= old(buffer)@.subrange(
                0,
                offset + i + 1,
            ).subrange(0, offset + i));
        }
    }
    proof {
        assert(buffer@ =~= old(buffer)@.subrange(0, offset as int) + be_bytes(
            value as nat,
            width as nat,
        ) + old(buffer)@.subrange(offset + width, old(buffer)@.len() as int)) by {
            lemma_be_bytes_len(value as nat, width as nat);
            let l = buffer@.subrange(0, offset as int);
            let m = buffer@.subrange(offset as int, offset + width);
            let r = buffer@.subrange(offset + width, buffer@.len() as int);
            assert(buffer@ =~= l + m + r);
        }
    }
}

/// Copies `data` into `buffer` at `offset`, and leaves every other byte of
/// `buffer` as it was.
pub fn put_bytes(buffer: &mut [u8], offset: usize, data: &[u8])
    requires
        offset + data@.len() <= old(buffer)@.len(),
    ensures
        final(buffer)@ == old(buffer)@.subrange(0, offset as int) + data@ + old(buffer)@.subrange(
            offset + data@.len(),
            old(buffer)@.len() as int,
        ),
{
    let len: usize = buffer.len();
    let count: usize = data.len();
    let mut i: usize = 0;
    while i < count
        invariant
            i <= count,
            count == data@.len(),
            offset + count <= len,
            buffer@.len() == len,
            old(buffer)@.len() == len,
            forall|k: int| 0 <= k < len && !(offset <= k < offset + i) ==> buffer@[k] == old(
                buffer,
            )@[k],
            forall|k: int| 0 <= k < i ==> buffer@[offset + k] == data@[k],
        decreases count - i,
    {
        buffer[offset + i] = data[i];
        i = i + 1;
    }
    proof {
        assert(buffer@ =~= old(buffer)@.subrange(0, offset as int) + data@ + old(buffer)@.subrange(
            offset + data@.len(),
            old(buffer)@.len() as int,
        ));
    }
}

/// Reads the `width`-byte field at `offset`.
pub fn get_be(buffer: &[u8], offset: usize, width: usize) -> (value: u64)
    requires
        offset + width <= buffer@.len(),
        width <= 8,
    ensures
        value == be_value(buffer@.subrange(offset as int, offset + width)),
{
    let len: usize = buffer.len();
    let mut acc: u64 = 0;
    let mut i: usize = 0;
    while i < width
        invariant
            i <= width,
            width <= 8,
            offset + width <= len,
            buffer@.len() == len,
            acc == be_value(buffer@.subrange(offset as int, offset + i)),
        decreases width - i,
    {
        proof {
            let read = buffer@.subrange(offset as int, offset + i);
            let next = buffer@.subrange(offset as int, offset + i + 1);
            lemma_be_value_bound(read);
            lemma_radix_pow_values();
            assert(radix_pow(i as nat) <= radix_pow(7)) by {
                reveal_with_fuel(radix_pow, 10);
            }
            assert(next.drop_last() =~= read);
            assert(next.last() == buffer@[offset + i]);
        }
        acc = acc * 256 + buffer[offset + i] as u64;
        i = i + 1;
    }
    acc
}

} // verus!
