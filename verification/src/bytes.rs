//! Little-endian integers inside byte sequences.

use vstd::prelude::*;

verus! {

/// The 16-bit little-endian value at `offset`.
pub open spec fn le16(s: Seq<u8>, offset: int) -> int {
    s[offset] + 256 * s[offset + 1]
}

/// The 32-bit little-endian value at `offset`.
pub open spec fn le32(s: Seq<u8>, offset: int) -> int {
    s[offset] + 256 * s[offset + 1] + 65536 * s[offset + 2] + 16777216 * s[offset + 3]
}

/// `s` with the 32-bit value `value` stored little-endian at `offset`.
#[verifier::opaque]
pub open spec fn put_le32(s: Seq<u8>, offset: int, value: int) -> Seq<u8> {
    s.update(offset, (value % 256) as u8).update(offset + 1, (value / 256 % 256) as u8).update(
        offset + 2,
        (value / 65536 % 256) as u8,
    ).update(offset + 3, (value / 16777216 % 256) as u8)
}

/// What is stored can be read back, and only its four bytes change.
pub proof fn lemma_put_le32(s: Seq<u8>, offset: int, value: int)
    requires
        0 <= offset,
        offset + 4 <= s.len(),
        0 <= value <= u32::MAX,
    ensures
        put_le32(s, offset, value).len() == s.len(),
        le32(put_le32(s, offset, value), offset) == value,
        forall|i: int|
            0 <= i < s.len() && !(offset <= i < offset + 4) ==> #[trigger] put_le32(
                s,
                offset,
                value,
            )[i] == s[i],
{
    reveal(put_le32);
}

/// Two sequences that agree on four bytes hold the same 32-bit value there.
pub proof fn lemma_le32_same(s: Seq<u8>, t: Seq<u8>, offset: int)
    requires
        forall|i: int| offset <= i < offset + 4 ==> s[i] == t[i],
    ensures
        le32(s, offset) == le32(t, offset),
{
    assert(s[offset] == t[offset]);
    assert(s[offset + 1] == t[offset + 1]);
    assert(s[offset + 2] == t[offset + 2]);
    assert(s[offset + 3] == t[offset + 3]);
}

proof fn lemma_digits(a: int, b: int, c: int, d: int)
    requires
        0 <= a < 256,
        0 <= b < 256,
        0 <= c < 256,
        0 <= d < 256,
    ensures
        ({
            let v = a + 256 * b + 65536 * c + 16777216 * d;
            v % 256 == a && v / 256 % 256 == b && v / 65536 % 256 == c && v / 16777216 % 256 == d
        }),
{
    let v = a + 256 * b + 65536 * c + 16777216 * d;
    assert(v / 256 == b + 256 * c + 65536 * d);
    assert(v / 65536 == c + 256 * d);
    assert(v / 16777216 == d);
}

/// Where the same 32-bit value stands, the same four bytes do.
pub proof fn lemma_le32_bytes(s: Seq<u8>, t: Seq<u8>, offset: int)
    requires
        le32(s, offset) == le32(t, offset),
    ensures
        forall|i: int| offset <= i < offset + 4 ==> s[i] == t[i],
{
    lemma_digits(
        s[offset] as int,
        s[offset + 1] as int,
        s[offset + 2] as int,
        s[offset + 3] as int,
    );
    lemma_digits(
        t[offset] as int,
        t[offset + 1] as int,
        t[offset + 2] as int,
        t[offset + 3] as int,
    );
    assert forall|i: int| offset <= i < offset + 4 implies s[i] == t[i] by {
        assert(i == offset || i == offset + 1 || i == offset + 2 || i == offset + 3);
    }
}

/// Storing the value that is there already changes nothing.
pub proof fn lemma_put_same(s: Seq<u8>, offset: int)
    requires
        0 <= offset,
        offset + 4 <= s.len(),
    ensures
        put_le32(s, offset, le32(s, offset)) == s,
{
    lemma_digits(
        s[offset] as int,
        s[offset + 1] as int,
        s[offset + 2] as int,
        s[offset + 3] as int,
    );
    reveal(put_le32);
    assert(put_le32(s, offset, le32(s, offset)) =~= s);
}

/// Reads the 16-bit value at `offset`, if it lies within `data`.
pub fn read_u16(data: &[u8], offset: usize) -> (r: Option<u16>)
    ensures
        r is Some <==> offset + 2 <= data@.len(),
        r matches Some(v) ==> v == le16(data@, offset as int),
{
    if data.len() < 2 || offset > data.len() - 2 {
        return None;
    }
    Some(data[offset] as u16 + 256 * (data[offset + 1] as u16))
}

/// Reads the 32-bit value at `offset`, if it lies within `data`.
pub fn read_u32(data: &[u8], offset: usize) -> (r: Option<u32>)
    ensures
        r is Some <==> offset + 4 <= data@.len(),
        r matches Some(v) ==> v == le32(data@, offset as int),
{
    if data.len() < 4 || offset > data.len() - 4 {
        return None;
    }
    Some(
        data[offset] as u32 + 256 * (data[offset + 1] as u32) + 65536 * (data[offset + 2] as u32)
            + 16777216 * (data[offset + 3] as u32),
    )
}

/// Stores `value` at `offset`, if its four bytes lie within `data`.
pub fn write_u32(data: &mut [u8], offset: usize, value: u32) -> (r: Option<()>)
    ensures
        r is Some <==> offset + 4 <= old(data)@.len(),
        r is Some ==> final(data)@ == put_le32(old(data)@, offset as int, value as int),
        r is None ==> final(data)@ == old(data)@,
        final(data)@.len() == old(data)@.len(),
{
    if data.len() < 4 || offset > data.len() - 4 {
        return None;
    }
    proof {
        reveal(put_le32);
    }
    data[offset] = (value % 256) as u8;
    data[offset + 1] = (value / 256 % 256) as u8;
    data[offset + 2] = (value / 65536 % 256) as u8;
    data[offset + 3] = (value / 16777216 % 256) as u8;
    Some(())
}

/// The lowest byte comes first, in words and in half words.
pub proof fn lemma_lowest_byte_comes_first(s: Seq<u8>, offset: int)
    ensures
        le16(s, offset) % 256 == s[offset],
        le16(s, offset) / 256 == s[offset + 1],
        le32(s, offset) % 256 == s[offset],
        le32(s, offset) / 0x100 % 256 == s[offset + 1],
        le32(s, offset) / 0x10000 % 256 == s[offset + 2],
        le32(s, offset) / 0x1000000 == s[offset + 3],
        le32(s, offset) == le16(s, offset) + 0x10000 * le16(s, offset + 2),
{
    lemma_digits(
        s[offset] as int,
        s[offset + 1] as int,
        s[offset + 2] as int,
        s[offset + 3] as int,
    );
}

} // verus!
