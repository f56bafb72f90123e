//! The building blocks of the binary encoding.
//!
//! Numbers are little-endian. A size, an offset, a count and a tag are
//! 32-bit numbers. A byte vector is its length followed by its bytes. A
//! table is its own total size, then the offset of each of its parts from
//! the start of the table, then the parts; a vector of parts of varying size
//! is laid out in the same way.

use vstd::prelude::*;

verus! {

/// The largest size, offset or count that the encoding can hold.
pub const MAX_NUMBER: usize = 0xffff_ffff;

/// The `width` low bytes of `n`, least significant first.
pub open spec fn le_bytes(n: nat, width: nat) -> Seq<u8>
    decreases width,
{
    if width == 0 {
        Seq::empty()
    } else {
        seq![(n % 256) as u8] + le_bytes(n / 256, (width - 1) as nat)
    }
}

/// The encoding of a size, an offset, a count or a tag.
pub open spec fn number_bytes(n: nat) -> Seq<u8> {
    le_bytes(n, 4)
}

/// The encoding of a byte vector.
pub open spec fn byte_vector_bytes(data: Seq<u8>) -> Seq<u8> {
    number_bytes(data.len()) + data
}

/// The views of a list of encoded parts.
pub open spec fn part_views(parts: Seq<Vec<u8>>) -> Seq<Seq<u8>> {
    Seq::new(parts.len(), |i: int| parts[i]@)
}

/// The lengths of the parts, added up.
pub open spec fn total_len(parts: Seq<Seq<u8>>) -> nat
    decreases parts.len(),
{
    if parts.len() == 0 {
        0
    } else {
        total_len(parts.drop_last()) + parts.last().len()
    }
}

/// The parts, one after the other.
pub open spec fn concat(parts: Seq<Seq<u8>>) -> Seq<u8>
    decreases parts.len(),
{
    if parts.len() == 0 {
        Seq::empty()
    } else {
        concat(parts.drop_last()) + parts.last()
    }
}

/// The length of what precedes the parts of a table of `count` parts.
pub open spec fn header_len(count: nat) -> nat {
    4 * (count + 1)
}

/// The encoded offsets of the first `k` parts of a table.
pub open spec fn offset_bytes(parts: Seq<Seq<u8>>, k: nat) -> Seq<u8>
    decreases k,
{
    if k == 0 {
        Seq::empty()
    } else {
        offset_bytes(parts, (k - 1) as nat) + number_bytes(
            header_len(parts.len()) + total_len(parts.take(k - 1)),
        )
    }
}

/// The encoding of a table with the given encoded parts.
pub open spec fn table_bytes(parts: Seq<Seq<u8>>) -> Seq<u8> {
    number_bytes(header_len(parts.len()) + total_len(parts)) + offset_bytes(parts, parts.len())
        + concat(parts)
}

/// An encoded number is as long as it is wide.
pub proof fn lemma_le_bytes_len(n: nat, width: nat)
    ensures
        le_bytes(n, width).len() == width,
    decreases width,
{
    if width > 0 {
        lemma_le_bytes_len(n / 256, (width - 1) as nat);
    }
}

/// The parts of a table, one after the other, are as long as the parts
/// together.
pub proof fn lemma_concat_len(parts: Seq<Seq<u8>>)
    ensures
        concat(parts).len() == total_len(parts),
    decreases parts.len(),
{
    if parts.len() > 0 {
        lemma_concat_len(parts.drop_last());
    }
}

/// The first parts of a table are together no longer than all of them.
pub proof fn lemma_total_len_take(parts: Seq<Seq<u8>>, k: int)
    requires
        0 <= k <= parts.len(),
    ensures
        total_len(parts.take(k)) <= total_len(parts),
    decreases parts.len(),
{
    if k == parts.len() {
        assert(parts.take(k) =~= parts);
    } else {
        assert(parts.drop_last().take(k) =~= parts.take(k));
        lemma_total_len_take(parts.drop_last(), k);
    }
}

/// Each part of a table is no longer than the parts together.
pub proof fn lemma_total_len_part(parts: Seq<Seq<u8>>, i: int)
    requires
        0 <= i < parts.len(),
    ensures
        parts[i].len() <= total_len(parts),
{
    lemma_total_len_take(parts, i + 1);
    assert(parts.take(i + 1).drop_last() =~= parts.take(i));
}

proof fn lemma_offset_bytes_len(parts: Seq<Seq<u8>>, k: nat)
    ensures
        offset_bytes(parts, k).len() == 4 * k,
    decreases k,
{
    if k > 0 {
        lemma_offset_bytes_len(parts, (k - 1) as nat);
        lemma_le_bytes_len(header_len(parts.len()) + total_len(parts.take(k - 1)), 4);
    }
}

/// A table is as long as its header and its parts.
pub proof fn lemma_table_len(parts: Seq<Seq<u8>>)
    ensures
        table_bytes(parts).len() == header_len(parts.len()) + total_len(parts),
{
    lemma_le_bytes_len(header_len(parts.len()) + total_len(parts), 4);
    lemma_offset_bytes_len(parts, parts.len());
    lemma_concat_len(parts);
}

/// A table is longer than any of its parts.
pub proof fn lemma_table_longer_than_part(parts: Seq<Seq<u8>>, i: int)
    requires
        0 <= i < parts.len(),
    ensures
        table_bytes(parts).len() > parts[i].len(),
{
    lemma_table_len(parts);
    lemma_total_len_part(parts, i);
}

/// The four bytes of a 32-bit number, least significant first, as
/// `molecule::pack_number` gives them.
#[verifier::external_body]
fn pack_number(n: u32) -> (bytes: [u8; 4])
    ensures
        bytes@ == number_bytes(n as nat),
{
    molecule::pack_number(n)
}

/// Appends the encoding of the number `n`.
pub fn push_number(out: &mut Vec<u8>, n: u32)
    ensures
        final(out)@ == old(out)@ + number_bytes(n as nat),
{
    let bytes = pack_number(n);
    proof {
        lemma_le_bytes_len(n as nat, 4);
    }
    out.push(bytes[0]);
    out.push(bytes[1]);
    out.push(bytes[2]);
    out.push(bytes[3]);
    assert(out@ =~= old(out)@ + number_bytes(n as nat));
}

/// Appends `data`.
pub fn push_bytes(out: &mut Vec<u8>, data: &[u8])
    ensures
        final(out)@ == old(out)@ + data@,
{
    let mut i: usize = 0;
    while i < data.len()
        invariant
            i <= data.len(),
            out@ == old(out)@ + data@.take(i as int),
        decreases data.len() - i,
    {
        out.push(data[i]);
        assert(data@.take(i + 1) =~= data@.take(i as int).push(data@[i as int]));
        i += 1;
    }
    assert(data@.take(i as int) =~= data@);
}

/// The eight bytes of `n`, least significant first.
pub fn encode_uint64(n: u64) -> (bytes: Vec<u8>)
    ensures
        bytes@ == le_bytes(n as nat, 8),
{
    let mut bytes: Vec<u8> = Vec::new();
    let mut rest: u64 = n;
    let mut i: usize = 0;
    while i < 8
        invariant
            i <= 8,
            bytes@ + le_bytes(rest as nat, (8 - i) as nat) == le_bytes(n as nat, 8),
        decreases 8 - i,
    {
        let ghost before = bytes@;
        bytes.push((rest % 256) as u8);
        proof {
            let tail = le_bytes((rest / 256) as nat, (8 - i - 1) as nat);
            assert(le_bytes(rest as nat, (8 - i) as nat) == seq![(rest % 256) as u8] + tail);
            assert(bytes@ + tail =~= before + (seq![(rest % 256) as u8] + tail));
        }
        rest = rest / 256;
        i += 1;
    }
    assert(bytes@ + le_bytes(rest as nat, 0) =~= bytes@);
    bytes
}

/// The encoding of the byte vector `data`, unless it has more bytes than a
/// count can hold.
pub fn encode_byte_vector(data: &[u8]) -> (r: Option<Vec<u8>>)
    ensures
        r is Some <==> data@.len() <= MAX_NUMBER,
        r matches Some(bytes) ==> bytes@ == byte_vector_bytes(data@),
{
    if data.len() > MAX_NUMBER {
        return None;
    }
    let mut bytes: Vec<u8> = Vec::new();
    push_number(&mut bytes, data.len() as u32);
    push_bytes(&mut bytes, data);
    Some(bytes)
}

/// The encoding of the table with the given encoded parts, unless it is
/// longer than a size can hold.
pub fn encode_table(parts: &Vec<Vec<u8>>) -> (r: Option<Vec<u8>>)
    ensures
        r is Some <==> table_bytes(part_views(parts@)).len() <= MAX_NUMBER,
        r matches Some(bytes) ==> bytes@ == table_bytes(part_views(parts@)),
{
    let ghost views = part_views(parts@);
    let count = parts.len();
    proof {
        lemma_table_len(views);
    }
    if count >= MAX_NUMBER / 4 {
        return None;
    }
    let header: usize = 4 * (count + 1);
    let mut total: usize = header;
    let mut i: usize = 0;
    while i < count
        invariant
            i <= count,
            count == parts.len(),
            views == part_views(parts@),
            header == header_len(count as nat),
            total == header + total_len(views.take(i as int)),
            total <= MAX_NUMBER,
            table_bytes(views).len() == header + total_len(views),
        decreases count - i,
    {
        let len = parts[i].len();
        proof {
            assert(views.take(i + 1).drop_last() =~= views.take(i as int));
            lemma_total_len_take(views, i + 1);
        }
        if len > MAX_NUMBER - total {
            return None;
        }
        total = total + len;
        i += 1;
    }
    assert(views.take(count as int) =~= views);
    let mut bytes: Vec<u8> = Vec::new();
    push_number(&mut bytes, total as u32);
    let mut offset: usize = header;
    let mut i: usize = 0;
    while i < count
        invariant
            i <= count,
            count == parts.len(),
            views == part_views(parts@),
            header == header_len(count as nat),
            total == header + total_len(views),
            total <= MAX_NUMBER,
            offset == header + total_len(views.take(i as int)),
            bytes@ == number_bytes(total as nat) + offset_bytes(views, i as nat),
        decreases count - i,
    {
        let ghost before = bytes@;
        proof {
            assert(views.take(i + 1).drop_last() =~= views.take(i as int));
            lemma_total_len_take(views, i as int);
            lemma_total_len_take(views, i + 1);
        }
        push_number(&mut bytes, offset as u32);
        assert(bytes@ =~= number_bytes(total as nat) + offset_bytes(views, (i + 1) as nat));
        offset = offset + parts[i].len();
        i += 1;
    }
    let mut i: usize = 0;
    while i < count
        invariant
            i <= count,
            count == parts.len(),
            views == part_views(parts@),
            bytes@ == number_bytes(total as nat) + offset_bytes(views, count as nat) + concat(
                views.take(i as int),
            ),
        decreases count - i,
    {
        proof {
            assert(views.take(i + 1).drop_last() =~= views.take(i as int));
        }
        push_bytes(&mut bytes, parts[i].as_slice());
        assert(bytes@ =~= number_bytes(total as nat) + offset_bytes(views, count as nat) + concat(
            views.take(i + 1),
        ));
        i += 1;
    }
    assert(views.take(count as int) =~= views);
    Some(bytes)
}

} // verus!
