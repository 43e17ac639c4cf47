//! Repairs SoundFont files that a strict synthesizer refuses: presets without
//! zones are dropped, and sample loops are moved inside their samples. Chooses the
//! font to play with.

use vstd::prelude::*;

use crate::bytes::{read_u16, read_u32, write_u32};
use crate::font_tables::tables_fit;

verus! {

use crate::bytes::{le16, le32, lemma_le32_bytes, lemma_le32_same, lemma_put_le32, lemma_put_same, put_le32};
use crate::font_tables::font_tables_fit;

/// Where a chunk stands: its header's offset, its payload's offset, and a
/// length or an end, as the function that returns it says.
pub type ChunkSpan = (usize, usize, usize);

/// The four bytes at `offset` spell `id`.
pub open spec fn has_tag(data: Seq<u8>, offset: int, id: Seq<u8>) -> bool {
    data.subrange(offset, offset + 4) == id
}

/// The first `LIST` chunk of type `list_type` among the top-level chunks from
/// `offset` on: header offset, payload offset, payload end. The walk gives up at
/// the first chunk that does not fit in the file.
pub open spec fn list_from(data: Seq<u8>, offset: int, list_type: Seq<u8>) -> Option<
    (int, int, int),
>
    decreases data.len() + 1 - offset,
{
    if offset < 0 || offset + 12 > data.len() {
        None
    } else {
        let size = le32(data, offset + 4);
        let start = offset + 8;
        let end = start + size;
        if end > data.len() {
            None
        } else if size >= 4 && has_tag(data, offset, LIST_TAG@) && has_tag(data, start, list_type) {
            Some((offset, start, end))
        } else {
            list_from(data, end + size % 2, list_type)
        }
    }
}

/// The first chunk named `id` from `offset` on that ends by `end`: header
/// offset, payload offset, payload size.
pub open spec fn chunk_from(data: Seq<u8>, offset: int, end: int, id: Seq<u8>) -> Option<
    (int, int, int),
>
    decreases end + 1 - offset,
{
    if offset < 0 || offset + 8 > end || offset + 8 > data.len() {
        None
    } else {
        let size = le32(data, offset + 4);
        let payload = offset + 8;
        if payload + size > end {
            None
        } else if has_tag(data, offset, id) {
            Some((offset, payload, size))
        } else {
            chunk_from(data, payload + size + size % 2, end, id)
        }
    }
}

pub open spec fn span_view(s: Option<ChunkSpan>) -> Option<(int, int, int)> {
    match s {
        None => None,
        Some((a, b, c)) => Some((a as int, b as int, c as int)),
    }
}

pub const LIST_TAG: [u8; 4] = [0x4c, 0x49, 0x53, 0x54];

pub const PDTA_TAG: [u8; 4] = [0x70, 0x64, 0x74, 0x61];

pub const SDTA_TAG: [u8; 4] = [0x73, 0x64, 0x74, 0x61];

pub const PHDR_TAG: [u8; 4] = [0x70, 0x68, 0x64, 0x72];

pub const SMPL_TAG: [u8; 4] = [0x73, 0x6d, 0x70, 0x6c];

pub const SHDR_TAG: [u8; 4] = [0x73, 0x68, 0x64, 0x72];

/// Whether the four bytes at `offset` spell `id`.
pub(crate) fn tag_matches(data: &[u8], offset: usize, id: &[u8; 4]) -> (r: bool)
    requires
        offset + 4 <= data@.len(),
    ensures
        r == has_tag(data@, offset as int, id@),
{
    let r = data[offset] == id[0] && data[offset + 1] == id[1] && data[offset + 2] == id[2]
        && data[offset + 3] == id[3];
    proof {
        let cut = data@.subrange(offset as int, offset + 4);
        if r {
            assert(cut =~= id@);
        } else {
            assert(cut[0] == data@[offset as int] && cut[1] == data@[offset + 1]);
            assert(cut[2] == data@[offset + 2] && cut[3] == data@[offset + 3]);
        }
    }
    r
}

/// Finds the first `LIST` chunk of the given type.
pub fn find_list(data: &[u8], list_type: &[u8; 4]) -> (r: Option<ChunkSpan>)
    ensures
        span_view(r) == list_from(data@, 12, list_type@),
{
    let mut offset: usize = 12;
    while data.len() >= 12 && offset <= data.len() - 12
        invariant
            offset >= 12,
            list_from(data@, 12, list_type@) == list_from(data@, offset as int, list_type@),
        decreases data.len() - offset,
    {
        let size = read_u32(data, offset + 4)? as usize;
        let start = offset + 8;
        if size > data.len() - start {
            return None;
        }
        let end = start + size;
        if size >= 4 && tag_matches(data, offset, &LIST_TAG) && tag_matches(data, start, list_type) {
            return Some((offset, start, end));
        }
        if end == data.len() {
            assert(list_from(data@, end + size as int % 2, list_type@) is None);
            return None;
        }
        offset = end + size % 2;
    }
    None
}

/// Finds the first chunk named `id` in the span from `start` to `end`.
pub fn find_chunk(data: &[u8], start: usize, end: usize, id: &[u8; 4]) -> (r: Option<ChunkSpan>)
    ensures
        span_view(r) == chunk_from(data@, start as int, end as int, id@),
{
    let mut offset = start;
    while end >= 8 && offset <= end - 8
        invariant
            chunk_from(data@, start as int, end as int, id@) == chunk_from(
                data@,
                offset as int,
                end as int,
                id@,
            ),
        decreases end - offset,
    {
        let size = read_u32(data, offset + 4)? as usize;
        let payload = offset + 8;
        if size > end - payload {
            return None;
        }
        if tag_matches(data, offset, id) {
            return Some((offset, payload, size));
        }
        if payload + size == end {
            assert(chunk_from(data@, payload + size + size as int % 2, end as int, id@) is None);
            return None;
        }
        offset = payload + size + size % 2;
    }
    None
}

/// A list that was found lies within the file.
pub proof fn lemma_list_bounds(data: Seq<u8>, offset: int, list_type: Seq<u8>)
    requires
        offset >= 0,
    ensures
        list_from(data, offset, list_type) matches Some((o, s, e)) ==> {
            &&& offset <= o
            &&& s == o + 8
            &&& s + 4 <= e <= data.len()
            &&& e == s + le32(data, o + 4)
        },
    decreases data.len() + 1 - offset,
{
    if offset + 12 <= data.len() {
        let size = le32(data, offset + 4);
        if offset + 8 + size <= data.len() {
            lemma_list_bounds(data, offset + 8 + size + size % 2, list_type);
        }
    }
}

/// A chunk that was found lies within the span that was searched.
pub proof fn lemma_chunk_bounds(data: Seq<u8>, offset: int, end: int, id: Seq<u8>)
    requires
        offset >= 0,
    ensures
        chunk_from(data, offset, end, id) matches Some((o, p, size)) ==> {
            &&& offset <= o
            &&& p == o + 8
            &&& 0 <= size
            &&& p + size <= end
            &&& p <= data.len()
            &&& size == le32(data, o + 4)
        },
    decreases end + 1 - offset,
{
    if offset + 8 <= end && offset + 8 <= data.len() {
        let size = le32(data, offset + 4);
        if offset + 8 + size <= end {
            lemma_chunk_bounds(data, offset + 8 + size + size % 2, end, id);
        }
    }
}

// ---------------------------------------------------------------------------
// Presets

/// Record `index` of `count` preset headers starting at `start` is kept: it is
/// the closing record, or its first zone comes before the next record's.
pub open spec fn preset_kept(data: Seq<u8>, start: int, index: int, count: int) -> bool {
    index + 1 == count || le16(data, start + index * 38 + 24) < le16(
        data,
        start + (index + 1) * 38 + 24,
    )
}

/// The bytes of the kept records among the first `index` of `count`, in order.
pub open spec fn kept_presets(data: Seq<u8>, start: int, index: int, count: int) -> Seq<u8>
    decreases index,
{
    if index <= 0 {
        Seq::empty()
    } else {
        let before = kept_presets(data, start, index - 1, count);
        let record = start + (index - 1) * 38;
        if preset_kept(data, start, index - 1, count) {
            before + data.subrange(record, record + 38)
        } else {
            before
        }
    }
}

/// The file without its zoneless presets, and whether the repair came to its
/// end. It stops early where the file has no preset headers or their size is
/// not a whole number of records, with nothing changed; and where the size that
/// the file states for itself is less than what was taken out, with the records
/// taken out and only their own chunk's size corrected.
pub open spec fn presets_patched(data: Seq<u8>) -> (Seq<u8>, bool) {
    match list_from(data, 12, PDTA_TAG@) {
        None => (data, false),
        Some((list, list_start, list_end)) => match chunk_from(
            data,
            list_start + 4,
            list_end,
            PHDR_TAG@,
        ) {
            None => (data, false),
            Some((header, start, size)) => if size % 38 != 0 {
                (data, false)
            } else {
                let kept = kept_presets(data, start, size / 38, size / 38);
                let delta = size - kept.len();
                if delta == 0 {
                    (data, true)
                } else {
                    let cut = put_le32(
                        data.subrange(0, start) + kept + data.subrange(
                            start + size,
                            data.len() as int,
                        ),
                        header + 4,
                        kept.len() as int,
                    );
                    if le32(cut, 4) < delta {
                        (cut, false)
                    } else {
                        (
                            put_le32(
                                put_le32(cut, list + 4, le32(cut, list + 4) - delta),
                                4,
                                le32(cut, 4) - delta,
                            ),
                            true,
                        )
                    }
                }
            },
        },
    }
}

proof fn lemma_kept_len(data: Seq<u8>, start: int, index: int, count: int)
    requires
        0 <= start,
        0 <= index,
        start + index * 38 <= data.len(),
    ensures
        kept_presets(data, start, index, count).len() <= index * 38,
    decreases index,
{
    if index > 0 {
        lemma_kept_len(data, start, index - 1, count);
    }
}

/// Appends `data[from..to]` to `out`.
fn append_range(out: &mut Vec<u8>, data: &[u8], from: usize, to: usize)
    requires
        from <= to <= data@.len(),
    ensures
        final(out)@ == old(out)@ + data@.subrange(from as int, to as int),
{
    let mut i = from;
    while i < to
        invariant
            from <= i <= to <= data@.len(),
            out@ == old(out)@ + data@.subrange(from as int, i as int),
        decreases to - i,
    {
        out.push(data[i]);
        i += 1;
        assert(data@.subrange(from as int, i as int) =~= data@.subrange(from as int, i - 1).push(
            data@[i - 1],
        ));
    }
}

/// Collects the kept ones among the `count` preset headers at `start`.
fn keep_presets(data: &[u8], start: usize, count: usize) -> (r: Vec<u8>)
    requires
        start + count * 38 <= data@.len(),
    ensures
        r@ == kept_presets(data@, start as int, count as int, count as int),
        r@.len() <= count * 38,
{
    let len = data.len();
    let mut kept: Vec<u8> = Vec::new();
    let mut record: usize = start;
    let mut index: usize = 0;
    while index < count
        invariant
            index <= count,
            record == start + index * 38,
            start + count * 38 <= len == data@.len(),
            kept@ == kept_presets(data@, start as int, index as int, count as int),
        decreases count - index,
    {
        let keep = index + 1 == count || match (
            read_u16(data, record + 24),
            read_u16(data, record + 62),
        ) {
            (Some(first), Some(next)) => first < next,
            _ => false,
        };
        if keep {
            append_range(&mut kept, data, record, record + 38);
        }
        record += 38;
        index += 1;
    }
    proof {
        lemma_kept_len(data@, start as int, count as int, count as int);
    }
    kept
}

/// `data` with the bytes from `start` to `end` replaced by `middle`.
fn spliced(data: &[u8], start: usize, end: usize, middle: &[u8]) -> (r: Vec<u8>)
    requires
        start <= end <= data@.len(),
    ensures
        r@ == data@.subrange(0, start as int) + middle@ + data@.subrange(
            end as int,
            data@.len() as int,
        ),
{
    let mut out: Vec<u8> = Vec::new();
    append_range(&mut out, data, 0, start);
    append_range(&mut out, middle, 0, middle.len());
    append_range(&mut out, data, end, data.len());
    assert(middle@.subrange(0, middle@.len() as int) =~= middle@);
    assert(Seq::<u8>::empty() + data@.subrange(0, start as int) =~= data@.subrange(0, start as int));
    out
}

/// Drops the presets that own no zone, and corrects the sizes of the chunks
/// around them. `None` where the repair could not be finished.
pub fn patch_empty_presets(data: &mut Vec<u8>) -> (r: Option<()>)
    ensures
        final(data)@ == presets_patched(old(data)@).0,
        r is Some <==> presets_patched(old(data)@).1,
{
    let (pdta_offset, pdta_start, pdta_end) = find_list(data.as_slice(), &PDTA_TAG)?;
    proof {
        lemma_list_bounds(data@, 12, PDTA_TAG@);
    }
    let (phdr_offset, phdr_start, phdr_size) = find_chunk(
        data.as_slice(),
        pdta_start + 4,
        pdta_end,
        &PHDR_TAG,
    )?;
    proof {
        lemma_chunk_bounds(data@, pdta_start + 4, pdta_end as int, PHDR_TAG@);
    }
    if phdr_size % 38 != 0 {
        return None;
    }
    let ghost original = data@;
    let phdr = keep_presets(data.as_slice(), phdr_start, phdr_size / 38);
    let delta = phdr_size - phdr.len();
    if delta == 0 {
        return Some(());
    }
    let mut patched = spliced(
        data.as_slice(),
        phdr_start,
        phdr_start + phdr_size,
        phdr.as_slice(),
    );
    let ghost before = patched@;
    write_u32(patched.as_mut_slice(), phdr_offset + 4, phdr.len() as u32);
    proof {
        lemma_put_le32(before, phdr_offset + 4, phdr@.len() as int);
        assert forall|i: int| pdta_offset + 4 <= i < pdta_offset + 8 implies original[i]
            == patched@[i] by {
            assert(before[i] == original[i]);
        }
        lemma_le32_same(original, patched@, pdta_offset + 4);
    }
    let pdta_field = read_u32(patched.as_slice(), pdta_offset + 4);
    let riff_field = read_u32(patched.as_slice(), 4);
    *data = patched;
    let pdta_size = pdta_field?.checked_sub(delta as u32)?;
    let riff_size = riff_field?.checked_sub(delta as u32)?;
    write_u32(data.as_mut_slice(), pdta_offset + 4, pdta_size);
    write_u32(data.as_mut_slice(), 4, riff_size);
    Some(())
}

/// Dropping presets keeps the file's own size field right: the bytes that left
/// the file are the bytes that left the count.
pub proof fn lemma_presets_patched_size(data: Seq<u8>)
    requires
        presets_patched(data).1,
    ensures
        presets_patched(data).0.len() <= data.len(),
        le32(presets_patched(data).0, 4) - presets_patched(data).0.len() == le32(data, 4)
            - data.len(),
{
    lemma_list_bounds(data, 12, PDTA_TAG@);
    let (list, list_start, list_end) = list_from(data, 12, PDTA_TAG@)->0;
    lemma_chunk_bounds(data, list_start + 4, list_end, PHDR_TAG@);
    let (header, start, size) = chunk_from(data, list_start + 4, list_end, PHDR_TAG@)->0;
    lemma_kept_len(data, start, size / 38, size / 38);
    let kept = kept_presets(data, start, size / 38, size / 38);
    let delta = size - kept.len();
    if delta != 0 {
        let joined = data.subrange(0, start) + kept + data.subrange(
            start + size,
            data.len() as int,
        );
        let cut = put_le32(joined, header + 4, kept.len() as int);
        lemma_put_le32(joined, header + 4, kept.len() as int);
        assert forall|i: int| 0 <= i < start && !(header + 4 <= i < header + 8) implies cut[i]
            == data[i] by {
            assert(joined[i] == data[i]);
        }
        lemma_le32_same(data, cut, 4);
        lemma_le32_same(data, cut, list + 4);
        let resized = put_le32(cut, list + 4, le32(cut, list + 4) - delta);
        lemma_put_le32(cut, list + 4, le32(cut, list + 4) - delta);
        lemma_put_le32(resized, 4, le32(cut, 4) - delta);
    }
}

// ---------------------------------------------------------------------------
// Sample loops

/// Start, end, loop start and loop end of the sample header at `record`.
pub open spec fn sample_fields(data: Seq<u8>, record: int) -> (int, int, int, int) {
    (
        le32(data, record + 20),
        le32(data, record + 24),
        le32(data, record + 28),
        le32(data, record + 32),
    )
}

/// `data` with the four fields of the sample header at `record` replaced.
pub open spec fn put_sample_fields(
    data: Seq<u8>,
    record: int,
    fields: (int, int, int, int),
) -> Seq<u8> {
    put_le32(
        put_le32(
            put_le32(put_le32(data, record + 20, fields.0), record + 24, fields.1),
            record + 28,
            fields.2,
        ),
        record + 32,
        fields.3,
    )
}

pub open spec fn least(a: int, b: int) -> int {
    if a <= b {
        a
    } else {
        b
    }
}

pub open spec fn clamped(value: int, low: int, high: int) -> int {
    if value < low {
        low
    } else if value > high {
        high
    } else {
        value
    }
}

/// The fields of a sample header brought into the `count` samples there are. A
/// loop that runs backwards becomes the whole sample. A sample that ends at 0
/// stays as it is.
pub open spec fn fields_fixed(fields: (int, int, int, int), count: int) -> (int, int, int, int) {
    let end = least(fields.1, count);
    if end == 0 {
        fields
    } else {
        let start = least(fields.0, end - 1);
        let (from, to) = if fields.3 <= fields.2 {
            (start, end)
        } else {
            (fields.2, fields.3)
        };
        let start_loop = clamped(from, start, end - 1);
        (start, end, start_loop, clamped(to, start_loop + 1, end))
    }
}

/// `data` with the first `n` of the sample headers at `start` fixed.
pub open spec fn samples_fixed(data: Seq<u8>, start: int, n: int, count: int) -> Seq<u8>
    decreases n,
{
    if n <= 0 {
        data
    } else {
        let before = samples_fixed(data, start, n - 1, count);
        let record = start + (n - 1) * 46;
        put_sample_fields(before, record, fields_fixed(sample_fields(data, record), count))
    }
}

/// Where the sample headers start, how many come before the closing one, and how
/// many samples there are; if the file has both, and the headers are a whole
/// number of records.
pub open spec fn sample_table(data: Seq<u8>) -> Option<(int, int, int)> {
    match (list_from(data, 12, SDTA_TAG@), list_from(data, 12, PDTA_TAG@)) {
        (Some((_, sdta_start, sdta_end)), Some((_, pdta_start, pdta_end))) => match (
            chunk_from(data, sdta_start + 4, sdta_end, SMPL_TAG@),
            chunk_from(data, pdta_start + 4, pdta_end, SHDR_TAG@),
        ) {
            (Some((_, _, smpl_size)), Some((_, start, size))) => if size < 46 || size % 46 != 0
                || smpl_size / 2 == 0 {
                None
            } else {
                Some((start, size / 46 - 1, smpl_size / 2))
            },
            _ => None,
        },
        _ => None,
    }
}

/// The file with its sample loops fixed; unchanged where it has no sample table.
pub open spec fn loops_patched(data: Seq<u8>) -> Seq<u8> {
    match sample_table(data) {
        None => data,
        Some((start, n, count)) => samples_fixed(data, start, n, count),
    }
}

/// A fixed header that has samples plays and loops within them.
pub proof fn lemma_fixed_fields_in_range(fields: (int, int, int, int), count: int)
    requires
        0 < count,
        0 <= fields.0,
        0 < fields.1,
    ensures
        ({
            let (start, end, start_loop, end_loop) = fields_fixed(fields, count);
            0 <= start <= start_loop < end_loop <= end <= count
        }),
{
}

/// Fixing a header twice is fixing it once.
pub proof fn lemma_fields_fixed_twice(fields: (int, int, int, int), count: int)
    requires
        0 < count,
        0 <= fields.0,
        0 <= fields.1,
    ensures
        fields_fixed(fields_fixed(fields, count), count) == fields_fixed(fields, count),
{
}

proof fn lemma_fixed_fits(data: Seq<u8>, record: int, count: int)
    requires
        0 <= count <= u32::MAX,
        0 <= record,
        record + 46 <= data.len(),
    ensures
        ({
            let f = fields_fixed(sample_fields(data, record), count);
            &&& 0 <= f.0 <= u32::MAX
            &&& 0 <= f.1 <= u32::MAX
            &&& 0 <= f.2 <= u32::MAX
            &&& 0 <= f.3 <= u32::MAX
        }),
{
}

/// The four fields can be read back, and only their bytes change.
proof fn lemma_put_sample_fields(data: Seq<u8>, record: int, f: (int, int, int, int))
    requires
        0 <= record,
        record + 46 <= data.len(),
        0 <= f.0 <= u32::MAX,
        0 <= f.1 <= u32::MAX,
        0 <= f.2 <= u32::MAX,
        0 <= f.3 <= u32::MAX,
    ensures
        put_sample_fields(data, record, f).len() == data.len(),
        sample_fields(put_sample_fields(data, record, f), record) == f,
        forall|i: int|
            0 <= i < data.len() && !(record + 20 <= i < record + 36)
                ==> #[trigger] put_sample_fields(data, record, f)[i] == data[i],
{
    let a = put_le32(data, record + 20, f.0);
    let b = put_le32(a, record + 24, f.1);
    let c = put_le32(b, record + 28, f.2);
    let d = put_le32(c, record + 32, f.3);
    lemma_put_le32(data, record + 20, f.0);
    lemma_put_le32(a, record + 24, f.1);
    lemma_put_le32(b, record + 28, f.2);
    lemma_put_le32(c, record + 32, f.3);
    lemma_le32_same(a, d, record + 20);
    lemma_le32_same(b, d, record + 24);
    lemma_le32_same(c, d, record + 28);
}

/// Each of the first `n` headers holds its own fixed fields afterwards, and no
/// byte outside the four fields of those headers changes.
pub proof fn lemma_samples_fixed(data: Seq<u8>, start: int, n: int, count: int)
    requires
        0 <= start,
        0 <= n,
        start + n * 46 <= data.len(),
        0 <= count <= u32::MAX,
    ensures
        samples_fixed(data, start, n, count).len() == data.len(),
        forall|k: int|
            0 <= k < n ==> #[trigger] sample_fields(
                samples_fixed(data, start, n, count),
                start + k * 46,
            ) == fields_fixed(sample_fields(data, start + k * 46), count),
        forall|i: int|
            0 <= i < data.len() && (i < start || start + n * 46 <= i)
                ==> #[trigger] samples_fixed(data, start, n, count)[i] == data[i],
        forall|k: int, j: int|
            0 <= k < n && 0 <= j < 46 && !(20 <= j < 36) ==> #[trigger] samples_fixed(
                data,
                start,
                n,
                count,
            )[start + k * 46 + j] == data[start + k * 46 + j],
    decreases n,
{
    if n > 0 {
        lemma_samples_fixed(data, start, n - 1, count);
        let before = samples_fixed(data, start, n - 1, count);
        let after = samples_fixed(data, start, n, count);
        let record = start + (n - 1) * 46;
        lemma_fixed_fits(data, record, count);
        lemma_put_sample_fields(before, record, fields_fixed(sample_fields(data, record), count));
        assert forall|k: int| 0 <= k < n implies #[trigger] sample_fields(after, start + k * 46)
            == fields_fixed(sample_fields(data, start + k * 46), count) by {
            if k < n - 1 {
                let r = start + k * 46;
                assert(r + 46 <= record);
                lemma_le32_same(before, after, r + 20);
                lemma_le32_same(before, after, r + 24);
                lemma_le32_same(before, after, r + 28);
                lemma_le32_same(before, after, r + 32);
                assert(sample_fields(before, start + k * 46) == fields_fixed(
                    sample_fields(data, start + k * 46),
                    count,
                ));
            }
        }
        assert forall|k: int, j: int|
            0 <= k < n && 0 <= j < 46 && !(20 <= j < 36) implies #[trigger] after[start + k * 46
            + j] == data[start + k * 46 + j] by {
            let i = start + k * 46 + j;
            assert(0 <= i < data.len());
            assert(after[i] == before[i]);
            if k < n - 1 {
                assert(before[start + k * 46 + j] == data[start + k * 46 + j]);
            }
        }
    }
}

/// Brings `fields_fixed` to one header.
fn fix_fields(start: u32, end: u32, start_loop: u32, end_loop: u32, count: u32) -> (r: (
    u32,
    u32,
    u32,
    u32,
))
    requires
        0 < end,
        0 < count,
    ensures
        (r.0 as int, r.1 as int, r.2 as int, r.3 as int) == fields_fixed(
            (start as int, end as int, start_loop as int, end_loop as int),
            count as int,
        ),
{
    let end: u32 = if end <= count {
        end
    } else {
        count
    };
    let start: u32 = if start <= end - 1 {
        start
    } else {
        end - 1
    };
    let (from, to) = if end_loop <= start_loop {
        (start, end)
    } else {
        (start_loop, end_loop)
    };
    let start_loop: u32 = if from < start {
        start
    } else if from > end - 1 {
        end - 1
    } else {
        from
    };
    let end_loop: u32 = if to < start_loop + 1 {
        start_loop + 1
    } else if to > end {
        end
    } else {
        to
    };
    (start, end, start_loop, end_loop)
}

/// Storing the fields that a header already holds changes nothing.
proof fn lemma_put_same_fields(data: Seq<u8>, record: int)
    requires
        0 <= record,
        record + 46 <= data.len(),
    ensures
        put_sample_fields(data, record, sample_fields(data, record)) == data,
{
    lemma_put_same(data, record + 20);
    lemma_put_same(data, record + 24);
    lemma_put_same(data, record + 28);
    lemma_put_same(data, record + 32);
}

/// Fixes the sample header at `record`.
fn fix_sample(data: &mut [u8], record: usize, count: u32)
    requires
        record + 46 <= old(data)@.len(),
        0 < count,
    ensures
        final(data)@ == put_sample_fields(
            old(data)@,
            record as int,
            fields_fixed(sample_fields(old(data)@, record as int), count as int),
        ),
{
    let ghost before = data@;
    let len = data.len();
    if let (Some(start), Some(end), Some(start_loop), Some(end_loop)) = (
        read_u32(data, record + 20),
        read_u32(data, record + 24),
        read_u32(data, record + 28),
        read_u32(data, record + 32),
    ) {
        if end == 0 {
            proof {
                lemma_put_same_fields(before, record as int);
            }
            return;
        }
        let fixed = fix_fields(start, end, start_loop, end_loop, count);
        write_u32(data, record + 20, fixed.0);
        write_u32(data, record + 24, fixed.1);
        write_u32(data, record + 28, fixed.2);
        write_u32(data, record + 32, fixed.3);
    }
}

/// Brings every sample's loop into the samples that the file holds. `None` where
/// the file has no sample table.
pub fn patch_sample_loops(data: &mut [u8]) -> (r: Option<()>)
    ensures
        final(data)@ == loops_patched(old(data)@),
        r is Some <==> sample_table(old(data)@) is Some,
{
    let ghost original = data@;
    let len = data.len();
    let (_, sdta_start, sdta_end) = find_list(data, &SDTA_TAG)?;
    proof {
        lemma_list_bounds(original, 12, SDTA_TAG@);
        lemma_list_bounds(original, 12, PDTA_TAG@);
    }
    let (_, _, smpl_size) = find_chunk(data, sdta_start + 4, sdta_end, &SMPL_TAG)?;
    proof {
        lemma_chunk_bounds(original, sdta_start + 4, sdta_end as int, SMPL_TAG@);
    }
    let count: u32 = (smpl_size / 2) as u32;
    let (_, pdta_start, pdta_end) = find_list(data, &PDTA_TAG)?;
    let (_, shdr_start, shdr_size) = find_chunk(data, pdta_start + 4, pdta_end, &SHDR_TAG)?;
    proof {
        lemma_chunk_bounds(original, pdta_start + 4, pdta_end as int, SHDR_TAG@);
    }
    if shdr_size < 46 || shdr_size % 46 != 0 || count == 0 {
        return None;
    }
    let last = shdr_size / 46 - 1;
    let mut record: usize = shdr_start;
    let mut index: usize = 0;
    while index < last
        invariant
            index <= last,
            record == shdr_start + index * 46,
            shdr_start + last * 46 + 46 <= original.len() == data@.len() == len,
            0 < count,
            data@ == samples_fixed(original, shdr_start as int, index as int, count as int),
        decreases last - index,
    {
        proof {
            lemma_samples_fixed(original, shdr_start as int, index as int, count as int);
            lemma_le32_same(original, data@, record + 20);
            lemma_le32_same(original, data@, record + 24);
            lemma_le32_same(original, data@, record + 28);
            lemma_le32_same(original, data@, record + 32);
        }
        fix_sample(data, record, count);
        record += 46;
        index += 1;
        proof {
            lemma_samples_fixed(original, shdr_start as int, index as int, count as int);
        }
    }
    Some(())
}

// ---------------------------------------------------------------------------
// What fixing the loops leaves alone

/// `a` and `b` hold the same bytes outside of `from` to `to`.
pub open spec fn same_outside(a: Seq<u8>, b: Seq<u8>, from: int, to: int) -> bool {
    &&& a.len() == b.len()
    &&& forall|i: int| 0 <= i < a.len() && !(from <= i < to) ==> a[i] == b[i]
}

proof fn lemma_tag_same(a: Seq<u8>, b: Seq<u8>, offset: int, id: Seq<u8>)
    requires
        0 <= offset,
        offset + 4 <= a.len() == b.len(),
        forall|i: int| offset <= i < offset + 4 ==> a[i] == b[i],
    ensures
        has_tag(a, offset, id) == has_tag(b, offset, id),
{
    assert(a.subrange(offset, offset + 4) =~= b.subrange(offset, offset + 4));
}

/// Behind the changed bytes the walk over the lists sees no change.
proof fn lemma_list_behind(a: Seq<u8>, b: Seq<u8>, offset: int, from: int, to: int, id: Seq<u8>)
    requires
        same_outside(a, b, from, to),
        0 <= to <= offset,
    ensures
        list_from(a, offset, id) == list_from(b, offset, id),
    decreases a.len() + 1 - offset,
{
    if offset + 12 <= a.len() {
        lemma_le32_same(a, b, offset + 4);
        lemma_tag_same(a, b, offset, LIST_TAG@);
        lemma_tag_same(a, b, offset + 8, id);
        let end = offset + 8 + le32(a, offset + 4);
        if end <= a.len() {
            lemma_list_behind(a, b, end + le32(a, offset + 4) % 2, from, to, id);
        }
    }
}

/// A change inside of one list, behind its type, moves no list.
proof fn lemma_lists_stay(
    a: Seq<u8>,
    b: Seq<u8>,
    offset: int,
    from: int,
    to: int,
    around: Seq<u8>,
    id: Seq<u8>,
)
    requires
        0 <= offset,
        same_outside(a, b, from, to),
        list_from(a, offset, around) matches Some((_, start, end)) && start + 4 <= from && to <= end,
    ensures
        list_from(a, offset, id) == list_from(b, offset, id),
    decreases a.len() + 1 - offset,
{
    lemma_list_bounds(a, offset, around);
    let size = le32(a, offset + 4);
    let end = offset + 8 + size;
    let found = list_from(a, offset, around).unwrap();
    if found.0 == offset {
        lemma_le32_same(a, b, offset + 4);
        lemma_tag_same(a, b, offset, LIST_TAG@);
        lemma_tag_same(a, b, offset + 8, id);
        lemma_list_behind(a, b, end + size % 2, from, if to < 0 { 0 } else { to }, id);
    } else {
        lemma_list_bounds(a, end + size % 2, around);
        assert(end <= found.0);
        lemma_le32_same(a, b, offset + 4);
        lemma_tag_same(a, b, offset, LIST_TAG@);
        if size >= 4 {
            lemma_tag_same(a, b, offset + 8, id);
        }
        lemma_lists_stay(a, b, end + size % 2, from, to, around, id);
    }
}

/// Lists of two types do not overlap.
proof fn lemma_lists_apart(data: Seq<u8>, offset: int, one: Seq<u8>, other: Seq<u8>)
    requires
        0 <= offset,
        one != other,
    ensures
        (list_from(data, offset, one), list_from(data, offset, other)) matches (
            Some((start1, _, end1)),
            Some((start2, _, end2)),
        ) ==> end1 <= start2 || end2 <= start1,
    decreases data.len() + 1 - offset,
{
    if offset + 12 <= data.len() {
        let size = le32(data, offset + 4);
        let end = offset + 8 + size;
        if end <= data.len() {
            lemma_list_bounds(data, end + size % 2, one);
            lemma_list_bounds(data, end + size % 2, other);
            lemma_lists_apart(data, end + size % 2, one, other);
        }
    }
}

/// A span without a change holds the chunks that it held.
proof fn lemma_chunks_apart(a: Seq<u8>, b: Seq<u8>, offset: int, end: int, id: Seq<u8>)
    requires
        0 <= offset,
        a.len() == b.len(),
        end <= a.len(),
        forall|i: int| offset <= i < end ==> a[i] == b[i],
    ensures
        chunk_from(a, offset, end, id) == chunk_from(b, offset, end, id),
    decreases end + 1 - offset,
{
    if offset + 8 <= end {
        lemma_le32_same(a, b, offset + 4);
        lemma_tag_same(a, b, offset, id);
        let size = le32(a, offset + 4);
        if offset + 8 + size <= end {
            lemma_chunks_apart(a, b, offset + 8 + size + size % 2, end, id);
        }
    }
}

/// A change inside of a chunk leaves the chunk where it is.
proof fn lemma_chunk_stays(
    a: Seq<u8>,
    b: Seq<u8>,
    offset: int,
    end: int,
    from: int,
    to: int,
    id: Seq<u8>,
)
    requires
        0 <= offset,
        end <= a.len(),
        same_outside(a, b, from, to),
        chunk_from(a, offset, end, id) matches Some((_, payload, size)) && payload <= from,
    ensures
        chunk_from(b, offset, end, id) == chunk_from(a, offset, end, id),
    decreases end + 1 - offset,
{
    lemma_chunk_bounds(a, offset, end, id);
    lemma_le32_same(a, b, offset + 4);
    lemma_tag_same(a, b, offset, id);
    if !has_tag(a, offset, id) {
        let size = le32(a, offset + 4);
        lemma_chunk_stays(a, b, offset + 8 + size + size % 2, end, from, to, id);
    }
}

/// The headers of a file lie within it.
proof fn lemma_table_bounds(data: Seq<u8>)
    ensures
        sample_table(data) matches Some((start, n, count)) ==> {
            &&& 0 <= start
            &&& 0 <= n
            &&& start + n * 46 + 46 <= data.len()
            &&& 0 < count <= u32::MAX
        },
{
    if let Some((start, n, count)) = sample_table(data) {
        lemma_list_bounds(data, 12, SDTA_TAG@);
        lemma_list_bounds(data, 12, PDTA_TAG@);
        let (_, sdta_start, sdta_end) = list_from(data, 12, SDTA_TAG@).unwrap();
        let (_, pdta_start, pdta_end) = list_from(data, 12, PDTA_TAG@).unwrap();
        lemma_chunk_bounds(data, sdta_start + 4, sdta_end, SMPL_TAG@);
        lemma_chunk_bounds(data, pdta_start + 4, pdta_end, SHDR_TAG@);
    }
}

/// A change among the sample headers leaves the table of them where it is.
proof fn lemma_table_stays(a: Seq<u8>, b: Seq<u8>)
    requires
        sample_table(a) matches Some((start, n, _)) && same_outside(a, b, start, start + n * 46),
    ensures
        sample_table(b) == sample_table(a),
{
    let (start, n, _) = sample_table(a).unwrap();
    let to = start + n * 46;
    lemma_list_bounds(a, 12, SDTA_TAG@);
    lemma_list_bounds(a, 12, PDTA_TAG@);
    let (sdta, sdta_start, sdta_end) = list_from(a, 12, SDTA_TAG@).unwrap();
    let (pdta, pdta_start, pdta_end) = list_from(a, 12, PDTA_TAG@).unwrap();
    lemma_chunk_bounds(a, sdta_start + 4, sdta_end, SMPL_TAG@);
    lemma_chunk_bounds(a, pdta_start + 4, pdta_end, SHDR_TAG@);
    lemma_lists_stay(a, b, 12, start, to, PDTA_TAG@, SDTA_TAG@);
    lemma_lists_stay(a, b, 12, start, to, PDTA_TAG@, PDTA_TAG@);
    assert(SDTA_TAG@[0] != PDTA_TAG@[0]);
    lemma_lists_apart(a, 12, SDTA_TAG@, PDTA_TAG@);
    lemma_chunks_apart(a, b, sdta_start + 4, sdta_end, SMPL_TAG@);
    lemma_chunk_stays(a, b, pdta_start + 4, pdta_end, start, to, SHDR_TAG@);
}

/// Headers that are fixed already stay as they are.
proof fn lemma_samples_fixed_stay(data: Seq<u8>, start: int, n: int, count: int)
    requires
        0 <= start,
        0 <= n,
        start + n * 46 <= data.len(),
        forall|k: int|
            0 <= k < n ==> fields_fixed(#[trigger] sample_fields(data, start + k * 46), count)
                == sample_fields(data, start + k * 46),
    ensures
        samples_fixed(data, start, n, count) == data,
    decreases n,
{
    if n > 0 {
        lemma_samples_fixed_stay(data, start, n - 1, count);
        let record = start + (n - 1) * 46;
        assert(fields_fixed(sample_fields(data, start + (n - 1) * 46), count) == sample_fields(
            data,
            record,
        ));
        lemma_put_same_fields(data, record);
    }
}

/// A sample header plays and loops within the `count` samples there are.
pub open spec fn fields_good(fields: (int, int, int, int), count: int) -> bool {
    0 <= fields.0 <= fields.2 < fields.3 <= fields.1 <= count
}

/// What fixing the loops does to a whole file. Each sample header but the closing one
/// plays and loops within the samples afterwards, unless the sample ended at 0. One
/// that did so before keeps all its bytes. No byte outside the four fields of these
/// headers changes, so the tables stay where they are, and to fix the loops again
/// changes nothing.
pub proof fn lemma_loops_patched(data: Seq<u8>)
    ensures
        loops_patched(data).len() == data.len(),
        sample_table(loops_patched(data)) == sample_table(data),
        loops_patched(loops_patched(data)) == loops_patched(data),
        sample_table(data) matches Some((start, n, count)) ==> {
            &&& forall|k: int|
                0 <= k < n && sample_fields(data, start + k * 46).1 != 0 ==> fields_good(
                    #[trigger] sample_fields(loops_patched(data), start + k * 46),
                    count,
                )
            &&& forall|k: int, j: int|
                0 <= k < n && 0 <= j < 46 && (!(20 <= j < 36) || fields_good(
                    sample_fields(data, start + k * 46),
                    count,
                )) ==> #[trigger] loops_patched(data)[start + k * 46 + j] == data[start + k * 46
                    + j]
            &&& same_outside(data, loops_patched(data), start, start + n * 46)
        },
{
    if let Some((start, n, count)) = sample_table(data) {
        lemma_table_bounds(data);
        lemma_samples_fixed(data, start, n, count);
        let after = loops_patched(data);
        lemma_table_stays(data, after);
        assert forall|k: int| 0 <= k < n implies fields_fixed(
            #[trigger] sample_fields(after, start + k * 46),
            count,
        ) == sample_fields(after, start + k * 46) by {
            lemma_fields_fixed_twice(sample_fields(data, start + k * 46), count);
        }
        lemma_samples_fixed_stay(after, start, n, count);
        assert forall|k: int|
            0 <= k < n && sample_fields(data, start + k * 46).1 != 0 implies fields_good(
            #[trigger] sample_fields(after, start + k * 46),
            count,
        ) by {
            lemma_fixed_fields_in_range(sample_fields(data, start + k * 46), count);
        }
        assert forall|k: int, j: int|
            0 <= k < n && 0 <= j < 46 && (!(20 <= j < 36) || fields_good(
                sample_fields(data, start + k * 46),
                count,
            )) implies #[trigger] after[start + k * 46 + j] == data[start + k * 46 + j] by {
            let record = start + k * 46;
            if 20 <= j < 36 {
                assert(sample_fields(after, start + k * 46) == sample_fields(data, record));
                lemma_le32_bytes(after, data, record + 20);
                lemma_le32_bytes(after, data, record + 24);
                lemma_le32_bytes(after, data, record + 28);
                lemma_le32_bytes(after, data, record + 32);
            }
        }
    }
}

/// Repairs the two faults that keep an otherwise usable SoundFont from loading.
pub fn patch_sound_font(data: &mut Vec<u8>)
    ensures
        final(data)@ == loops_patched(presets_patched(old(data)@).0),
{
    let _ = patch_empty_presets(data);
    let _ = patch_sample_loops(data.as_mut_slice());
}

// ---------------------------------------------------------------------------
// Choosing a font

/// A font that the synthesizer has parsed.
#[verifier::external_type_specification]
#[verifier::external_body]
pub struct ExSoundFont(rustysynth::SoundFont);

/// `rustysynth::SoundFont::new` takes a file.
pub uninterp spec fn font_loads(data: Seq<u8>) -> bool;

/// `font` is what `rustysynth::SoundFont::new` makes of a file.
pub uninterp spec fn is_font_of(font: rustysynth::SoundFont, data: Seq<u8>) -> bool;

/// `rustysynth::SoundFont::new` on the bytes of a file, read from their start. The
/// parser reads nothing but these bytes, and whether it takes them is a function of
/// them. It indexes one table by what another one holds, and adds offsets to places in
/// the samples: on a file whose tables do not fit it panics. What the font holds is not
/// said: the samples in it lie in memory as they do in the file, so their values depend
/// on the byte order of the machine.
#[verifier::external_body]
fn load_sound_font(data: &[u8]) -> (r: Option<rustysynth::SoundFont>)
    requires
        font_tables_fit(data@),
    ensures
        r is Some <==> font_loads(data@),
        r matches Some(font) ==> is_font_of(font, data@),
{
    rustysynth::SoundFont::new(&mut std::io::Cursor::new(data)).ok()
}

/// There is a font in a file: its tables fit, and the parser takes it.
pub open spec fn has_font(data: Seq<u8>) -> bool {
    font_tables_fit(data) && font_loads(data)
}

/// The font of a file, where there is one.
pub fn try_sound_font(data: &[u8]) -> (r: Option<rustysynth::SoundFont>)
    ensures
        r is Some <==> has_font(data@),
        r matches Some(font) ==> is_font_of(font, data@),
{
    if tables_fit(data) {
        load_sound_font(data)
    } else {
        None
    }
}

/// Which file the font came from.
#[derive(Debug, Clone, Copy, PartialEq, Eq, Structural)]
pub enum Chosen {
    /// The file that was chosen.
    Custom,
    /// The chosen file with its faults repaired.
    Repaired,
    /// The built-in font.
    BuiltIn,
}

/// The first font that there is: that of the chosen file, that of the repaired file,
/// the built-in one.
pub open spec fn picked_font<F>(
    custom: Option<F>,
    repaired: Option<F>,
    built_in: Option<F>,
) -> Option<(F, Chosen)> {
    match (custom, repaired, built_in) {
        (Some(font), _, _) => Some((font, Chosen::Custom)),
        (None, Some(font), _) => Some((font, Chosen::Repaired)),
        (None, None, Some(font)) => Some((font, Chosen::BuiltIn)),
        (None, None, None) => None,
    }
}

/// The first font that there is, and which one it is.
pub fn pick_font<F>(custom: Option<F>, repaired: Option<F>, built_in: Option<F>) -> (r: Option<
    (F, Chosen),
>)
    ensures
        r == picked_font(custom, repaired, built_in),
{
    if let Some(font) = custom {
        return Some((font, Chosen::Custom));
    }
    if let Some(font) = repaired {
        return Some((font, Chosen::Repaired));
    }
    match built_in {
        Some(font) => Some((font, Chosen::BuiltIn)),
        None => None,
    }
}

/// The file, where there is a font in it.
pub open spec fn with_font(data: Seq<u8>) -> Option<Seq<u8>> {
    if has_font(data) {
        Some(data)
    } else {
        None
    }
}

/// The file whose font is played: the chosen one, else the chosen one with its faults
/// repaired, else the built-in one; the first with a font in it.
pub open spec fn font_choice(custom: Option<Seq<u8>>, built_in: Seq<u8>) -> Option<
    (Seq<u8>, Chosen),
> {
    match custom {
        Some(data) => picked_font(
            with_font(data),
            with_font(loops_patched(presets_patched(data).0)),
            with_font(built_in),
        ),
        None => picked_font(None, None, with_font(built_in)),
    }
}

/// What a file that may be missing holds.
pub open spec fn optional_bytes(data: Option<Vec<u8>>) -> Option<Seq<u8>> {
    match data {
        Some(data) => Some(data@),
        None => None,
    }
}

/// Loads the font to play with. `custom` is the file that was chosen, where there is
/// one that can be read. A file is looked at only where those before it gave no font.
pub fn choose_sound_font(custom: Option<Vec<u8>>, built_in: &[u8]) -> (r: Option<
    (rustysynth::SoundFont, Chosen),
>)
    ensures
        match (font_choice(optional_bytes(custom), built_in@), r) {
            (Some((data, which)), Some((font, chosen))) => is_font_of(font, data) && chosen == which,
            (None, None) => true,
            _ => false,
        },
{
    if let Some(data) = custom {
        let whole = try_sound_font(data.as_slice());
        if whole.is_some() {
            return pick_font(whole, None, None);
        }
        let mut repaired = data;
        patch_sound_font(&mut repaired);
        let repaired = try_sound_font(repaired.as_slice());
        if repaired.is_some() {
            return pick_font(None, repaired, None);
        }
    }
    pick_font(None, None, try_sound_font(built_in))
}

// ---------------------------------------------------------------------------
// What is found and what is changed

/// The four bytes at `offset` are these letters.
pub open spec fn spells(data: Seq<u8>, offset: int, a: char, b: char, c: char, d: char) -> bool {
    &&& data[offset] == a as u8
    &&& data[offset + 1] == b as u8
    &&& data[offset + 2] == c as u8
    &&& data[offset + 3] == d as u8
}

pub(crate) proof fn lemma_tag_bytes(data: Seq<u8>, offset: int, id: Seq<u8>)
    requires
        0 <= offset,
        offset + 4 <= data.len(),
        id.len() == 4,
    ensures
        has_tag(data, offset, id) <==> data[offset] == id[0] && data[offset + 1] == id[1]
            && data[offset + 2] == id[2] && data[offset + 3] == id[3],
{
    let cut = data.subrange(offset, offset + 4);
    assert(cut[0] == data[offset] && cut[1] == data[offset + 1]);
    assert(cut[2] == data[offset + 2] && cut[3] == data[offset + 3]);
    if data[offset] == id[0] && data[offset + 1] == id[1] && data[offset + 2] == id[2]
        && data[offset + 3] == id[3] {
        assert(cut =~= id);
    }
}

/// A tag is found where its letters stand.
pub proof fn lemma_tags_are_their_letters(data: Seq<u8>, offset: int)
    requires
        0 <= offset,
        offset + 4 <= data.len(),
    ensures
        has_tag(data, offset, LIST_TAG@) <==> spells(data, offset, 'L', 'I', 'S', 'T'),
        has_tag(data, offset, PDTA_TAG@) <==> spells(data, offset, 'p', 'd', 't', 'a'),
        has_tag(data, offset, SDTA_TAG@) <==> spells(data, offset, 's', 'd', 't', 'a'),
        has_tag(data, offset, PHDR_TAG@) <==> spells(data, offset, 'p', 'h', 'd', 'r'),
        has_tag(data, offset, SMPL_TAG@) <==> spells(data, offset, 's', 'm', 'p', 'l'),
        has_tag(data, offset, SHDR_TAG@) <==> spells(data, offset, 's', 'h', 'd', 'r'),
{
    lemma_tag_bytes(data, offset, LIST_TAG@);
    lemma_tag_bytes(data, offset, PDTA_TAG@);
    lemma_tag_bytes(data, offset, SDTA_TAG@);
    lemma_tag_bytes(data, offset, PHDR_TAG@);
    lemma_tag_bytes(data, offset, SMPL_TAG@);
    lemma_tag_bytes(data, offset, SHDR_TAG@);
}

/// What is found is what was looked for: a list with the letters LIST and its type, and a
/// chunk with its tag.
pub proof fn lemma_found_chunk_has_its_tag(
    data: Seq<u8>,
    offset: int,
    end: int,
    list_type: Seq<u8>,
    id: Seq<u8>,
)
    requires
        0 <= offset,
        end <= data.len(),
    ensures
        list_from(data, offset, list_type) matches Some((list, start, _)) ==> spells(
            data,
            list,
            'L',
            'I',
            'S',
            'T',
        ) && data.subrange(start, start + 4) == list_type,
        chunk_from(data, offset, end, id) matches Some((header, _, _)) ==> data.subrange(
            header,
            header + 4,
        ) == id,
    decreases data.len() + 1 - offset,
{
    if offset + 8 <= data.len() {
        let size = le32(data, offset + 4);
        lemma_tags_are_their_letters(data, offset);
        if offset + 8 + size <= data.len() {
            lemma_found_chunk_has_its_tag(data, offset + 8 + size + size % 2, end, list_type, id);
        }
    }
}

/// A list or chunk that stands at the front is the one that is found; another one is
/// passed over with its padding.
pub proof fn lemma_first_chunk_is_found(
    data: Seq<u8>,
    offset: int,
    end: int,
    list_type: Seq<u8>,
    id: Seq<u8>,
)
    requires
        0 <= offset,
        offset + 12 <= end <= data.len(),
        offset + 8 + le32(data, offset + 4) <= end,
    ensures
        ({
            let size = le32(data, offset + 4);
            let next = offset + 8 + if size % 2 == 0 {
                size
            } else {
                size + 1
            };
            let is_list = size >= 4 && spells(data, offset, 'L', 'I', 'S', 'T') && data.subrange(
                offset + 8,
                offset + 12,
            ) == list_type;
            &&& is_list ==> list_from(data, offset, list_type) == Some(
                (offset, offset + 8, offset + 8 + size),
            )
            &&& !is_list ==> list_from(data, offset, list_type) == list_from(data, next, list_type)
            &&& data.subrange(offset, offset + 4) == id ==> chunk_from(data, offset, end, id)
                == Some((offset, offset + 8, size))
            &&& data.subrange(offset, offset + 4) != id ==> chunk_from(data, offset, end, id)
                == chunk_from(data, next, end, id)
        }),
{
    lemma_tags_are_their_letters(data, offset);
}

/// A preset is kept, byte for byte and in its place among those that are, if and only if
/// it has a zone: its first zone comes before that of the next one. The closing record
/// stays.
pub proof fn lemma_presets_with_zones_are_kept(data: Seq<u8>, start: int, index: int, count: int)
    requires
        0 <= index < count,
        0 <= start,
        start + count * 38 <= data.len(),
    ensures
        ({
            let record = start + index * 38;
            let first = data[record + 24] + 256 * data[record + 25];
            let next = data[record + 62] + 256 * data[record + 63];
            let before = kept_presets(data, start, index, count);
            let after = kept_presets(data, start, index + 1, count);
            &&& index + 1 == count || first < next ==> after == before + data.subrange(
                record,
                record + 38,
            )
            &&& index + 1 < count && first >= next ==> after == before
        }),
        kept_presets(data, start, 0, count).len() == 0,
{
}

/// The rest of the file moves up behind the presets that are kept, unchanged, and the
/// sizes of their chunk, their list and the file lose what was dropped.
pub proof fn lemma_rest_of_the_file_moves_up(data: Seq<u8>)
    requires
        presets_patched(data).1,
    ensures
        ({
            let (list, list_start, list_end) = list_from(data, 12, PDTA_TAG@)->0;
            let (header, start, size) = chunk_from(data, list_start + 4, list_end, PHDR_TAG@)->0;
            let kept = kept_presets(data, start, size / 38, size / 38);
            let after = presets_patched(data).0;
            &&& after.len() == data.len() - size + kept.len()
            &&& after.subrange(start, start + kept.len()) == kept
            &&& after.skip((start + kept.len()) as int) == data.skip(start + size)
            &&& le32(after, header + 4) == kept.len()
            &&& le32(after, list + 4) == le32(data, list + 4) - (size - kept.len())
            &&& forall|i: int|
                0 <= i < start && !(4 <= i < 8) && !(list + 4 <= i < list + 8) && !(header + 4 <= i
                    < header + 8) ==> #[trigger] after[i] == data[i]
        }),
{
    lemma_list_bounds(data, 12, PDTA_TAG@);
    let (list, list_start, list_end) = list_from(data, 12, PDTA_TAG@)->0;
    lemma_chunk_bounds(data, list_start + 4, list_end, PHDR_TAG@);
    let (header, start, size) = chunk_from(data, list_start + 4, list_end, PHDR_TAG@)->0;
    lemma_kept_len(data, start, size / 38, size / 38);
    let kept = kept_presets(data, start, size / 38, size / 38);
    let delta = size - kept.len();
    let after = presets_patched(data).0;
    if delta != 0 {
        let joined = data.subrange(0, start) + kept + data.subrange(
            start + size,
            data.len() as int,
        );
        let cut = put_le32(joined, header + 4, kept.len() as int);
        lemma_put_le32(joined, header + 4, kept.len() as int);
        assert forall|i: int| 0 <= i < start && !(header + 4 <= i < header + 8) implies cut[i]
            == data[i] by {
            assert(joined[i] == data[i]);
        }
        lemma_le32_same(data, cut, list + 4);
        let resized = put_le32(cut, list + 4, le32(cut, list + 4) - delta);
        lemma_put_le32(cut, list + 4, le32(cut, list + 4) - delta);
        lemma_put_le32(resized, 4, le32(cut, 4) - delta);
        lemma_le32_same(resized, after, list + 4);
        lemma_le32_same(cut, after, header + 4);
        assert forall|i: int| start <= i < after.len() implies #[trigger] after[i] == joined[i] by {
            assert(resized[i] == cut[i]);
        }
        assert(after.subrange(start, start + kept.len()) =~= kept);
        assert(after.skip((start + kept.len()) as int) =~= data.skip(start + size));
    } else {
        lemma_nothing_dropped(data, start, size / 38, size / 38);
        assert(after.subrange(start, start + kept.len()) =~= kept);
    }
}

proof fn lemma_nothing_dropped(data: Seq<u8>, start: int, index: int, count: int)
    requires
        0 <= start,
        0 <= index,
        start + index * 38 <= data.len(),
        kept_presets(data, start, index, count).len() == index * 38,
    ensures
        kept_presets(data, start, index, count) == data.subrange(start, start + index * 38),
    decreases index,
{
    let kept = kept_presets(data, start, index, count);
    if index > 0 {
        lemma_kept_len(data, start, index - 1, count);
        lemma_nothing_dropped(data, start, index - 1, count);
        let record = start + (index - 1) * 38;
        assert(kept =~= data.subrange(start, start + index * 38));
    } else {
        assert(kept =~= data.subrange(start, start + index * 38));
    }
}

/// Only what is out of range is moved, and no further than it must: an end to the last
/// sample, a start to the last sample before the end, a loop that runs forward to its
/// nearest place in the sample. A loop that does not run forward becomes the whole sample.
pub proof fn lemma_fields_move_as_little_as_they_must(fields: (int, int, int, int), count: int)
    requires
        0 < count,
        0 <= fields.0,
        0 < fields.1,
    ensures
        ({
            let (start, end, start_loop, end_loop) = fields_fixed(fields, count);
            &&& fields.1 <= count ==> end == fields.1
            &&& fields.1 > count ==> end == count
            &&& fields.0 < end ==> start == fields.0
            &&& fields.0 >= end ==> start == end - 1
            &&& fields.3 <= fields.2 ==> start_loop == start && end_loop == end
            &&& start <= fields.2 < end && fields.2 < fields.3 ==> start_loop == fields.2
            &&& start <= fields.2 < fields.3 <= end ==> end_loop == fields.3
            &&& start <= fields.2 < end < fields.3 ==> end_loop == end
            &&& fields.2 < start && fields.2 < fields.3 ==> start_loop == start
            &&& fields.2 >= end && fields.2 < fields.3 ==> start_loop == end - 1
        }),
        fields_good(fields, count) ==> fields_fixed(fields, count) == fields,
        forall|a: int, b: int, c: int|
            #[trigger] fields_fixed((a, 0, b, c), count) == (a, 0int, b, c),
{
}

/// The first font that there is, is played: the chosen one before the repaired one, and
/// that one before the built-in one.
pub proof fn lemma_chosen_font_comes_first(custom: Seq<u8>, built_in: Seq<u8>)
    ensures
        has_font(custom) ==> font_choice(Some(custom), built_in) == Some((custom, Chosen::Custom)),
        !has_font(custom) && has_font(loops_patched(presets_patched(custom).0)) ==> font_choice(
            Some(custom),
            built_in,
        ) == Some((loops_patched(presets_patched(custom).0), Chosen::Repaired)),
        !has_font(custom) && !has_font(loops_patched(presets_patched(custom).0)) ==> font_choice(
            Some(custom),
            built_in,
        ) == font_choice(None, built_in),
        has_font(built_in) ==> font_choice(None, built_in) == Some((built_in, Chosen::BuiltIn)),
        !has_font(built_in) ==> font_choice(None, built_in) is None,
{
}

} // verus!
