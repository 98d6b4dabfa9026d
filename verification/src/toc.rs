//! The fixed-size table of contents stored in the first pages of a blob.
//!
//! A `FileToc` maps a logical slot id to the byte extent `[offset,
//! offset + size)` that holds the slot's content.  A slot whose entry is
//! all zero is absent.  The write cursor names the page-aligned position
//! where the next slot's content goes; registering a slot places it at
//! the cursor and advances the cursor by the size rounded up to a whole
//! page, so that extents never overlap and the cursor always equals the
//! table size plus the sum of the rounded slot sizes.

use vstd::prelude::*;
use crate::BLOB_PAGE_SIZE;
use crate::round_up_to_page;
use crate::blob::PageBlob;
use crate::blob::blob_byte;
use crate::blob::blob_window;
use crate::bytes::le32_val;
use crate::bytes::u32_le_byte;
use crate::bytes::u32_image;
use crate::bytes::u32_from_le;
use crate::bytes::push_u32_le;
use crate::bytes::lemma_u32_le_round_trip;

verus! {

/// Largest slot count a table accepts.
pub const MAX_TOC_SLOTS: usize = 0x10_0000;

/// Largest offset + size an entry may claim; entries past it are treated
/// as corrupted, hence absent.
pub const MAX_TOC_EXTENT: u64 = 0x4000_0000;

/// One table entry: the byte extent of a slot's content.
#[derive(Clone, Copy, PartialEq, Eq, Structural, Debug)]
pub struct TocEntry {
    pub offset: u32,
    pub size: u32,
}

/// Bytes the table itself occupies for `slots` entries, rounded up to
/// whole pages.
pub open spec fn toc_size_in_bytes(slots: int) -> int {
    round_up_to_page(8 * slots)
}

/// An entry holds content when its size is non-zero.
pub open spec fn entry_present(e: TocEntry) -> bool {
    e.size > 0
}

/// The entry stored little-endian at slot `i` of a blob's content.
pub open spec fn parsed_entry(data: Seq<u8>, i: int) -> TocEntry {
    TocEntry {
        offset: le32_val(
            blob_byte(data, 8 * i),
            blob_byte(data, 8 * i + 1),
            blob_byte(data, 8 * i + 2),
            blob_byte(data, 8 * i + 3),
        ),
        size: le32_val(
            blob_byte(data, 8 * i + 4),
            blob_byte(data, 8 * i + 5),
            blob_byte(data, 8 * i + 6),
            blob_byte(data, 8 * i + 7),
        ),
    }
}

/// What a read keeps of a stored entry: an entry reaching into the
/// table itself or claiming an impossible extent, or an absent one with
/// a stray offset, reads as absent.
pub open spec fn sanitize(e: TocEntry, floor: int) -> TocEntry {
    if e.size > 0 && floor <= e.offset && e.offset + e.size <= MAX_TOC_EXTENT {
        e
    } else {
        TocEntry { offset: 0, size: 0 }
    }
}

/// Byte `i` of the table's on-blob image.
pub open spec fn toc_image_byte(s: Seq<TocEntry>, i: int) -> u8 {
    let e = i / 8;
    let k = i % 8;
    if 0 <= e < s.len() {
        if k < 4 {
            u32_le_byte(s[e].offset, k)
        } else {
            u32_le_byte(s[e].size, k - 4)
        }
    } else {
        0
    }
}

/// Sum over the present entries of their sizes rounded up to whole pages.
pub open spec fn sum_rounded(s: Seq<TocEntry>) -> int
    decreases s.len(),
{
    if s.len() == 0 {
        0
    } else {
        sum_rounded(s.drop_last()) + if entry_present(s.last()) {
            round_up_to_page(s.last().size as int)
        } else {
            0
        }
    }
}

/// No two present entries claim overlapping byte extents.
pub open spec fn extents_disjoint(s: Seq<TocEntry>) -> bool {
    forall|i: int, j: int|
        0 <= i < s.len() && 0 <= j < s.len() && i != j && entry_present(s[i]) && entry_present(
            s[j],
        ) ==> (s[i].offset + s[i].size <= s[j].offset || s[j].offset + s[j].size <= s[i].offset)
}

/// The write cursor a table restored from a blob starts with: the
/// table size, or the largest rounded-up end of a present entry,
/// whichever is larger.
pub open spec fn restored_cursor(s: Seq<TocEntry>, floor: int) -> int
    decreases s.len(),
{
    if s.len() == 0 {
        floor
    } else {
        let p = restored_cursor(s.drop_last(), floor);
        let e = round_up_to_page(s.last().offset + s.last().size);
        if entry_present(s.last()) && e > p {
            e
        } else {
            p
        }
    }
}

pub struct FileToc {
    pub entries: Vec<TocEntry>,
    pub write_position: usize,
}

impl FileToc {
    /// Structural well-formedness: every present extent lies below the
    /// cursor, the cursor is page-aligned and bounded, and absent
    /// entries are fully zero.
    pub open spec fn wf(&self) -> bool {
        &&& self.entries.len() <= MAX_TOC_SLOTS
        &&& toc_size_in_bytes(self.entries.len() as int) <= self.write_position
        &&& self.write_position <= MAX_TOC_EXTENT
        &&& self.write_position as int % (BLOB_PAGE_SIZE as int) == 0
        &&& forall|i: int|
            0 <= i < self.entries.len() && entry_present(self.entries@[i])
                ==> self.entries@[i].offset + self.entries@[i].size <= self.write_position
        &&& forall|i: int|
            0 <= i < self.entries.len() && entry_present(self.entries@[i])
                ==> self.entries@[i].offset >= toc_size_in_bytes(self.entries.len() as int)
        &&& forall|i: int|
            0 <= i < self.entries.len() && !entry_present(self.entries@[i])
                ==> self.entries@[i].offset == 0
    }

    /// A table every slot of which was placed through `register_slot`:
    /// extents are disjoint, start past the table, and the cursor equals
    /// the table size plus the sum of the rounded slot sizes.
    pub open spec fn consistent(&self) -> bool {
        &&& self.wf()
        &&& extents_disjoint(self.entries@)
        &&& self.write_position == toc_size_in_bytes(self.entries.len() as int) + sum_rounded(
            self.entries@,
        )
    }

    /// A fresh table with `slots` absent entries.
    pub fn create_new(slots: usize) -> (r: FileToc)
        requires
            slots <= MAX_TOC_SLOTS,
        ensures
            r.wf(),
            r.consistent(),
            r.entries.len() == slots,
            forall|i: int| 0 <= i < slots ==> r.entries@[i] == (TocEntry { offset: 0, size: 0 }),
            r.write_position == toc_size_in_bytes(slots as int),
    {
        let mut entries: Vec<TocEntry> = Vec::new();
        while entries.len() < slots
            invariant
                entries.len() <= slots,
                slots <= MAX_TOC_SLOTS,
                forall|i: int|
                    0 <= i < entries.len() ==> entries@[i] == (TocEntry { offset: 0, size: 0 }),
                sum_rounded(entries@) == 0,
            decreases slots - entries.len(),
        {
            let ghost prev = entries@;
            entries.push(TocEntry { offset: 0, size: 0 });
            proof {
                assert(entries@.drop_last() =~= prev);
            }
        }
        let write_position = crate::round_up_bytes(8 * slots);
        FileToc { entries, write_position }
    }

    pub fn slot_count(&self) -> (r: usize)
        ensures
            r == self.entries.len(),
    {
        self.entries.len()
    }

    /// The extent registered for `slot`.
    pub fn get_position(&self, slot: usize) -> (r: TocEntry)
        requires
            slot < self.entries.len(),
        ensures
            r == self.entries@[slot as int],
    {
        self.entries[slot]
    }

    /// Whether `slot` holds content, by its table entry alone; whether
    /// that content is sane enough to serve is the read path's separate
    /// size guard.
    pub fn has_content(&self, slot: usize) -> (r: bool)
        requires
            slot < self.entries.len(),
        ensures
            r == entry_present(self.entries@[slot as int]),
    {
        self.entries[slot].size > 0
    }

    pub fn get_write_position(&self) -> (r: usize)
        ensures
            r == self.write_position,
    {
        self.write_position
    }

    /// Registers content of `size` bytes for the absent `slot`: the
    /// content is placed at the current cursor and the cursor advances
    /// by the size rounded up to a whole page.  Returns the index of the
    /// table page that now differs from its on-blob image.
    pub fn register_slot(&mut self, slot: usize, size: u32) -> (dirty_page: usize)
        requires
            old(self).wf(),
            slot < old(self).entries.len(),
            !entry_present(old(self).entries@[slot as int]),
            size > 0,
            old(self).write_position + size + BLOB_PAGE_SIZE <= MAX_TOC_EXTENT,
        ensures
            final(self).wf(),
            final(self).entries@ =~= old(self).entries@.update(
                slot as int,
                TocEntry { offset: old(self).write_position as u32, size },
            ),
            final(self).write_position == old(self).write_position + round_up_to_page(size as int),
            dirty_page == slot / 64,
            old(self).consistent() ==> final(self).consistent(),
    {
        let offset = self.write_position as u32;
        let entry = TocEntry { offset, size };
        let ghost prev = self.entries@;
        self.entries.set(slot, entry);
        self.write_position = self.write_position + crate::round_up_bytes(size as usize);
        proof {
            if extents_disjoint(prev) && old(self).write_position == toc_size_in_bytes(
                prev.len() as int,
            ) + sum_rounded(prev) {
                lemma_sum_rounded_update(prev, slot as int, entry);
            }
        }
        slot / 64
    }

    /// Loads the table stored in the first pages of `blob`.  Bytes past
    /// the blob's end read as zero; an entry claiming an impossible
    /// extent is kept as absent; the cursor restarts past every present
    /// extent, rounded up to a whole page.
    #[verifier::rlimit(100)]
    pub fn read_toc(blob: &PageBlob, slots: usize) -> (r: FileToc)
        requires
            blob.wf(),
            slots <= MAX_TOC_SLOTS,
        ensures
            r.wf(),
            r.entries.len() == slots,
            forall|i: int|
                0 <= i < slots ==> r.entries@[i] == sanitize(
                    parsed_entry(blob.data@, i),
                    toc_size_in_bytes(slots as int),
                ),
            r.write_position == restored_cursor(r.entries@, toc_size_in_bytes(slots as int)),
    {
        let floor = crate::round_up_bytes(8 * slots);
        let mut entries: Vec<TocEntry> = Vec::new();
        while entries.len() < slots
            invariant
                blob.wf(),
                entries.len() <= slots,
                slots <= MAX_TOC_SLOTS,
                floor == toc_size_in_bytes(slots as int),
                forall|i: int|
                    0 <= i < entries.len() ==> entries@[i] == sanitize(
                        parsed_entry(blob.data@, i),
                        floor as int,
                    ),
            decreases slots - entries.len(),
        {
            let i = entries.len();
            let base = 8 * i;
            let offset = u32_from_le(
                blob.byte_at(base),
                blob.byte_at(base + 1),
                blob.byte_at(base + 2),
                blob.byte_at(base + 3),
            );
            let size = u32_from_le(
                blob.byte_at(base + 4),
                blob.byte_at(base + 5),
                blob.byte_at(base + 6),
                blob.byte_at(base + 7),
            );
            let entry = if size > 0 && floor as u64 <= offset as u64 && offset as u64
                + size as u64 <= MAX_TOC_EXTENT {
                TocEntry { offset, size }
            } else {
                TocEntry { offset: 0, size: 0 }
            };
            entries.push(entry);
        }
        let mut write_position: usize = floor;
        let mut i: usize = 0;
        proof {
            assert(entries@.take(0) =~= Seq::<TocEntry>::empty());
        }
        while i < slots
            invariant
                i <= slots == entries.len(),
                floor == toc_size_in_bytes(slots as int),
                floor as int % (BLOB_PAGE_SIZE as int) == 0,
                floor <= write_position <= MAX_TOC_EXTENT,
                write_position as int % (BLOB_PAGE_SIZE as int) == 0,
                forall|j: int|
                    0 <= j < entries.len() && entry_present(entries@[j])
                        ==> entries@[j].offset >= floor && entries@[j].offset + entries@[j].size
                        <= MAX_TOC_EXTENT,
                forall|j: int|
                    0 <= j < entries.len() && !entry_present(entries@[j])
                        ==> entries@[j].offset == 0,
                forall|j: int|
                    0 <= j < i && entry_present(entries@[j]) ==> entries@[j].offset
                        + entries@[j].size <= write_position,
                write_position == restored_cursor(entries@.take(i as int), floor as int),
            decreases slots - i,
        {
            proof {
                assert(entries@.take(i as int + 1).drop_last() =~= entries@.take(i as int));
                assert(entries@.take(i as int + 1).last() == entries@[i as int]);
            }
            let entry = entries[i];
            if entry.size > 0 {
                let end = crate::round_up_bytes((entry.offset + entry.size) as usize);
                if end > write_position {
                    write_position = end;
                }
            }
            i = i + 1;
        }
        proof {
            assert(entries@.take(slots as int) =~= entries@);
        }
        FileToc { entries, write_position }
    }

    /// The bytes of `page_count` table pages starting at table page
    /// `page_from`, ready for the store's page write.
    pub fn get_toc_pages(&self, page_from: usize, page_count: usize) -> (r: Vec<u8>)
        requires
            self.entries.len() <= MAX_TOC_SLOTS,
            page_from * 64 + page_count * 64 <= 0x1000_0000,
        ensures
            r.len() == page_count * BLOB_PAGE_SIZE,
            forall|j: int|
                0 <= j < r.len() ==> r@[j] == toc_image_byte(
                    self.entries@,
                    page_from * (BLOB_PAGE_SIZE as int) + j,
                ),
    {
        let mut out: Vec<u8> = Vec::new();
        let start: usize = page_from * 64;
        let stop: usize = start + page_count * 64;
        let mut e: usize = start;
        while e < stop
            invariant
                start <= e <= stop,
                start == page_from * 64,
                stop == start + page_count * 64,
                stop <= 0x1000_0000,
                out.len() == 8 * (e - start),
                forall|j: int|
                    0 <= j < out.len() ==> out@[j] == toc_image_byte(
                        self.entries@,
                        8 * (start as int) + j,
                    ),
            decreases stop - e,
        {
            let ghost before = out@;
            if e < self.entries.len() {
                let entry = self.entries[e];
                push_u32_le(&mut out, entry.offset);
                push_u32_le(&mut out, entry.size);
            } else {
                let mut k: usize = 0;
                while k < 8
                    invariant
                        k <= 8,
                        out@ =~= before + Seq::new(k as nat, |x: int| 0u8),
                    decreases 8 - k,
                {
                    out.push(0);
                    k = k + 1;
                }
            }
            proof {
                lemma_toc_image_entry_bytes(self.entries@, e as int);
                assert forall|j: int| 0 <= j < out.len() implies out@[j] == toc_image_byte(
                    self.entries@,
                    8 * (start as int) + j,
                ) by {
                    if j >= before.len() {
                        let k = j - 8 * (e as int - start as int);
                        assert(8 * (start as int) + j == 8 * (e as int) + k);
                    }
                }
            }
            e = e + 1;
        }
        out
    }
}

/// The eight image bytes of entry `e` are the little-endian images of
/// its offset and size, or zero past the table's end.
pub proof fn lemma_toc_image_entry_bytes(s: Seq<TocEntry>, e: int)
    requires
        e >= 0,
    ensures
        forall|k: int|
            0 <= k < 8 ==> toc_image_byte(s, 8 * e + k) == (if 0 <= e < s.len() {
                if k < 4 {
                    u32_le_byte(s[e].offset, k)
                } else {
                    u32_le_byte(s[e].size, k - 4)
                }
            } else {
                0u8
            }),
{
    assert forall|k: int| 0 <= k < 8 implies toc_image_byte(s, 8 * e + k) == (if 0 <= e < s.len() {
        if k < 4 {
            u32_le_byte(s[e].offset, k)
        } else {
            u32_le_byte(s[e].size, k - 4)
        }
    } else {
        0u8
    }) by {
        assert((8 * e + k) / 8 == e && (8 * e + k) % 8 == k) by (nonlinear_arith)
            requires
                e >= 0,
                0 <= k < 8,
        ;
    }
}

/// Updating an absent slot with a present entry grows the rounded sum by
/// exactly that entry's rounded size.
pub proof fn lemma_sum_rounded_update(s: Seq<TocEntry>, i: int, e: TocEntry)
    requires
        0 <= i < s.len(),
        !entry_present(s[i]),
        entry_present(e),
    ensures
        sum_rounded(s.update(i, e)) == sum_rounded(s) + round_up_to_page(e.size as int),
    decreases s.len(),
{
    if i == s.len() - 1 {
        assert(s.update(i, e).drop_last() =~= s.drop_last());
    } else {
        lemma_sum_rounded_update(s.drop_last(), i, e);
        assert(s.update(i, e).drop_last() =~= s.drop_last().update(i, e));
    }
}

/// A blob region that holds the image of a well-formed table parses back
/// to exactly the table's entries.
pub proof fn lemma_parse_of_image(s: Seq<TocEntry>, data: Seq<u8>, i: int, floor: int)
    requires
        0 <= i < s.len(),
        forall|k: int| 8 * i <= k < 8 * i + 8 ==> blob_byte(data, k) == toc_image_byte(s, k),
        entry_present(s[i]) ==> s[i].offset + s[i].size <= MAX_TOC_EXTENT && s[i].offset >= floor,
        !entry_present(s[i]) ==> s[i].offset == 0,
        floor >= 0,
    ensures
        sanitize(parsed_entry(data, i), floor) == s[i],
{
    lemma_toc_image_entry_bytes(s, i);
    lemma_u32_le_round_trip(s[i].offset);
    lemma_u32_le_round_trip(s[i].size);
    assert(parsed_entry(data, i).offset == s[i].offset);
    assert(parsed_entry(data, i).size == s[i].size);
}

/// The table equals what parsing the blob's first pages yields: the
/// invariant that makes reopening a blob restore the same table.
pub open spec fn toc_mirrors_blob(toc: FileToc, data: Seq<u8>) -> bool {
    forall|i: int|
        0 <= i < toc.entries.len() ==> toc.entries@[i] == sanitize(
            parsed_entry(data, i),
            toc_size_in_bytes(toc.entries.len() as int),
        )
}

/// Places `bytes` as the content of the absent `slot`: the bytes go to
/// the cursor, the slot's entry is registered, and only the table page
/// containing the slot is rewritten on the blob.  Every other slot's
/// extent bytes are untouched.
#[verifier::rlimit(100)]
pub fn store_slot(toc: &mut FileToc, blob: &mut PageBlob, slot: usize, bytes: &Vec<u8>)
    requires
        old(toc).wf(),
        old(blob).wf(),
        toc_mirrors_blob(*old(toc), old(blob).data@),
        slot < old(toc).entries.len(),
        !entry_present(old(toc).entries@[slot as int]),
        0 < bytes.len(),
        old(toc).write_position + bytes.len() + BLOB_PAGE_SIZE <= MAX_TOC_EXTENT,
        (slot as int / 64 + 1) * (BLOB_PAGE_SIZE as int) <= toc_size_in_bytes(
            old(toc).entries.len() as int,
        ),
    ensures
        final(toc).wf(),
        final(blob).wf(),
        toc_mirrors_blob(*final(toc), final(blob).data@),
        final(toc).entries@ =~= old(toc).entries@.update(
            slot as int,
            TocEntry { offset: old(toc).write_position as u32, size: bytes.len() as u32 },
        ),
        final(toc).write_position == old(toc).write_position + round_up_to_page(
            bytes.len() as int,
        ),
        old(toc).consistent() ==> final(toc).consistent(),
        blob_window(
            final(blob).data@,
            old(toc).write_position as int,
            bytes.len() as int,
        ) =~= bytes@,
        forall|off: int, sz: int|
            toc_size_in_bytes(old(toc).entries.len() as int) <= off && 0 <= sz && off + sz <= old(
                toc,
            ).write_position ==> blob_window(final(blob).data@, off, sz) =~= blob_window(
                old(blob).data@,
                off,
                sz,
            ),
        forall|k: int|
            0 <= k && !(old(toc).write_position <= k < old(toc).write_position + bytes.len())
                && !((slot as int / 64) * (BLOB_PAGE_SIZE as int) <= k < (slot as int / 64 + 1) * (
            BLOB_PAGE_SIZE as int)) ==> #[trigger] blob_byte(final(blob).data@, k) == blob_byte(
                old(blob).data@,
                k,
            ),
{
    let ghost floor = toc_size_in_bytes(old(toc).entries.len() as int);
    let wp = toc.get_write_position();
    let flen = bytes.len();
    let ghost data0 = blob.data@;
    let ghost ent0 = toc.entries@;
    blob.write_at_position(wp, bytes);
    let ghost data1 = blob.data@;
    let dirty = toc.register_slot(slot, flen as u32);
    let ghost ent1 = toc.entries@;
    let toc_page = toc.get_toc_pages(dirty, 1);
    blob.save_pages(dirty, &toc_page);
    let ghost data2 = blob.data@;
    proof {
        let sloti = slot as int;
        let wpi = wp as int;
        let fl = flen as int;
        let d = dirty as int;
        assert(d == sloti / 64);
        assert((d + 1) * (BLOB_PAGE_SIZE as int) <= floor);
        assert(floor <= wpi);
        assert(data1.len() >= wpi + fl);
        assert(data2.len() == data1.len());
        assert forall|k: int|
            0 <= k < floor && !(d * (BLOB_PAGE_SIZE as int) <= k < (d + 1) * (
            BLOB_PAGE_SIZE as int)) implies blob_byte(data2, k) == blob_byte(data0, k) by {
            assert(blob_byte(data1, k) == blob_byte(data0, k));
            assert(blob_byte(data2, k) == blob_byte(data1, k));
        }
        assert forall|k: int|
            d * (BLOB_PAGE_SIZE as int) <= k < (d + 1) * (BLOB_PAGE_SIZE as int) implies blob_byte(
            data2,
            k,
        ) == toc_image_byte(ent1, k) by {
            let j = k - d * (BLOB_PAGE_SIZE as int);
            assert(data2[d * (BLOB_PAGE_SIZE as int) + j] == toc_page@[j]);
            assert(toc_page@[j] == toc_image_byte(ent1, d * (BLOB_PAGE_SIZE as int) + j));
        }
        assert forall|i: int| 0 <= i < ent1.len() implies ent1[i] == sanitize(
            parsed_entry(data2, i),
            floor,
        ) by {
            if 64 * d <= i < 64 * (d + 1) {
                assert forall|k: int| 8 * i <= k < 8 * i + 8 implies blob_byte(data2, k)
                    == toc_image_byte(ent1, k) by {
                    assert(d * (BLOB_PAGE_SIZE as int) <= k < (d + 1) * (
                    BLOB_PAGE_SIZE as int)) by (nonlinear_arith)
                        requires
                            64 * d <= i < 64 * (d + 1),
                            8 * i <= k < 8 * i + 8,
                    ;
                }
                lemma_parse_of_image(ent1, data2, i, floor);
            } else {
                assert(8 * i + 8 <= 8 * ent1.len());
                assert(8 * ent1.len() <= floor);
                assert(8 * i + 8 <= d * (BLOB_PAGE_SIZE as int) || 8 * i >= (d + 1) * (
                BLOB_PAGE_SIZE as int)) by (nonlinear_arith)
                    requires
                        !(64 * d <= i < 64 * (d + 1)),
                        0 <= i,
                        0 <= d,
                ;
                assert forall|k: int| 8 * i <= k < 8 * i + 8 implies blob_byte(data2, k)
                    == blob_byte(data0, k) by {
                    assert(!(d * (BLOB_PAGE_SIZE as int) <= k < (d + 1) * (
                    BLOB_PAGE_SIZE as int))) by (nonlinear_arith)
                        requires
                            8 * i <= k < 8 * i + 8,
                            8 * i + 8 <= d * (BLOB_PAGE_SIZE as int) || 8 * i >= (d + 1) * (
                            BLOB_PAGE_SIZE as int),
                    ;
                }
                assert(parsed_entry(data2, i) == parsed_entry(data0, i));
                assert(ent1[i] == ent0[i]);
            }
        }
        assert forall|j: int| 0 <= j < fl implies #[trigger] blob_byte(data2, wpi + j)
            == bytes@[j] by {
            assert(data1[wpi + j] == bytes@[j]);
            assert(blob_byte(data2, wpi + j) == blob_byte(data1, wpi + j));
        }
        assert forall|off: int, sz: int|
            floor <= off && 0 <= sz && off + sz <= wpi implies #[trigger] blob_window(
            data2,
            off,
            sz,
        ) =~= blob_window(data0, off, sz) by {
            assert forall|j: int| 0 <= j < sz implies #[trigger] blob_byte(data2, off + j)
                == blob_byte(data0, off + j) by {
                assert(blob_byte(data1, off + j) == blob_byte(data0, off + j));
                assert(blob_byte(data2, off + j) == blob_byte(data1, off + j));
            }
        }
        assert forall|k: int|
            0 <= k && !(wpi <= k < wpi + fl) && !(d * (BLOB_PAGE_SIZE as int) <= k < (d + 1) * (
            BLOB_PAGE_SIZE as int)) implies blob_byte(data2, k) == blob_byte(data0, k) by {
            assert(blob_byte(data1, k) == blob_byte(data0, k));
            assert(blob_byte(data2, k) == blob_byte(data1, k));
        }
    }
}

} // verus!
