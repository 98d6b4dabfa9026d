//! Byte-level model of one 512-byte-page blob.
//!
//! A `PageBlob` holds the full content of one blob of the object store as
//! a vector of bytes whose length is always a whole number of pages.
//! Reads past the current length yield zero bytes, as a page-blob store
//! hands back zeroed pages for never-written ranges; writes extend the
//! blob with zero padding so that the length stays page-aligned.

use vstd::prelude::*;
use crate::BLOB_PAGE_SIZE;
use crate::round_up_to_page;

verus! {

/// The byte a read yields at position `i` of a blob whose content is `data`:
/// the stored byte inside the blob, zero beyond its end.
pub open spec fn blob_byte(data: Seq<u8>, i: int) -> u8 {
    if 0 <= i < data.len() {
        data[i]
    } else {
        0
    }
}

/// The `size` bytes a read of `[offset, offset + size)` yields.
pub open spec fn blob_window(data: Seq<u8>, offset: int, size: int) -> Seq<u8> {
    Seq::new(size as nat, |i: int| blob_byte(data, offset + i))
}

pub struct PageBlob {
    pub data: Vec<u8>,
}

impl PageBlob {
    /// The blob length is a whole number of pages, and stays addressable.
    pub open spec fn wf(&self) -> bool {
        &&& self.data.len() as int % (BLOB_PAGE_SIZE as int) == 0
        &&& self.data.len() <= 0x4000_0000
    }

    /// A brand new blob holds no pages.
    pub fn create_new() -> (r: PageBlob)
        ensures
            r.wf(),
            r.data@ =~= Seq::<u8>::empty(),
    {
        PageBlob { data: Vec::new() }
    }

    pub fn len_in_bytes(&self) -> (r: usize)
        ensures
            r == self.data.len(),
    {
        self.data.len()
    }

    /// The single byte a read at position `i` yields.
    pub fn byte_at(&self, i: usize) -> (r: u8)
        ensures
            r == blob_byte(self.data@, i as int),
    {
        if i < self.data.len() {
            self.data[i]
        } else {
            0
        }
    }

    /// Reads `size` bytes starting at `offset`; bytes past the end of the
    /// blob read as zero, as the store's never-written pages do.
    pub fn read_from_position(&self, offset: usize, size: usize) -> (r: Vec<u8>)
        requires
            self.wf(),
            offset + size <= usize::MAX,
        ensures
            r@ =~= blob_window(self.data@, offset as int, size as int),
    {
        let mut result: Vec<u8> = Vec::new();
        let mut i: usize = 0;
        while i < size
            invariant
                i <= size,
                offset + size <= usize::MAX,
                result@ =~= blob_window(self.data@, offset as int, i as int),
            decreases size - i,
        {
            let pos = offset + i;
            if pos < self.data.len() {
                let b = self.data[pos];
                result.push(b);
            } else {
                result.push(0);
            }
            i = i + 1;
        }
        result
    }

    /// Writes `bytes` at `offset`, extending the blob with zero padding to
    /// the next page boundary when the write reaches past the current end.
    pub fn write_at_position(&mut self, offset: usize, bytes: &Vec<u8>)
        requires
            old(self).wf(),
            offset + bytes.len() + BLOB_PAGE_SIZE <= 0x4000_0000,
        ensures
            final(self).wf(),
            final(self).data.len() == if offset + bytes.len() <= old(self).data.len() {
                old(self).data.len() as int
            } else {
                round_up_to_page(offset + bytes.len())
            },
            forall|i: int| 0 <= i < bytes.len() ==> final(self).data@[offset + i] == bytes@[i],
            forall|i: int|
                0 <= i < final(self).data.len() && !(offset <= i < offset + bytes.len())
                    ==> final(self).data@[i] == blob_byte(old(self).data@, i),
    {
        let end = offset + bytes.len();
        if end > self.data.len() {
            let target = crate::round_up_bytes(end);
            while self.data.len() < target
                invariant
                    target % BLOB_PAGE_SIZE == 0,
                    target <= 0x4000_0000,
                    old(self).data.len() <= self.data.len() <= target
                        || self.data.len() <= target,
                    self.data.len() <= target,
                    self.data@.len() >= old(self).data@.len(),
                    forall|i: int| 0 <= i < old(self).data.len()
                        ==> self.data@[i] == old(self).data@[i],
                    forall|i: int| old(self).data.len() <= i < self.data.len()
                        ==> self.data@[i] == 0,
                decreases target - self.data.len(),
            {
                self.data.push(0);
            }
        }
        let mut i: usize = 0;
        while i < bytes.len()
            invariant
                i <= bytes.len(),
                offset + bytes.len() <= self.data.len(),
                self.data.len() == if offset + bytes@.len() <= old(self).data.len() {
                    old(self).data.len() as int
                } else {
                    round_up_to_page(offset + bytes@.len())
                },
                self.data.len() as int % (BLOB_PAGE_SIZE as int) == 0,
                self.data.len() <= 0x4000_0000,
                forall|j: int| 0 <= j < i ==> self.data@[offset + j] == bytes@[j],
                forall|j: int|
                    0 <= j < self.data.len() && !(offset <= j < offset + i)
                        ==> self.data@[j] == blob_byte(old(self).data@, j),
            decreases bytes.len() - i,
        {
            let b = bytes[i];
            self.data.set(offset + i, b);
            i = i + 1;
        }
    }

    /// Writes whole pages starting at page `page_no`; the unit the store's
    /// `save_pages` call takes.
    pub fn save_pages(&mut self, page_no: usize, pages: &Vec<u8>)
        requires
            old(self).wf(),
            pages.len() as int % (BLOB_PAGE_SIZE as int) == 0,
            page_no * BLOB_PAGE_SIZE + pages.len() + BLOB_PAGE_SIZE <= 0x4000_0000,
        ensures
            final(self).wf(),
            final(self).data.len() == if page_no * BLOB_PAGE_SIZE + pages.len() <= old(
                self,
            ).data.len() {
                old(self).data.len() as int
            } else {
                round_up_to_page(page_no * BLOB_PAGE_SIZE + pages.len())
            },
            forall|i: int|
                0 <= i < pages.len()
                    ==> final(self).data@[page_no * BLOB_PAGE_SIZE + i] == pages@[i],
            forall|i: int|
                0 <= i < final(self).data.len()
                    && !(page_no * BLOB_PAGE_SIZE <= i < page_no * BLOB_PAGE_SIZE + pages.len())
                    ==> final(self).data@[i] == blob_byte(old(self).data@, i),
    {
        self.write_at_position(page_no * BLOB_PAGE_SIZE, pages);
    }
}

/// The store takes at most `max_pages` pages per round trip; a larger
/// write is cut into rounds.  Round `i` starts `i` full runs past
/// `offset` and carries a full run, or what is left.
pub fn plan_write_rounds(offset: usize, len: usize, max_pages: usize) -> (r: Vec<(usize, usize)>)
    requires
        0 < max_pages <= 0x10_0000,
        offset + len <= 0x4000_0000,
    ensures
        ({
            let cap = max_pages * (BLOB_PAGE_SIZE as int);
            &&& r@.len() == (len + cap - 1) / cap
            &&& forall|i: int|
                0 <= i < r@.len() ==> (#[trigger] r@[i]).0 == offset + i * cap
            &&& forall|i: int|
                0 <= i < r@.len() ==> (#[trigger] r@[i]).1 == if len - i * cap < cap {
                    len - i * cap
                } else {
                    cap as int
                }
        }),
{
    let cap = max_pages * BLOB_PAGE_SIZE;
    let mut out: Vec<(usize, usize)> = Vec::new();
    let mut done: usize = 0;
    while done < len
        invariant
            0 < cap == max_pages * (BLOB_PAGE_SIZE as int),
            cap <= 0x2000_0000,
            offset + len <= 0x4000_0000,
            done == if out@.len() == 0 {
                0int
            } else {
                (out@.len() - 1) * cap + out@[out@.len() - 1].1
            },
            out@.len() > 0 ==> (out@.len() - 1) * cap < len,
            done <= len,
            forall|i: int| 0 <= i < out@.len() ==> (#[trigger] out@[i]).0 == offset + i * cap,
            forall|i: int|
                0 <= i < out@.len() ==> (#[trigger] out@[i]).1 == if len - i * cap < cap {
                    len - i * cap
                } else {
                    cap as int
                },
        decreases len - done,
    {
        let ghost n0 = out@.len() as int;
        proof {
            if n0 > 0 {
                if len - (n0 - 1) * (cap as int) < cap {
                    assert(done == len);
                }
                assert(done == (n0 - 1) * (cap as int) + cap == n0 * (cap as int))
                    by (nonlinear_arith)
                    requires
                        done == (n0 - 1) * (cap as int) + (cap as int),
                ;
            }
            assert(done == n0 * (cap as int));
        }
        let step = if len - done < cap {
            len - done
        } else {
            cap
        };
        out.push((offset + done, step));
        proof {
            assert(n0 * cap + cap == (n0 + 1) * cap) by (nonlinear_arith);
        }
        done = done + step;
    }
    proof {
        let capg = cap as int;
        let n = out@.len() as int;
        if n == 0 {
            assert((len + capg - 1) / capg == 0) by (nonlinear_arith)
                requires
                    capg > 0,
                    len == 0,
            ;
        } else {
            assert(len <= n * capg) by (nonlinear_arith)
                requires
                    len == (n - 1) * capg + out@[n - 1].1,
                    out@[n - 1].1 <= capg,
            ;
            assert(n == (len + capg - 1) / capg) by (nonlinear_arith)
                requires
                    capg > 0,
                    (n - 1) * capg < len <= n * capg,
            ;
        }
    }
    out
}

} // verus!
