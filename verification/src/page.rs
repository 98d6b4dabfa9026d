//! The uncompressed page: one blob holding the messages of one logical
//! page, each message's record in its own slot of a per-page table of
//! contents, plus the in-memory buffer of messages appended but not yet
//! flushed.

use vstd::prelude::*;
use crate::BLOB_PAGE_SIZE;
use crate::MESSAGES_PER_PAGE;
use crate::blob::PageBlob;
use crate::blob::blob_window;
use crate::toc::FileToc;
use crate::toc::TocEntry;
use crate::toc::entry_present;
use crate::toc::toc_size_in_bytes;
use crate::toc::toc_mirrors_blob;
use crate::toc::store_slot;
use crate::toc::MAX_TOC_EXTENT;
use crate::msg::MessageToPersist;
use crate::msg::MessageModel;
use crate::msg::wf_message;
use crate::msg::page_id_of;
use crate::msg::slot_in_page;
use crate::msg::message_slot_in_page;
use crate::msg::clone_message;
use crate::codec::dec_message;
use crate::codec::message_encoding;
use crate::codec::encode_message;
use crate::codec::decode_message;
use crate::codec::lemma_message_round_trip;
use crate::codec::lemma_encoding_len;

verus! {

/// Cap a page slot's claimed size is held to: the largest record a
/// well-formed message can encode to.
pub const MAX_RECORD_SIZE: u32 = 0x2800_0000;

/// Why a flush stopped.
#[derive(Debug, PartialEq, Eq, Structural)]
pub enum FlushError {
    /// A record no longer fits below the blob extent cap.
    BlobFull,
}

/// The first buffered message carrying `id`, if any.
pub open spec fn find_buffered(s: Seq<MessageToPersist>, id: int) -> Option<MessageModel>
    decreases s.len(),
{
    if s.len() == 0 {
        None
    } else if s.first().message_id == id {
        Some(s.first()@)
    } else {
        find_buffered(s.drop_first(), id)
    }
}

pub struct UncompressedPage {
    pub page_id: i64,
    pub toc: FileToc,
    pub page_blob: PageBlob,
    pub pending: Vec<MessageToPersist>,
}

impl UncompressedPage {
    /// The table mirrors the blob, buffered messages belong to this
    /// page, are well formed, and claim slots that are still free and
    /// mutually distinct.
    pub open spec fn wf(&self) -> bool {
        &&& self.toc.wf()
        &&& self.toc.entries.len() == MESSAGES_PER_PAGE
        &&& self.page_blob.wf()
        &&& 0 <= self.page_id
        &&& toc_mirrors_blob(self.toc, self.page_blob.data@)
        &&& forall|i: int| 0 <= i < self.pending.len() ==> wf_message(#[trigger] self.pending@[i]@)
        &&& forall|i: int|
            0 <= i < self.pending.len() ==> page_id_of(#[trigger] self.pending@[i].message_id as int)
                == self.page_id
        &&& forall|i: int|
            0 <= i < self.pending.len() ==> !entry_present(
                self.toc.entries@[slot_in_page(#[trigger] self.pending@[i].message_id as int)],
            )
        &&& forall|i: int, j: int|
            0 <= i < self.pending.len() && 0 <= j < self.pending.len() && i != j
                ==> self.pending@[i].message_id != self.pending@[j].message_id
    }

    /// The message persisted in the slot of `id`, if its slot is
    /// present, sane, and its bytes decode to a record carrying `id`.
    #[verifier::opaque]
    pub open spec fn persisted_message(&self, id: int) -> Option<MessageModel> {
        let e = self.toc.entries@[slot_in_page(id)];
        if entry_present(e) && e.size <= MAX_RECORD_SIZE {
            match dec_message(blob_window(self.page_blob.data@, e.offset as int, e.size as int)) {
                Some(v) => if v.message_id == id {
                    Some(v)
                } else {
                    None
                },
                None => None,
            }
        } else {
            None
        }
    }

    /// What a read of `id` on this page yields: the buffered message
    /// first, else the persisted one.
    #[verifier::opaque]
    pub open spec fn page_lookup(&self, id: int) -> Option<MessageModel> {
        match find_buffered(self.pending@, id) {
            Some(v) => Some(v),
            None => self.persisted_message(id),
        }
    }

    /// Opens a page over its blob, reading the per-page table from the
    /// first pages; a blank blob yields an empty page.
    pub fn new(page_id: i64, page_blob: PageBlob) -> (r: UncompressedPage)
        requires
            page_blob.wf(),
            0 <= page_id,
        ensures
            r.wf(),
            r.page_id == page_id,
            r.pending@.len() == 0,
            r.page_blob == page_blob,
            forall|id: int| r.page_lookup(id) == r.persisted_message(id),
    {
        let toc = FileToc::read_toc(&page_blob, MESSAGES_PER_PAGE as usize);
        let r = UncompressedPage { page_id, toc, page_blob, pending: Vec::new() };
        proof {
            reveal(UncompressedPage::page_lookup);
        }
        r
    }

    pub fn has_messages_to_save(&self) -> (r: bool)
        ensures
            r == (self.pending@.len() > 0),
    {
        self.pending.len() > 0
    }

    pub fn get_messages_amount_to_save(&self) -> (r: usize)
        ensures
            r == self.pending@.len(),
    {
        self.pending.len()
    }

    /// Buffers new messages of this page.  Each must be well formed,
    /// belong to the page, and carry an id not yet buffered or
    /// persisted here; reads see it immediately.
    #[verifier::loop_isolation(false)]
    #[verifier::rlimit(100)]
    #[verifier::spinoff_prover]
    pub fn new_messages(&mut self, messages: Vec<MessageToPersist>)
        requires
            old(self).wf(),
            forall|i: int| 0 <= i < messages.len() ==> wf_message(#[trigger] messages@[i]@),
            forall|i: int|
                0 <= i < messages.len() ==> page_id_of(#[trigger] messages@[i].message_id as int)
                    == old(self).page_id,
            forall|i: int|
                0 <= i < messages.len() ==> !entry_present(
                    old(self).toc.entries@[slot_in_page(
                        #[trigger] messages@[i].message_id as int,
                    )],
                ),
            forall|i: int|
                0 <= i < messages.len() ==> find_buffered(
                    old(self).pending@,
                    #[trigger] messages@[i].message_id as int,
                ) is None,
            forall|i: int, j: int|
                0 <= i < messages.len() && 0 <= j < messages.len() && i != j
                    ==> messages@[i].message_id != messages@[j].message_id,
        ensures
            final(self).wf(),
            final(self).page_id == old(self).page_id,
            final(self).pending@ =~= old(self).pending@ + messages@,
            final(self).toc == old(self).toc,
            final(self).page_blob == old(self).page_blob,
            forall|i: int|
                0 <= i < messages.len() ==> final(self).page_lookup(
                    #[trigger] messages@[i].message_id as int,
                ) == Some(messages@[i]@),
            forall|id: int|
                (forall|i: int| 0 <= i < messages.len() ==> (#[trigger] messages@[i].message_id)
                    != id) ==> final(self).page_lookup(id) == old(self).page_lookup(id),
    {
        let ghost pend0 = self.pending@;
        let ghost msgs = messages@;
        let mut messages = messages;
        let total = messages.len();
        proof {
            assert(msgs.len() == total);
        }
        let mut k: usize = 0;
        while messages.len() > 0
            invariant
                old(self).wf(),
                self.page_id == old(self).page_id,
                self.toc == old(self).toc,
                self.page_blob == old(self).page_blob,
                k + messages.len() == msgs.len(),
                k <= msgs.len() <= usize::MAX,
                messages@ =~= msgs.skip(k as int),
                self.pending@ =~= pend0 + msgs.take(k as int),
                forall|i: int| 0 <= i < msgs.len() ==> wf_message(#[trigger] msgs[i]@),
                forall|i: int|
                    0 <= i < msgs.len() ==> page_id_of(#[trigger] msgs[i].message_id as int) == old(
                        self,
                    ).page_id,
            decreases messages.len(),
        {
            let m = messages.remove(0);
            self.pending.push(m);
            proof {
                assert(msgs.skip(k as int).first() == msgs[k as int]);
                assert(msgs.skip(k as int).drop_first() =~= msgs.skip(k as int + 1));
                assert(pend0 + msgs.take(k as int + 1) =~= (pend0 + msgs.take(k as int)).push(
                    msgs[k as int],
                ));
            }
            k = k + 1;
        }
        proof {
            assert(msgs.take(msgs.len() as int) =~= msgs);
            lemma_wf_after_append(*old(self), *self, msgs);
            lemma_append_lookup(*old(self), *self, msgs);
        }
    }
}

/// After appending fresh messages, each is read back with its own
/// content and every other id reads as before.
pub proof fn lemma_append_lookup(
    before: UncompressedPage,
    after: UncompressedPage,
    msgs: Seq<MessageToPersist>,
)
    requires
        after.toc == before.toc,
        after.page_blob == before.page_blob,
        after.pending@ == before.pending@ + msgs,
        forall|i: int|
            0 <= i < msgs.len() ==> find_buffered(
                before.pending@,
                #[trigger] msgs[i].message_id as int,
            ) is None,
        forall|i: int, j: int|
            0 <= i < msgs.len() && 0 <= j < msgs.len() && i != j ==> msgs[i].message_id
                != msgs[j].message_id,
    ensures
        forall|i: int|
            0 <= i < msgs.len() ==> after.page_lookup(#[trigger] msgs[i].message_id as int)
                == Some(msgs[i]@),
        forall|id: int|
            (forall|i: int| 0 <= i < msgs.len() ==> (#[trigger] msgs[i].message_id) != id)
                ==> after.page_lookup(id) == before.page_lookup(id),
{
    reveal(UncompressedPage::page_lookup);
    let pend = before.pending@;
    assert forall|i: int| 0 <= i < msgs.len() implies after.page_lookup(
        #[trigger] msgs[i].message_id as int,
    ) == Some(msgs[i]@) by {
        reveal(UncompressedPage::page_lookup);
        lemma_find_in_append(pend, msgs, i);
    }
    assert forall|id: int|
        (forall|i: int| 0 <= i < msgs.len() ==> (#[trigger] msgs[i].message_id) != id) implies
        after.page_lookup(id) == before.page_lookup(id) by {
        reveal(UncompressedPage::page_lookup);
        reveal(UncompressedPage::persisted_message);
        lemma_find_skips_append(pend, msgs, id);
    }
}

/// A message buffered behind others that never carry its id is found
/// with its own content.
pub proof fn lemma_find_in_append(
    pend: Seq<MessageToPersist>,
    msgs: Seq<MessageToPersist>,
    i: int,
)
    requires
        0 <= i < msgs.len(),
        find_buffered(pend, msgs[i].message_id as int) is None,
        forall|j: int, k: int|
            0 <= j < msgs.len() && 0 <= k < msgs.len() && j != k ==> msgs[j].message_id
                != msgs[k].message_id,
    ensures
        find_buffered(pend + msgs, msgs[i].message_id as int) == Some(msgs[i]@),
    decreases pend.len(), msgs.len(),
{
    let id = msgs[i].message_id as int;
    if pend.len() > 0 {
        assert(find_buffered(pend.drop_first(), id) is None);
        assert((pend + msgs).first() == pend.first());
        assert((pend + msgs).drop_first() =~= pend.drop_first() + msgs);
        lemma_find_in_append(pend.drop_first(), msgs, i);
    } else {
        assert(pend + msgs =~= msgs);
        lemma_find_first_hit(msgs, i);
    }
}

/// In a run with distinct ids, the search for the id of entry `i`
/// yields entry `i`.
pub proof fn lemma_find_first_hit(msgs: Seq<MessageToPersist>, i: int)
    requires
        0 <= i < msgs.len(),
        forall|j: int, k: int|
            0 <= j < msgs.len() && 0 <= k < msgs.len() && j != k ==> msgs[j].message_id
                != msgs[k].message_id,
    ensures
        find_buffered(msgs, msgs[i].message_id as int) == Some(msgs[i]@),
    decreases msgs.len(),
{
    if i > 0 {
        assert(msgs.first().message_id != msgs[i].message_id);
        assert(msgs.drop_first()[i - 1] == msgs[i]);
        lemma_find_first_hit(msgs.drop_first(), i - 1);
    }
}

/// Appending messages that never carry `id` leaves the search for `id`
/// unchanged.
pub proof fn lemma_find_skips_append(
    pend: Seq<MessageToPersist>,
    msgs: Seq<MessageToPersist>,
    id: int,
)
    requires
        forall|i: int| 0 <= i < msgs.len() ==> (#[trigger] msgs[i].message_id) != id,
    ensures
        find_buffered(pend + msgs, id) == find_buffered(pend, id),
    decreases pend.len(), msgs.len(),
{
    if pend.len() > 0 {
        assert((pend + msgs).first() == pend.first());
        assert((pend + msgs).drop_first() =~= pend.drop_first() + msgs);
        lemma_find_skips_append(pend.drop_first(), msgs, id);
    } else {
        assert(pend + msgs =~= msgs);
        lemma_find_none(msgs, id);
    }
}

/// A run none of whose messages carries `id` yields nothing for `id`.
pub proof fn lemma_find_none(msgs: Seq<MessageToPersist>, id: int)
    requires
        forall|i: int| 0 <= i < msgs.len() ==> (#[trigger] msgs[i].message_id) != id,
    ensures
        find_buffered(msgs, id) is None,
    decreases msgs.len(),
{
    if msgs.len() > 0 {
        assert(msgs.drop_first() =~= msgs.skip(1));
        assert(forall|i: int|
            0 <= i < msgs.drop_first().len() ==> (#[trigger] msgs.drop_first()[i].message_id)
                != id);
        lemma_find_none(msgs.drop_first(), id);
    }
}

/// After appending messages with fresh, distinct ids the page is still
/// well formed.
pub proof fn lemma_wf_after_append(
    before: UncompressedPage,
    after: UncompressedPage,
    msgs: Seq<MessageToPersist>,
)
    requires
        before.wf(),
        after.page_id == before.page_id,
        after.toc == before.toc,
        after.page_blob == before.page_blob,
        after.pending@ == before.pending@ + msgs,
        forall|i: int| 0 <= i < msgs.len() ==> wf_message(#[trigger] msgs[i]@),
        forall|i: int|
            0 <= i < msgs.len() ==> page_id_of(#[trigger] msgs[i].message_id as int)
                == before.page_id,
        forall|i: int|
            0 <= i < msgs.len() ==> !entry_present(
                before.toc.entries@[slot_in_page(#[trigger] msgs[i].message_id as int)],
            ),
        forall|i: int|
            0 <= i < msgs.len() ==> find_buffered(
                before.pending@,
                #[trigger] msgs[i].message_id as int,
            ) is None,
        forall|i: int, j: int|
            0 <= i < msgs.len() && 0 <= j < msgs.len() && i != j ==> msgs[i].message_id
                != msgs[j].message_id,
    ensures
        after.wf(),
{
    let pend = before.pending@;
    assert forall|i: int, j: int|
        0 <= i < after.pending@.len() && 0 <= j < after.pending@.len() && i != j implies
        after.pending@[i].message_id != after.pending@[j].message_id by {
        if i < pend.len() && j >= pend.len() {
            if after.pending@[i].message_id == after.pending@[j].message_id {
                let id = msgs[j - pend.len()].message_id as int;
                assert(pend[i].message_id == id);
                lemma_find_present(pend, id);
            }
        } else if j < pend.len() && i >= pend.len() {
            if after.pending@[i].message_id == after.pending@[j].message_id {
                let id = msgs[i - pend.len()].message_id as int;
                assert(pend[j].message_id == id);
                lemma_find_present(pend, id);
            }
        }
    }
}

/// If some buffered message carries `id`, the search for `id` finds one.
pub proof fn lemma_find_present(pend: Seq<MessageToPersist>, id: int)
    requires
        exists|i: int| 0 <= i < pend.len() && (#[trigger] pend[i].message_id) == id,
    ensures
        find_buffered(pend, id) is Some,
    decreases pend.len(),
{
    if pend.first().message_id != id {
        let i = choose|i: int| 0 <= i < pend.len() && (#[trigger] pend[i].message_id) == id;
        assert(pend.drop_first()[i - 1] == pend[i]);
        lemma_find_present(pend.drop_first(), id);
    }
}

/// Blob space a flush of these buffered messages needs: each record's
/// length rounded up to a whole page.
pub open spec fn flush_space(s: Seq<MessageToPersist>) -> int
    decreases s.len(),
{
    if s.len() == 0 {
        0
    } else {
        crate::round_up_to_page(message_encoding(s.last()@).len() as int) + flush_space(
            s.drop_last(),
        )
    }
}

/// A flush never needs negative space.
pub proof fn lemma_flush_space_nonneg(s: Seq<MessageToPersist>)
    ensures
        flush_space(s) >= 0,
    decreases s.len(),
{
    if s.len() > 0 {
        lemma_flush_space_nonneg(s.drop_last());
    }
}

/// Two distinct ids of one page sit in distinct slots.
pub proof fn lemma_distinct_slots(a: int, b: int)
    requires
        0 <= a,
        0 <= b,
        a != b,
        page_id_of(a) == page_id_of(b),
    ensures
        slot_in_page(a) != slot_in_page(b),
{
    let p = MESSAGES_PER_PAGE as int;
    assert(a == p * (a / p) + a % p && b == p * (b / p) + b % p) by (nonlinear_arith)
        requires
            p > 0,
    ;
}

impl UncompressedPage {
    /// Persists the most recently buffered message: its record goes to
    /// its slot through the page's table.  What any id reads as is
    /// unchanged.
    #[verifier::rlimit(100)]
    #[verifier::spinoff_prover]
    fn flush_one(&mut self) -> (r: Result<(), FlushError>)
        requires
            old(self).wf(),
            old(self).pending@.len() > 0,
        ensures
            final(self).wf(),
            final(self).page_id == old(self).page_id,
            forall|id: int| final(self).page_lookup(id) == old(self).page_lookup(id),
            ({
                let need = crate::round_up_to_page(
                    message_encoding(old(self).pending@.last()@).len() as int,
                );
                if old(self).toc.write_position + need + BLOB_PAGE_SIZE <= MAX_TOC_EXTENT {
                    &&& r is Ok
                    &&& final(self).pending@ == old(self).pending@.drop_last()
                    &&& final(self).toc.write_position == old(self).toc.write_position + need
                } else {
                    r is Err && *final(self) == *old(self)
                }
            }),
    {
        let ghost pre = *self;
        let pos = self.pending.len() - 1;
        proof {
            assert(self.pending@[pos as int] == self.pending@.last());
        }
        let enc = encode_message(&self.pending[pos]);
        proof {
            lemma_encoding_len(self.pending@.last()@);
            crate::codec::lemma_encoding_fields(self.pending@.last()@);
            assert(crate::round_up_to_page(enc@.len() as int) < enc@.len() + BLOB_PAGE_SIZE);
            assert(crate::round_up_to_page(enc@.len() as int) >= enc@.len());
        }
        let wp = self.toc.get_write_position();
        if wp as u64 + enc.len() as u64 + BLOB_PAGE_SIZE as u64 > MAX_TOC_EXTENT {
            proof {
                assert(crate::round_up_to_page(enc@.len() as int) + BLOB_PAGE_SIZE
                    > enc@.len() as int + BLOB_PAGE_SIZE - BLOB_PAGE_SIZE);
            }
            return Err(FlushError::BlobFull);
        }
        let slot = message_slot_in_page(self.pending[pos].message_id);
        proof {
            assert((slot as int / 64 + 1) * (BLOB_PAGE_SIZE as int) <= toc_size_in_bytes(
                MESSAGES_PER_PAGE as int,
            )) by (nonlinear_arith)
                requires
                    0 <= slot < 100_000,
            ;
        }
        store_slot(&mut self.toc, &mut self.page_blob, slot, &enc);
        let m = match self.pending.pop() {
            Some(m) => m,
            None => vstd::pervasive::unreached(),
        };
        proof {
            assert(pre.pending@.drop_last() =~= self.pending@);
            lemma_flush_step(pre, *self, m, enc@);
        }
        Ok(())
    }

    /// Persists every buffered message, taking the newest first so
    /// that each step pops from the back of the buffer.  What any id
    /// reads as is unchanged; a flush that runs out of blob space
    /// stops and keeps the rest buffered for the next tick.
    #[verifier::rlimit(100)]
    pub fn flush(&mut self) -> (r: Result<(), FlushError>)
        requires
            old(self).wf(),
        ensures
            final(self).wf(),
            final(self).page_id == old(self).page_id,
            forall|id: int| final(self).page_lookup(id) == old(self).page_lookup(id),
            r is Ok ==> final(self).pending@.len() == 0,
            old(self).toc.write_position + flush_space(old(self).pending@) + BLOB_PAGE_SIZE
                <= MAX_TOC_EXTENT ==> r is Ok,
    {
        while self.pending.len() > 0
            invariant
                self.wf(),
                self.page_id == old(self).page_id,
                forall|id: int| self.page_lookup(id) == old(self).page_lookup(id),
                old(self).toc.write_position + flush_space(old(self).pending@) + BLOB_PAGE_SIZE
                    <= MAX_TOC_EXTENT ==> self.toc.write_position + flush_space(self.pending@)
                    + BLOB_PAGE_SIZE <= MAX_TOC_EXTENT,
            decreases self.pending.len(),
        {
            let ghost pre = *self;
            let res = self.flush_one();
            proof {
                assert(flush_space(pre.pending@) == crate::round_up_to_page(
                    message_encoding(pre.pending@.last()@).len() as int,
                ) + flush_space(pre.pending@.drop_last()));
            }
            if res.is_err() {
                proof {
                    lemma_flush_space_nonneg(pre.pending@.drop_last());
                }
                return Err(FlushError::BlobFull);
            }
        }
        Ok(())
    }

    /// The message stored under `message_id` on this page: the buffered
    /// one if still unflushed, else the record in its slot, absent when
    /// neither holds one.
    #[verifier::loop_isolation(false)]
    pub fn get_message(&self, message_id: i64) -> (r: Option<MessageToPersist>)
        requires
            self.wf(),
            0 <= message_id,
        ensures
            match r {
                Some(m) => self.page_lookup(message_id as int) == Some(m@),
                None => self.page_lookup(message_id as int) is None,
            },
    {
        let mut i: usize = 0;
        proof {
            assert(self.pending@.skip(0) =~= self.pending@);
        }
        while i < self.pending.len()
            invariant
                i <= self.pending.len(),
                find_buffered(self.pending@, message_id as int) == find_buffered(
                    self.pending@.skip(i as int),
                    message_id as int,
                ),
            decreases self.pending.len() - i,
        {
            proof {
                assert(self.pending@.skip(i as int).first() == self.pending@[i as int]);
                assert(self.pending@.skip(i as int).drop_first() =~= self.pending@.skip(
                    i as int + 1,
                ));
            }
            if self.pending[i].message_id == message_id {
                proof {
                    reveal(UncompressedPage::page_lookup);
                }
                return Some(clone_message(&self.pending[i]));
            }
            i = i + 1;
        }
        proof {
            reveal(UncompressedPage::page_lookup);
            reveal(UncompressedPage::persisted_message);
            assert(self.pending@.skip(self.pending@.len() as int).len() == 0);
        }
        let slot = message_slot_in_page(message_id);
        let e = self.toc.get_position(slot);
        if e.size == 0 || e.size > MAX_RECORD_SIZE {
            return None;
        }
        let bytes = self.page_blob.read_from_position(e.offset as usize, e.size as usize);
        match decode_message(&bytes) {
            Some(m) => {
                if m.message_id == message_id {
                    Some(m)
                } else {
                    None
                }
            },
            None => None,
        }
    }
}

/// One flush step persists the most recently buffered message and
/// leaves every id reading as before.
#[verifier::rlimit(100)]
#[verifier::spinoff_prover]
pub proof fn lemma_flush_step(
    pre: UncompressedPage,
    post: UncompressedPage,
    m: MessageToPersist,
    enc: Seq<u8>,
)
    requires
        pre.wf(),
        pre.pending@.len() > 0,
        m == pre.pending@.last(),
        enc == message_encoding(m@),
        post.page_id == pre.page_id,
        post.pending@ == pre.pending@.drop_last(),
        post.toc.wf(),
        post.page_blob.wf(),
        toc_mirrors_blob(post.toc, post.page_blob.data@),
        post.toc.entries@ == pre.toc.entries@.update(
            slot_in_page(m.message_id as int),
            TocEntry { offset: pre.toc.write_position as u32, size: enc.len() as u32 },
        ),
        blob_window(post.page_blob.data@, pre.toc.write_position as int, enc.len() as int) == enc,
        forall|off: int, sz: int|
            toc_size_in_bytes(pre.toc.entries.len() as int) <= off && 0 <= sz && off + sz
                <= pre.toc.write_position ==> blob_window(#[trigger] post.page_blob.data@, off, sz)
                == blob_window(pre.page_blob.data@, off, sz),
        enc.len() <= MAX_RECORD_SIZE,
    ensures
        post.wf(),
        forall|id: int| post.page_lookup(id) == pre.page_lookup(id),
{
    reveal(UncompressedPage::page_lookup);
    reveal(UncompressedPage::persisted_message);
    let slot = slot_in_page(m.message_id as int);
    let floor = toc_size_in_bytes(pre.toc.entries.len() as int);
    assert forall|i: int| 0 <= i < post.pending@.len() implies !entry_present(
        post.toc.entries@[slot_in_page(#[trigger] post.pending@[i].message_id as int)],
    ) by {
        assert(post.pending@[i] == pre.pending@[i]);
        lemma_distinct_slots(post.pending@[i].message_id as int, m.message_id as int);
    }
    assert(post.wf());
    lemma_message_round_trip(m@);
    assert forall|id: int| post.page_lookup(id) == pre.page_lookup(id) by {
        if id == m.message_id as int {
            lemma_find_first_hit(pre.pending@, pre.pending@.len() as int - 1);
            assert(find_buffered(pre.pending@, id) == Some(m@));
            if find_buffered(post.pending@, id) is Some {
                lemma_find_index(post.pending@, id);
            }
            assert(find_buffered(post.pending@, id) is None);
            assert(post.persisted_message(id) == Some(m@));
        } else {
            lemma_find_drop_last(pre.pending@, id);
            assert(find_buffered(pre.pending@, id) == find_buffered(post.pending@, id));
            if slot_in_page(id) == slot {
                assert(pre.persisted_message(id) is None);
                assert(post.persisted_message(id) is None);
            } else {
                let e = pre.toc.entries@[slot_in_page(id)];
                assert(post.toc.entries@[slot_in_page(id)] == e);
                if entry_present(e) && e.size <= MAX_RECORD_SIZE {
                    assert(blob_window(post.page_blob.data@, e.offset as int, e.size as int)
                        == blob_window(pre.page_blob.data@, e.offset as int, e.size as int));
                }
            }
        }
    }
}


/// Dropping the last buffered message leaves the search for any other
/// id unchanged.
pub proof fn lemma_find_drop_last(s: Seq<MessageToPersist>, id: int)
    requires
        s.len() > 0,
        s.last().message_id != id,
    ensures
        find_buffered(s, id) == find_buffered(s.drop_last(), id),
    decreases s.len(),
{
    if s.len() == 1 {
        assert(s.drop_last().len() == 0);
        if s.first().message_id == id {
            assert(false);
        }
    } else {
        assert(s.drop_last().first() == s.first());
        assert(s.drop_first().last() == s.last());
        assert(s.drop_first().drop_last() =~= s.drop_last().drop_first());
        lemma_find_drop_last(s.drop_first(), id);
    }
}

/// A found id is carried by some buffered message.
pub proof fn lemma_find_index(s: Seq<MessageToPersist>, id: int)
    requires
        find_buffered(s, id) is Some,
    ensures
        exists|i: int| 0 <= i < s.len() && (#[trigger] s[i].message_id) == id,
    decreases s.len(),
{
    if s.len() > 0 && s.first().message_id != id {
        lemma_find_index(s.drop_first(), id);
        let i = choose|i: int|
            0 <= i < s.drop_first().len() && (#[trigger] s.drop_first()[i].message_id) == id;
        assert(s[i + 1].message_id == id);
    }
}

/// Durability: once a page's buffer is flushed, its content lives in
/// the blob alone — any page reopened over the same blob bytes, as a
/// restarted process does, reads every id exactly as before.
pub proof fn lemma_durability_after_flush(before: UncompressedPage, after: UncompressedPage)
    requires
        before.wf(),
        after.wf(),
        before.pending@.len() == 0,
        after.pending@.len() == 0,
        after.page_blob.data@ == before.page_blob.data@,
        after.page_id == before.page_id,
    ensures
        forall|id: int| after.page_lookup(id) == before.page_lookup(id),
{
    reveal(UncompressedPage::page_lookup);
    reveal(UncompressedPage::persisted_message);
    assert forall|id: int| after.page_lookup(id) == before.page_lookup(id) by {
        let slot = slot_in_page(id);
        if 0 <= slot < MESSAGES_PER_PAGE {
            assert(after.toc.entries@[slot] == before.toc.entries@[slot]);
        }
    }
}

} // verus!
