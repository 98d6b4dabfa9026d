//! The compressed cluster: one blob archiving up to a thousand closed
//! pages, each as one deflate-compressed frame of message records,
//! indexed by a table of contents in the blob's first pages.

use vstd::prelude::*;
use crate::BLOB_PAGE_SIZE;
use crate::MESSAGES_PER_PAGE;
use crate::PAGES_PER_CLUSTER;
use crate::blob::PageBlob;
use crate::blob::blob_window;
use crate::blob::blob_byte;
use crate::toc::FileToc;
use crate::toc::entry_present;
use crate::toc::parsed_entry;
use crate::toc::sanitize;
use crate::toc::toc_size_in_bytes;
use crate::toc::MAX_TOC_EXTENT;
use crate::msg::MessageToPersist;
use crate::msg::wf_message;
use crate::msg::page_id_of;
use crate::msg::cluster_id_of;
use crate::msg::page_slot_in_cluster;
use crate::msg::page_slot;
use crate::codec::models_of;
use crate::codec::frame_image;
use crate::codec::dec_frame;
use crate::codec::encode_frame;
use crate::codec::decode_frame;
use crate::codec::lemma_frame_round_trip;
use crate::compress::deflate_of;
use crate::compress::inflate_of;
use crate::compress::deflate_bytes;
use crate::compress::inflate_bytes;

verus! {

/// Why a slot write was refused.
#[derive(Debug, PartialEq, Eq, Structural)]
pub enum ClusterSaveError {
    /// The compressed frame does not fit below the extent cap.
    FrameTooLarge,
}

/// Why a slot read failed.
#[derive(Debug, PartialEq, Eq, Structural)]
pub enum ClusterReadError {
    /// The slot's bytes are not a deflate stream.
    FrameUnreadable,
}

/// The cluster's table of contents and blob, guarded together.
pub struct CompressedClusterData {
    pub toc: FileToc,
    pub page_blob: PageBlob,
}

impl CompressedClusterData {
    pub fn new(toc: FileToc, page_blob: PageBlob) -> (r: CompressedClusterData)
        ensures
            r.toc == toc,
            r.page_blob == page_blob,
    {
        CompressedClusterData { toc, page_blob }
    }
}

pub struct CompressedCluster {
    pub topic_id: String,
    pub page_cluster_id: i64,
    pub data: CompressedClusterData,
    pub max_message_size: usize,
}

impl CompressedCluster {
    /// The cluster's table always mirrors the blob's first pages, so a
    /// reopened blob restores the same table.
    pub open spec fn wf(&self) -> bool {
        &&& self.data.toc.wf()
        &&& self.data.toc.entries.len() == PAGES_PER_CLUSTER
        &&& self.data.page_blob.wf()
        &&& 0 <= self.page_cluster_id
        &&& 0 < self.max_message_size <= 0x1000_0000
        &&& forall|i: int|
            0 <= i < PAGES_PER_CLUSTER ==> self.data.toc.entries@[i] == sanitize(
                parsed_entry(self.data.page_blob.data@, i),
                toc_size_in_bytes(PAGES_PER_CLUSTER as int),
            )
    }

    /// The sanity cap on a slot's claimed size: one frame never exceeds
    /// a page's worth of maximal messages.
    pub open spec fn sane_size(&self, size: int) -> bool {
        size <= self.max_message_size * (MESSAGES_PER_PAGE as int)
    }

    /// The compressed frame a slot holds: the bytes of its extent when
    /// the slot is present and its claimed size is sane.
    pub open spec fn stored_frame(&self, slot: int) -> Option<Seq<u8>> {
        let e = self.data.toc.entries@[slot];
        if entry_present(e) && self.sane_size(e.size as int) {
            Some(blob_window(self.data.page_blob.data@, e.offset as int, e.size as int))
        } else {
            None
        }
    }

    /// Opens a cluster over its blob, reading the table from the first
    /// pages; a blank blob yields an all-absent table.
    pub fn new(
        topic_id: String,
        page_cluster_id: i64,
        page_blob: PageBlob,
        max_message_size: usize,
    ) -> (r: CompressedCluster)
        requires
            page_blob.wf(),
            0 <= page_cluster_id,
            0 < max_message_size <= 0x1000_0000,
        ensures
            r.wf(),
            r.page_cluster_id == page_cluster_id,
            r.max_message_size == max_message_size,
            r.data.page_blob == page_blob,
            forall|i: int|
                0 <= i < PAGES_PER_CLUSTER ==> r.data.toc.entries@[i] == sanitize(
                    parsed_entry(page_blob.data@, i),
                    toc_size_in_bytes(PAGES_PER_CLUSTER as int),
                ),
    {
        let toc = FileToc::read_toc(&page_blob, PAGES_PER_CLUSTER as usize);
        CompressedCluster {
            topic_id,
            page_cluster_id,
            data: CompressedClusterData::new(toc, page_blob),
            max_message_size,
        }
    }

    /// Whether the slot of `compressed_page_id` holds content, by its
    /// table entry alone; the read path's size guard decides separately
    /// whether that content is served.
    pub fn has_compressed_page(&self, compressed_page_id: i64) -> (r: bool)
        requires
            self.wf(),
            0 <= compressed_page_id,
            cluster_id_of(compressed_page_id as int) == self.page_cluster_id,
        ensures
            r == entry_present(
                self.data.toc.entries@[page_slot_in_cluster(compressed_page_id as int)],
            ),
    {
        let slot = page_slot(compressed_page_id);
        self.data.toc.has_content(slot)
    }

    /// The raw compressed frame of a slot, when present and sane.
    fn get_compressed_page_payload(&self, compressed_page_id: i64) -> (r: Option<Vec<u8>>)
        requires
            self.wf(),
            0 <= compressed_page_id,
            cluster_id_of(compressed_page_id as int) == self.page_cluster_id,
        ensures
            match r {
                Some(v) => self.stored_frame(page_slot_in_cluster(compressed_page_id as int))
                    == Some(v@),
                None => self.stored_frame(page_slot_in_cluster(compressed_page_id as int)) is None,
            },
    {
        let slot = page_slot(compressed_page_id);
        let entry = self.data.toc.get_position(slot);
        if entry.size == 0 {
            return None;
        }
        if entry.size as u64 > self.max_message_size as u64 * MESSAGES_PER_PAGE as u64 {
            return None;
        }
        Some(self.data.page_blob.read_from_position(entry.offset as usize, entry.size as usize))
    }

    /// Whether a frame of `len` bytes can still be placed: it is
    /// non-empty, sane, and fits below the extent cap at the cursor.
    pub open spec fn frame_fits(&self, len: int) -> bool {
        &&& 0 < len
        &&& self.data.toc.write_position + len + BLOB_PAGE_SIZE <= MAX_TOC_EXTENT
        &&& self.sane_size(len)
    }

    /// Archives the messages of one page into its cluster slot.  A slot
    /// already holding content is left untouched, byte for byte, so
    /// repeating a write — even with different content — is a no-op.
    /// Otherwise the frame goes to the cursor, the slot's table entry is
    /// registered, and only the table page containing the slot is
    /// rewritten; every blob byte outside the new frame and that one
    /// table page — hence every other slot's frame — is unchanged.
    #[verifier::rlimit(100)]
    #[verifier::loop_isolation(false)]
    pub fn save_cluser_page(&mut self, messages: &Vec<MessageToPersist>) -> (r: Result<
        (),
        ClusterSaveError,
    >)
        requires
            old(self).wf(),
            messages.len() > 0,
            forall|i: int| 0 <= i < messages.len() ==> wf_message(messages@[i]@),
            forall|i: int|
                0 <= i < messages.len() ==> page_id_of(#[trigger] messages@[i].message_id as int)
                    == page_id_of(messages@[0].message_id as int),
            cluster_id_of(page_id_of(messages@[0].message_id as int)) == old(self).page_cluster_id,
            0 <= page_id_of(messages@[0].message_id as int),
        ensures
            final(self).wf(),
            final(self).page_cluster_id == old(self).page_cluster_id,
            final(self).max_message_size == old(self).max_message_size,
            ({
                let slot = page_slot_in_cluster(page_id_of(messages@[0].message_id as int));
                let frame = deflate_of(frame_image(models_of(messages@)));
                if entry_present(old(self).data.toc.entries@[slot]) {
                    r is Ok && *final(self) == *old(self)
                } else if old(self).frame_fits(frame.len() as int) {
                    &&& r is Ok
                    &&& final(self).stored_frame(slot) == Some(frame)
                    &&& entry_present(final(self).data.toc.entries@[slot])
                    &&& inflate_of(frame) == Some(frame_image(models_of(messages@)))
                    &&& dec_frame(frame_image(models_of(messages@))) == models_of(messages@)
                    &&& forall|s: int|
                        0 <= s < PAGES_PER_CLUSTER && s != slot ==> final(self).stored_frame(s)
                            == old(self).stored_frame(s)
                    &&& forall|k: int|
                        0 <= k && !(old(self).data.toc.write_position <= k < old(
                            self,
                        ).data.toc.write_position + frame.len()) && !((slot / 64) * (
                        BLOB_PAGE_SIZE as int) <= k < (slot / 64 + 1) * (BLOB_PAGE_SIZE as int))
                            ==> blob_byte(final(self).data.page_blob.data@, k) == blob_byte(
                            old(self).data.page_blob.data@,
                            k,
                        )
                } else {
                    r is Err && *final(self) == *old(self)
                }
            }),
    {
        let page_id = crate::msg::message_page_id(messages[0].message_id);
        let slot = page_slot(page_id);
        let ghost floor = toc_size_in_bytes(PAGES_PER_CLUSTER as int);
        if self.data.toc.has_content(slot) {
            return Ok(());
        }
        let raw = encode_frame(messages);
        let frame = deflate_bytes(&raw);
        let flen = frame.len();
        if flen == 0 {
            return Err(ClusterSaveError::FrameTooLarge);
        }
        if flen as u64 >= MAX_TOC_EXTENT {
            return Err(ClusterSaveError::FrameTooLarge);
        }
        let wp = self.data.toc.get_write_position();
        if wp as u64 + flen as u64 + BLOB_PAGE_SIZE as u64 > MAX_TOC_EXTENT {
            return Err(ClusterSaveError::FrameTooLarge);
        }
        if flen as u64 > self.max_message_size as u64 * MESSAGES_PER_PAGE as u64 {
            return Err(ClusterSaveError::FrameTooLarge);
        }
        proof {
            let sloti = slot as int;
            assert((sloti / 64 + 1) * (BLOB_PAGE_SIZE as int) <= toc_size_in_bytes(
                PAGES_PER_CLUSTER as int,
            )) by (nonlinear_arith)
                requires
                    0 <= sloti < 1000,
            ;
        }
        let ghost ent0 = self.data.toc.entries@;
        let ghost data0 = self.data.page_blob.data@;
        let ghost wp0 = self.data.toc.write_position;
        crate::toc::store_slot(&mut self.data.toc, &mut self.data.page_blob, slot, &frame);
        proof {
            lemma_frame_round_trip(models_of(messages@));
            let sloti = slot as int;
            let floor = toc_size_in_bytes(PAGES_PER_CLUSTER as int);
            assert(self.stored_frame(sloti) == Some(frame@));
            assert forall|s: int| 0 <= s < PAGES_PER_CLUSTER && s != sloti implies
                self.stored_frame(s) == old(self).stored_frame(s) by {
                let e = ent0[s];
                if entry_present(e) && old(self).sane_size(e.size as int) {
                    assert(floor <= e.offset && e.offset + e.size <= wp0);
                    assert(blob_window(self.data.page_blob.data@, e.offset as int, e.size as int)
                        =~= blob_window(data0, e.offset as int, e.size as int));
                }
            }
        }
        Ok(())
    }

    /// Reads the slot of `compressed_page_id` and tells frame-level
    /// corruption apart from absence: an empty or insane slot is
    /// `Ok(None)`, a present slot whose bytes are not a deflate stream
    /// is the error, so that a caller can log the corruption before
    /// treating the slot as absent.
    pub fn read_cluster_page(&self, compressed_page_id: i64) -> (r: Result<
        Option<Vec<MessageToPersist>>,
        ClusterReadError,
    >)
        requires
            self.wf(),
            0 <= compressed_page_id,
            cluster_id_of(compressed_page_id as int) == self.page_cluster_id,
        ensures
            ({
                let frame = self.stored_frame(page_slot_in_cluster(compressed_page_id as int));
                match r {
                    Ok(Some(v)) => frame is Some && inflate_of(frame.unwrap()) is Some
                        && models_of(v@) == dec_frame(inflate_of(frame.unwrap()).unwrap()),
                    Ok(None) => frame is None,
                    Err(_) => frame is Some && inflate_of(frame.unwrap()) is None,
                }
            }),
    {
        let payload = self.get_compressed_page_payload(compressed_page_id);
        match payload {
            None => Ok(None),
            Some(compressed) => match inflate_bytes(&compressed) {
                None => Err(ClusterReadError::FrameUnreadable),
                Some(raw) => Ok(Some(decode_frame(&raw))),
            },
        }
    }

    /// The messages archived for `compressed_page_id`: absent when the
    /// slot is empty, claims an insane size, or holds bytes that are
    /// not a deflate stream — a corrupted slot reads as absent, and
    /// `read_cluster_page` tells the corruption apart for logging.
    /// Otherwise every record of the frame that decodes, in stored
    /// order.
    pub fn get_compressed_page_messages(&self, compressed_page_id: i64) -> (r: Option<
        Vec<MessageToPersist>,
    >)
        requires
            self.wf(),
            0 <= compressed_page_id,
            cluster_id_of(compressed_page_id as int) == self.page_cluster_id,
        ensures
            ({
                let frame = self.stored_frame(page_slot_in_cluster(compressed_page_id as int));
                match r {
                    Some(v) => frame is Some && inflate_of(frame.unwrap()) is Some && models_of(
                        v@,
                    ) == dec_frame(inflate_of(frame.unwrap()).unwrap()),
                    None => frame is None || inflate_of(frame.unwrap()) is None,
                }
            }),
    {
        match self.read_cluster_page(compressed_page_id) {
            Ok(found) => found,
            Err(_) => None,
        }
    }
}

} // verus!
