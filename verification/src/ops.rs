//! The operations the bus calls around topics: restoring a page into
//! the registry, resolving a message across the uncompressed and
//! compressed stores, and shaping a page's content for the wire.

use vstd::prelude::*;
use crate::blob::PageBlob;
use crate::msg::MessageToPersist;
use crate::msg::MessageModel;
use crate::msg::page_id_of;
use crate::msg::cluster_id_of;
use crate::msg::message_page_id;
use crate::msg::clone_message;
use crate::msg::wf_message;
use crate::messages_page::MessagesPage;
use crate::topic::TopicData;
use crate::topic::find_page;
use crate::topic::lemma_find_none_distinct;
use crate::cluster::CompressedCluster;
use crate::codec::models_of;
use crate::codec::frame_image;
use crate::codec::dec_frame;
use crate::codec::encode_frame;
use crate::codec::subvec;
use crate::compress::deflate_of;
use crate::compress::inflate_of;
use crate::compress::deflate_bytes;

verus! {

/// Restores the page `page_id` into the registry: an already-held page
/// is kept; otherwise the blob the store had for it, if any, becomes an
/// uncompressed page, and a missing blob a blank one.  Returns the
/// page's index.
pub fn get_or_restore(topic: &mut TopicData, page_id: i64, blob_if_exists: Option<PageBlob>) -> (r:
    usize)
    requires
        old(topic).wf(),
        0 <= page_id,
        blob_if_exists is Some ==> blob_if_exists->0.wf(),
    ensures
        final(topic).wf(),
        final(topic).topic_id@ == old(topic).topic_id@,
        r < final(topic).pages@.len(),
        final(topic).pages@[r as int].spec_page_id() == page_id,
        final(topic).pages@[r as int].wf(),
        match find_page(old(topic).pages@, page_id as int) {
            Some(i) => final(topic).pages@ == old(topic).pages@ && r == i,
            None => {
                &&& final(topic).pages@ =~= old(topic).pages@.push(final(topic).pages@.last())
                &&& r == old(topic).pages@.len()
                &&& (match blob_if_exists {
                    Some(b) => final(topic).pages@.last() is Uncompressed
                        && final(topic).pages@.last()->Uncompressed_0.page_blob == b
                        && final(topic).pages@.last()->Uncompressed_0.pending@.len() == 0,
                    None => final(topic).pages@.last() is Empty,
                })
            },
        },
{
    match topic.page_index_of(page_id) {
        Some(i) => i,
        None => {
            let p = match blob_if_exists {
                Some(b) => MessagesPage::create_uncompressed(page_id, b),
                None => MessagesPage::create_as_empty(page_id),
            };
            proof {
                lemma_find_none_distinct(topic.pages@, page_id as int);
            }
            topic.pages.push(p);
            topic.pages.len() - 1
        },
    }
}

/// Resolves the page `page_id` for a reader: the held or restored page.
pub fn get_page_to_read<'a>(
    topic: &'a mut TopicData,
    page_id: i64,
    blob_if_exists: Option<PageBlob>,
) -> (r: &'a MessagesPage)
    requires
        old(topic).wf(),
        0 <= page_id,
        blob_if_exists is Some ==> blob_if_exists->0.wf(),
    ensures
        final(topic).wf(),
        r.wf(),
        r.spec_page_id() == page_id,
        exists|i: int|
            0 <= i < final(topic).pages@.len() && final(topic).pages@[i] == *r,
        match find_page(old(topic).pages@, page_id as int) {
            Some(i) => final(topic).pages@ == old(topic).pages@ && *r == old(topic).pages@[i],
            None => {
                &&& final(topic).pages@ =~= old(topic).pages@.push(*r)
                &&& (match blob_if_exists {
                    Some(b) => *r is Uncompressed && (*r)->Uncompressed_0.page_blob == b
                        && (*r)->Uncompressed_0.pending@.len() == 0,
                    None => *r is Empty,
                })
            },
        },
{
    let i = get_or_restore(topic, page_id, blob_if_exists);
    &topic.pages[i]
}

/// The first of these records carrying `id`.
pub open spec fn find_model(s: Seq<MessageModel>, id: int) -> Option<MessageModel>
    decreases s.len(),
{
    if s.len() == 0 {
        None
    } else if s.first().message_id == id {
        Some(s.first())
    } else {
        find_model(s.drop_first(), id)
    }
}

/// Locates `message_id` for a topic: the in-memory page first; a page
/// the registry does not hold as uncompressed falls back to the
/// compressed cluster; a topic with neither holds nothing.  A slot
/// whose frame does not decompress reads as absent, never as an error
/// or a wrong message — `CompressedCluster::read_cluster_page` tells
/// the corruption apart where a caller wants to log it.
pub fn get_message_by_id(
    topic: &TopicData,
    cluster: Option<&CompressedCluster>,
    message_id: i64,
) -> (r: Option<MessageToPersist>)
    requires
        topic.wf(),
        0 <= message_id,
        match cluster {
            Some(c) => c.wf() && cluster_id_of(page_id_of(message_id as int))
                == c.page_cluster_id,
            None => true,
        },
    ensures
        ({
            let pid = page_id_of(message_id as int);
            match find_page(topic.pages@, pid) {
                Some(i) => if topic.pages@[i] is Uncompressed {
                    match r {
                        Some(m) => topic.pages@[i].lookup(message_id as int) == Some(m@),
                        None => topic.pages@[i].lookup(message_id as int) is None,
                    }
                } else {
                    cluster_resolution(cluster, message_id as int, r)
                },
                None => cluster_resolution(cluster, message_id as int, r),
            }
        }),
{
    let pid = message_page_id(message_id);
    match topic.page_index_of(pid) {
        Some(i) => {
            let page = &topic.pages[i];
            if page.is_uncompressed() {
                return page.get_message(message_id);
            }
            resolve_from_cluster(cluster, message_id)
        },
        None => resolve_from_cluster(cluster, message_id),
    }
}

/// What resolving `id` against the compressed store must yield: the
/// record of `id` out of the slot's frame, and absence for a missing
/// topic or cluster, an empty or insane slot, a frame that does not
/// decompress, or a frame without the record.
pub open spec fn cluster_resolution(
    cluster: Option<&CompressedCluster>,
    id: int,
    r: Option<MessageToPersist>,
) -> bool {
    match cluster {
        None => r is None,
        Some(c) => {
            let frame = c.stored_frame(crate::msg::page_slot_in_cluster(page_id_of(id)));
            match r {
                Some(m) => frame is Some && crate::compress::inflate_of(frame.unwrap()) is Some
                    && find_model(
                    dec_frame(crate::compress::inflate_of(frame.unwrap()).unwrap()),
                    id,
                ) == Some(m@),
                None => frame is None || crate::compress::inflate_of(frame.unwrap()) is None || (
                crate::compress::inflate_of(frame.unwrap()) is Some && find_model(
                    dec_frame(crate::compress::inflate_of(frame.unwrap()).unwrap()),
                    id,
                ) is None),
            }
        },
    }
}

/// Reads `message_id` out of its cluster slot's frame.
#[verifier::loop_isolation(false)]
fn resolve_from_cluster(cluster: Option<&CompressedCluster>, message_id: i64) -> (r: Option<
    MessageToPersist,
>)
    requires
        0 <= message_id,
        match cluster {
            Some(c) => c.wf() && cluster_id_of(page_id_of(message_id as int))
                == c.page_cluster_id,
            None => true,
        },
    ensures
        cluster_resolution(cluster, message_id as int, r),
{
    let c = match cluster {
        None => {
            return None;
        },
        Some(c) => c,
    };
    let pid = message_page_id(message_id);
    match c.get_compressed_page_messages(pid) {
        None => None,
        Some(msgs) => {
            let mut i: usize = 0;
            let ghost ms = models_of(msgs@);
            proof {
                assert(ms.skip(0) =~= ms);
            }
            while i < msgs.len()
                invariant
                    i <= msgs.len(),
                    ms == models_of(msgs@),
                    find_model(ms, message_id as int) == find_model(
                        ms.skip(i as int),
                        message_id as int,
                    ),
                decreases msgs.len() - i,
            {
                proof {
                    assert(ms.skip(i as int).first() == ms[i as int]);
                    assert(ms.skip(i as int).drop_first() =~= ms.skip(i as int + 1));
                }
                if msgs[i].message_id == message_id {
                    proof {
                        assert(ms[i as int] == msgs@[i as int]@);
                        assert(ms.skip(i as int).first().message_id == message_id);
                        assert(find_model(ms.skip(i as int), message_id as int) == Some(
                            ms[i as int],
                        ));
                    }
                    let found = clone_message(&msgs[i]);
                    proof {
                        assert(found@ == ms[i as int]);
                    }
                    return Some(found);
                }
                i = i + 1;
            }
            proof {
                assert(ms.skip(ms.len() as int).len() == 0);
            }
            None
        },
    }
}

/// The id range a wire request names: non-positive bounds stand for the
/// whole of page `page_no`.
pub fn derive_page_range(page_no: i64, from_id: i64, to_id: i64) -> (r: (i64, i64))
    requires
        0 <= page_no <= 92_000_000_000_000,
    ensures
        if from_id <= 0 && to_id <= 0 {
            r.0 == page_no * crate::MESSAGES_PER_PAGE && r.1 == page_no * crate::MESSAGES_PER_PAGE
                + crate::MESSAGES_PER_PAGE - 1
        } else {
            r == (from_id, to_id)
        },
{
    if from_id <= 0 && to_id <= 0 {
        let from = page_no * crate::MESSAGES_PER_PAGE;
        (from, from + crate::MESSAGES_PER_PAGE - 1)
    } else {
        (from_id, to_id)
    }
}

/// The chunks in order, joined back together.
pub open spec fn concat_chunks(s: Seq<Seq<u8>>) -> Seq<u8>
    decreases s.len(),
{
    if s.len() == 0 {
        Seq::empty()
    } else {
        concat_chunks(s.drop_last()) + s.last()
    }
}

/// Splits a payload into chunks of at most `max_chunk` bytes whose
/// concatenation is the payload.
pub fn split_into_chunks(payload: &Vec<u8>, max_chunk: usize) -> (r: Vec<Vec<u8>>)
    requires
        max_chunk > 0,
    ensures
        concat_chunks(Seq::new(r@.len(), |i: int| r@[i]@)) =~= payload@,
        forall|i: int| 0 <= i < r@.len() ==> (#[trigger] r@[i]@).len() <= max_chunk,
        forall|i: int| 0 <= i < r@.len() ==> (#[trigger] r@[i]@).len() > 0,
{
    let mut out: Vec<Vec<u8>> = Vec::new();
    let mut pos: usize = 0;
    while pos < payload.len()
        invariant
            pos <= payload.len(),
            max_chunk > 0,
            concat_chunks(Seq::new(out@.len(), |i: int| out@[i]@)) =~= payload@.take(pos as int),
            forall|i: int| 0 <= i < out@.len() ==> (#[trigger] out@[i]@).len() <= max_chunk,
            forall|i: int| 0 <= i < out@.len() ==> (#[trigger] out@[i]@).len() > 0,
        decreases payload.len() - pos,
    {
        let stop = if payload.len() - pos > max_chunk {
            pos + max_chunk
        } else {
            payload.len()
        };
        let chunk = subvec(payload, pos, stop);
        let ghost views0 = Seq::new(out@.len(), |i: int| out@[i]@);
        out.push(chunk);
        proof {
            let views1 = Seq::new(out@.len(), |i: int| out@[i]@);
            assert(views1.drop_last() =~= views0);
            assert(views1.last() =~= payload@.subrange(pos as int, stop as int));
            assert(payload@.take(stop as int) =~= payload@.take(pos as int) + payload@.subrange(
                pos as int,
                stop as int,
            ));
        }
        pos = stop;
    }
    proof {
        assert(payload@.take(payload@.len() as int) =~= payload@);
    }
    out
}

/// Shapes one page's messages for the wire: one compressed frame, cut
/// into chunks of at most `max_payload_size` bytes.
pub fn compress_page_for_wire(messages: &Vec<MessageToPersist>, max_payload_size: usize) -> (r: Vec<
    Vec<u8>,
>)
    requires
        max_payload_size > 0,
        forall|i: int| 0 <= i < messages.len() ==> wf_message(#[trigger] messages@[i]@),
    ensures
        concat_chunks(Seq::new(r@.len(), |i: int| r@[i]@)) =~= deflate_of(
            frame_image(models_of(messages@)),
        ),
        forall|i: int| 0 <= i < r@.len() ==> (#[trigger] r@[i]@).len() <= max_payload_size,
        inflate_of(deflate_of(frame_image(models_of(messages@)))) == Some(
            frame_image(models_of(messages@)),
        ),
        dec_frame(frame_image(models_of(messages@))) == models_of(messages@),
{
    let raw = encode_frame(messages);
    let zipped = deflate_bytes(&raw);
    proof {
        crate::codec::lemma_frame_round_trip(models_of(messages@));
    }
    split_into_chunks(&zipped, max_payload_size)
}

} // verus!
