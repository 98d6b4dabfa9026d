//! The message a topic persists: an opaque payload with its identifier,
//! creation time and ordered metadata pairs.

use vstd::prelude::*;
use crate::MESSAGES_PER_PAGE;
use crate::PAGES_PER_CLUSTER;

verus! {

/// One metadata pair carried with a message, as raw bytes.
pub struct MsgHeader {
    pub key: Vec<u8>,
    pub value: Vec<u8>,
}

/// A message handed to the persistence tier.
pub struct MessageToPersist {
    pub message_id: i64,
    pub created: i64,
    pub data: Vec<u8>,
    pub headers: Vec<MsgHeader>,
}

/// The mathematical content of a message.
pub struct MessageModel {
    pub message_id: i64,
    pub created: i64,
    pub data: Seq<u8>,
    pub headers: Seq<(Seq<u8>, Seq<u8>)>,
}

impl View for MessageToPersist {
    type V = MessageModel;

    open spec fn view(&self) -> MessageModel {
        MessageModel {
            message_id: self.message_id,
            created: self.created,
            data: self.data@,
            headers: Seq::new(self.headers@.len(), |i: int| (self.headers@[i].key@, self.headers@[i].value@)),
        }
    }
}

/// Bounds every stored message obeys: non-negative id and timestamp, a
/// payload within the single-message cap, and moderate metadata.
pub open spec fn wf_message(m: MessageModel) -> bool {
    &&& 0 <= m.message_id
    &&& 0 <= m.created
    &&& m.data.len() <= 0x500_000
    &&& m.headers.len() <= 0x1000
    &&& forall|i: int|
        0 <= i < m.headers.len() ==> m.headers[i].0.len() <= 0x10000 && m.headers[i].1.len()
            <= 0x10000
}

/// The logical page a message id belongs to.
pub open spec fn page_id_of(message_id: int) -> int {
    message_id / (MESSAGES_PER_PAGE as int)
}

/// The slot of a message id inside its page.
pub open spec fn slot_in_page(message_id: int) -> int {
    message_id % (MESSAGES_PER_PAGE as int)
}

/// The cluster a page belongs to.
pub open spec fn cluster_id_of(page_id: int) -> int {
    page_id / (PAGES_PER_CLUSTER as int)
}

/// The slot of a page inside its cluster.
pub open spec fn page_slot_in_cluster(page_id: int) -> int {
    page_id % (PAGES_PER_CLUSTER as int)
}

/// Computes the page of a message id.
pub fn message_page_id(message_id: i64) -> (r: i64)
    requires
        0 <= message_id,
    ensures
        r == page_id_of(message_id as int),
{
    message_id / MESSAGES_PER_PAGE
}

/// Computes the slot of a message id inside its page.
pub fn message_slot_in_page(message_id: i64) -> (r: usize)
    requires
        0 <= message_id,
    ensures
        r == slot_in_page(message_id as int),
        r < MESSAGES_PER_PAGE,
{
    (message_id % MESSAGES_PER_PAGE) as usize
}

/// Computes the cluster of a page id.
pub fn page_cluster_id(page_id: i64) -> (r: i64)
    requires
        0 <= page_id,
    ensures
        r == cluster_id_of(page_id as int),
{
    page_id / PAGES_PER_CLUSTER
}

/// Computes the slot of a page inside its cluster.
pub fn page_slot(page_id: i64) -> (r: usize)
    requires
        0 <= page_id,
    ensures
        r == page_slot_in_cluster(page_id as int),
        r < PAGES_PER_CLUSTER,
{
    (page_id % PAGES_PER_CLUSTER) as usize
}

/// A deep copy of a message, equal to the original in content.
pub fn clone_message(m: &MessageToPersist) -> (r: MessageToPersist)
    ensures
        r@ == m@,
{
    let mut data: Vec<u8> = Vec::new();
    let mut i: usize = 0;
    while i < m.data.len()
        invariant
            i <= m.data.len(),
            data@ =~= m.data@.subrange(0, i as int),
        decreases m.data.len() - i,
    {
        data.push(m.data[i]);
        i = i + 1;
    }
    let mut headers: Vec<MsgHeader> = Vec::new();
    let mut j: usize = 0;
    while j < m.headers.len()
        invariant
            j <= m.headers.len(),
            headers@.len() == j,
            forall|k: int|
                0 <= k < j ==> headers@[k].key@ == m.headers@[k].key@ && headers@[k].value@
                    == m.headers@[k].value@,
        decreases m.headers.len() - j,
    {
        let mut key: Vec<u8> = Vec::new();
        let mut a: usize = 0;
        while a < m.headers[j].key.len()
            invariant
                j < m.headers.len(),
                a <= m.headers@[j as int].key.len(),
                key@ =~= m.headers@[j as int].key@.subrange(0, a as int),
            decreases m.headers[j as int].key.len() - a,
        {
            key.push(m.headers[j].key[a]);
            a = a + 1;
        }
        let mut value: Vec<u8> = Vec::new();
        let mut b: usize = 0;
        while b < m.headers[j].value.len()
            invariant
                j < m.headers.len(),
                b <= m.headers@[j as int].value.len(),
                value@ =~= m.headers@[j as int].value@.subrange(0, b as int),
            decreases m.headers[j as int].value.len() - b,
        {
            value.push(m.headers[j].value[b]);
            b = b + 1;
        }
        proof {
            assert(key@ =~= m.headers@[j as int].key@);
            assert(value@ =~= m.headers@[j as int].value@);
        }
        headers.push(MsgHeader { key, value });
        j = j + 1;
    }
    proof {
        assert(data@ =~= m.data@);
    }
    let r = MessageToPersist { message_id: m.message_id, created: m.created, data, headers };
    proof {
        assert(r@.headers =~= m@.headers);
    }
    r
}

} // verus!
