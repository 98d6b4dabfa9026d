//! The cluster-wide topics snapshot with its compare-and-set protocol:
//! writers read the current version, build the new record list, and a
//! write lands only while the version has not moved.

use vstd::prelude::*;

verus! {

/// One topic's line in the snapshot.  Topic ids are kept as their
/// UTF-8 bytes.
pub struct TopicSnapshotRecord {
    pub topic_id: Vec<u8>,
    pub max_message_id: i64,
    pub max_page_id_to_persist: i64,
}

/// Whether a record run carries `topic` at least once.
pub open spec fn holds_topic(s: Seq<TopicSnapshotRecord>, topic: Seq<u8>) -> bool {
    exists|i: int| 0 <= i < s.len() && (#[trigger] s[i]).topic_id@ == topic
}

/// The snapshot: a version counter and the topics' records.
pub struct TopicsSnapshot {
    pub version: i64,
    pub records: Vec<TopicSnapshotRecord>,
}

/// The store holding the current snapshot blob.
pub struct SnapshotStore {
    pub current: TopicsSnapshot,
}

impl SnapshotStore {
    pub fn new() -> (r: SnapshotStore)
        ensures
            r.current.version == 0,
            r.current.records@.len() == 0,
    {
        SnapshotStore { current: TopicsSnapshot { version: 0, records: Vec::new() } }
    }

    pub fn read_version(&self) -> (r: i64)
        ensures
            r == self.current.version,
    {
        self.current.version
    }

    pub fn read(&self) -> (r: &TopicsSnapshot)
        ensures
            r == &self.current,
    {
        &self.current
    }

    /// The compare-and-set write: the new list lands, with the version
    /// advanced by one, only while the version still matches what the
    /// writer read; otherwise nothing changes and the writer reloads.
    pub fn cas_write(&mut self, expected_version: i64, records: Vec<TopicSnapshotRecord>) -> (r:
        bool)
        requires
            old(self).current.version < i64::MAX,
        ensures
            r == (old(self).current.version == expected_version),
            r ==> final(self).current.version == old(self).current.version + 1
                && final(self).current.records == records,
            !r ==> *final(self) == *old(self),
    {
        if self.current.version == expected_version {
            self.current = TopicsSnapshot { version: expected_version + 1, records };
            true
        } else {
            false
        }
    }
}

/// Whether two byte strings are equal.
pub fn bytes_equal(a: &Vec<u8>, b: &Vec<u8>) -> (r: bool)
    ensures
        r == (a@ == b@),
{
    if a.len() != b.len() {
        return false;
    }
    let mut i: usize = 0;
    while i < a.len()
        invariant
            i <= a.len(),
            a.len() == b.len(),
            forall|j: int| 0 <= j < i ==> a@[j] == b@[j],
        decreases a.len() - i,
    {
        if a[i] != b[i] {
            return false;
        }
        i = i + 1;
    }
    proof {
        assert(a@ =~= b@);
    }
    true
}

/// Builds the record list a topic creation writes: the existing records
/// with the new topic appended, or the list unchanged when the topic is
/// already listed, so no snapshot ever lists a topic twice over this
/// path.
pub fn with_topic(records: &Vec<TopicSnapshotRecord>, topic_id: &Vec<u8>) -> (r: Vec<
    TopicSnapshotRecord,
>)
    ensures
        holds_topic(r@, topic_id@),
        holds_topic(records@, topic_id@) ==> r@.len() == records@.len(),
        !holds_topic(records@, topic_id@) ==> r@.len() == records@.len() + 1,
        forall|t: Seq<u8>|
            holds_topic(records@, t) ==> #[trigger] holds_topic(r@, t),
        forall|j: int|
            0 <= j < records@.len() ==> (#[trigger] r@[j]).topic_id@ == records@[j].topic_id@
                && r@[j].max_message_id == records@[j].max_message_id
                && r@[j].max_page_id_to_persist == records@[j].max_page_id_to_persist,
        (forall|i: int, j: int|
            0 <= i < records@.len() && 0 <= j < records@.len() && i != j
                ==> records@[i].topic_id@ != records@[j].topic_id@) ==> forall|i: int, j: int|
            0 <= i < r@.len() && 0 <= j < r@.len() && i != j ==> r@[i].topic_id@
                != r@[j].topic_id@,
{
    let mut out: Vec<TopicSnapshotRecord> = Vec::new();
    let mut found = false;
    let mut i: usize = 0;
    while i < records.len()
        invariant
            i <= records.len(),
            out@.len() == i,
            forall|j: int|
                0 <= j < i ==> (#[trigger] out@[j]).topic_id@ == records@[j].topic_id@
                    && out@[j].max_message_id == records@[j].max_message_id
                    && out@[j].max_page_id_to_persist == records@[j].max_page_id_to_persist,
            found == exists|j: int| 0 <= j < i && (#[trigger] records@[j]).topic_id@ == topic_id@,
        decreases records.len() - i,
    {
        let rec = &records[i];
        if bytes_equal(&rec.topic_id, topic_id) {
            found = true;
        }
        let copied = TopicSnapshotRecord {
            topic_id: crate::codec::subvec(&rec.topic_id, 0, rec.topic_id.len()),
            max_message_id: rec.max_message_id,
            max_page_id_to_persist: rec.max_page_id_to_persist,
        };
        proof {
            assert(copied.topic_id@ =~= records@[i as int].topic_id@);
        }
        out.push(copied);
        i = i + 1;
    }
    if !found {
        let fresh = TopicSnapshotRecord {
            topic_id: crate::codec::subvec(topic_id, 0, topic_id.len()),
            max_message_id: -1,
            max_page_id_to_persist: 0,
        };
        proof {
            assert(fresh.topic_id@ =~= topic_id@);
        }
        out.push(fresh);
    }
    proof {
        assert forall|t: Seq<u8>|
            holds_topic(records@, t) implies #[trigger] holds_topic(out@, t) by {
            let j = choose|j: int| 0 <= j < records@.len() && (#[trigger] records@[j]).topic_id@ == t;
            assert(out@[j].topic_id@ == t);
        }
        if found {
            let j = choose|j: int|
                0 <= j < records@.len() && (#[trigger] records@[j]).topic_id@ == topic_id@;
            assert(out@[j].topic_id@ == topic_id@);
        } else {
            assert(out@[out@.len() - 1].topic_id@ == topic_id@);
        }
        if forall|i: int, j: int|
            0 <= i < records@.len() && 0 <= j < records@.len() && i != j
                ==> records@[i].topic_id@ != records@[j].topic_id@ {
            assert forall|i: int, j: int|
                0 <= i < out@.len() && 0 <= j < out@.len() && i != j implies out@[i].topic_id@
                != out@[j].topic_id@ by {
                if i < records@.len() && j < records@.len() {
                    assert(out@[i].topic_id@ == records@[i].topic_id@);
                    assert(out@[j].topic_id@ == records@[j].topic_id@);
                } else if i < records@.len() {
                    assert(out@[j].topic_id@ == topic_id@ && !found);
                    assert(records@[i].topic_id@ != topic_id@);
                } else {
                    assert(out@[i].topic_id@ == topic_id@ && !found);
                    assert(records@[j].topic_id@ != topic_id@);
                }
            }
        }
    }
    out
}

} // verus!
