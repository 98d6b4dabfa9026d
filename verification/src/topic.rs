//! The per-topic registry of live pages, with the writer metrics the
//! scheduler reads.

use vstd::prelude::*;
use crate::messages_page::MessagesPage;

verus! {

/// Counters the writer task keeps per topic.
#[derive(Clone, Copy, PartialEq, Eq, Structural, Debug)]
pub struct PageWriterMetrics {
    pub saved_messages: u64,
    pub last_saved_message_id: i64,
}

impl PageWriterMetrics {
    pub fn new() -> (r: PageWriterMetrics)
        ensures
            r.saved_messages == 0,
            r.last_saved_message_id == -1,
    {
        PageWriterMetrics { saved_messages: 0, last_saved_message_id: -1 }
    }
}

/// The index of the page with `page_id`, if the registry holds one.
pub open spec fn find_page(s: Seq<MessagesPage>, page_id: int) -> Option<int>
    decreases s.len(),
{
    if s.len() == 0 {
        None
    } else if s.first().spec_page_id() == page_id {
        Some(0)
    } else {
        match find_page(s.drop_first(), page_id) {
            Some(i) => Some(i + 1),
            None => None,
        }
    }
}

/// Whether a page still buffers unflushed messages.
pub open spec fn is_dirty(p: MessagesPage) -> bool {
    p is Uncompressed && p->Uncompressed_0.pending@.len() > 0
}

/// The ids of the pages that still buffer unflushed messages, in
/// registry order.
pub open spec fn dirty_ids(s: Seq<MessagesPage>) -> Seq<i64>
    decreases s.len(),
{
    if s.len() == 0 {
        Seq::empty()
    } else {
        dirty_ids(s.drop_last()) + if is_dirty(s.last()) {
            seq![(s.last().spec_page_id() as i64)]
        } else {
            Seq::empty()
        }
    }
}

/// Total buffered messages over a run of pages.
pub open spec fn queue_size_of(s: Seq<MessagesPage>) -> int
    decreases s.len(),
{
    if s.len() == 0 {
        0
    } else {
        queue_size_of(s.drop_first()) + (if s.first() is Uncompressed {
            s.first()->Uncompressed_0.pending@.len() as int
        } else {
            0
        })
    }
}

pub struct TopicData {
    pub topic_id: String,
    pub pages: Vec<MessagesPage>,
    pub metrics: PageWriterMetrics,
}

impl TopicData {
    /// Every page is well formed and no page id appears twice.
    pub open spec fn wf(&self) -> bool {
        &&& forall|i: int| 0 <= i < self.pages.len() ==> (#[trigger] self.pages@[i]).wf()
        &&& forall|i: int, j: int|
            0 <= i < self.pages.len() && 0 <= j < self.pages.len() && i != j
                ==> self.pages@[i].spec_page_id() != self.pages@[j].spec_page_id()
    }

    pub fn new(topic_id: String) -> (r: TopicData)
        ensures
            r.wf(),
            r.topic_id@ == topic_id@,
            r.pages@.len() == 0,
    {
        TopicData { topic_id, pages: Vec::new(), metrics: PageWriterMetrics::new() }
    }

    /// The index of the page with `page_id`, if any.
    pub fn page_index_of(&self, page_id: i64) -> (r: Option<usize>)
        ensures
            match r {
                Some(i) => i < self.pages.len() && self.pages@[i as int].spec_page_id() == page_id
                    && find_page(self.pages@, page_id as int) == Some(i as int),
                None => find_page(self.pages@, page_id as int) is None,
            },
    {
        let mut i: usize = 0;
        proof {
            assert(self.pages@.skip(0) =~= self.pages@);
        }
        while i < self.pages.len()
            invariant
                i <= self.pages.len(),
                forall|j: int|
                    0 <= j < i ==> (#[trigger] self.pages@[j]).spec_page_id() != page_id,
                find_page(self.pages@, page_id as int) == match find_page(
                    self.pages@.skip(i as int),
                    page_id as int,
                ) {
                    Some(k) => Some(k + i),
                    None => None::<int>,
                },
            decreases self.pages.len() - i,
        {
            proof {
                assert(self.pages@.skip(i as int).first() == self.pages@[i as int]);
                assert(self.pages@.skip(i as int).drop_first() =~= self.pages@.skip(i as int + 1));
            }
            if self.pages[i].get_page_id() == page_id {
                return Some(i);
            }
            i = i + 1;
        }
        proof {
            assert(self.pages@.skip(self.pages@.len() as int).len() == 0);
        }
        None
    }

    /// The page with `page_id`, if the registry holds one.
    pub fn get(&self, page_id: i64) -> (r: Option<&MessagesPage>)
        ensures
            match r {
                Some(p) => find_page(self.pages@, page_id as int) is Some && p.spec_page_id()
                    == page_id && exists|i: int|
                    0 <= i < self.pages@.len() && self.pages@[i] == *p,
                None => find_page(self.pages@, page_id as int) is None,
            },
    {
        match self.page_index_of(page_id) {
            Some(i) => Some(&self.pages[i]),
            None => None,
        }
    }

    /// Removes and returns the page with `page_id`, as eviction does.
    pub fn remove_page(&mut self, page_id: i64) -> (r: Option<MessagesPage>)
        requires
            old(self).wf(),
        ensures
            final(self).wf(),
            final(self).topic_id@ == old(self).topic_id@,
            match r {
                Some(p) => {
                    let fi = find_page(old(self).pages@, page_id as int).unwrap();
                    &&& find_page(old(self).pages@, page_id as int) is Some
                    &&& p == old(self).pages@[fi]
                    &&& p.spec_page_id() == page_id
                    &&& final(self).pages@ =~= old(self).pages@.remove(fi)
                    &&& find_page(final(self).pages@, page_id as int) is None
                },
                None => final(self).pages@ == old(self).pages@ && find_page(
                    old(self).pages@,
                    page_id as int,
                ) is None,
            },
    {
        match self.page_index_of(page_id) {
            Some(i) => {
                let p = self.pages.remove(i);
                proof {
                    assert forall|k: int|
                        0 <= k < self.pages@.len() implies (#[trigger] self.pages@[
                        k]).spec_page_id() != page_id by {
                        if k < i {
                            assert(self.pages@[k] == old(self).pages@[k]);
                        } else {
                            assert(self.pages@[k] == old(self).pages@[k + 1]);
                        }
                    }
                    lemma_find_page_none(self.pages@, page_id as int);
                }
                Some(p)
            },
            None => None,
        }
    }

    /// The index of the page with `page_id`, creating a blank entry if
    /// the registry has none yet.
    pub fn try_get_or_create_uninitialized(&mut self, page_id: i64) -> (r: usize)
        requires
            old(self).wf(),
            0 <= page_id,
        ensures
            final(self).wf(),
            final(self).topic_id@ == old(self).topic_id@,
            r < final(self).pages@.len(),
            final(self).pages@[r as int].spec_page_id() == page_id,
            match find_page(old(self).pages@, page_id as int) {
                Some(i) => final(self).pages@ == old(self).pages@ && r == i,
                None => final(self).pages@ =~= old(self).pages@.push(
                    final(self).pages@.last(),
                ) && final(self).pages@.last() is Empty,
            },
    {
        match self.page_index_of(page_id) {
            Some(i) => i,
            None => {
                let p = MessagesPage::create_as_empty(page_id);
                self.pages.push(p);
                proof {
                    lemma_find_none_distinct(old(self).pages@, page_id as int);
                }
                self.pages.len() - 1
            },
        }
    }

    /// Whether any page still buffers unflushed messages.
    pub fn has_messages_to_save(&self) -> (r: bool)
        ensures
            r == (dirty_ids(self.pages@).len() > 0),
    {
        let ids = self.get_pages_with_data_to_save();
        ids.len() > 0
    }

    /// The ids of the pages that still buffer unflushed messages.
    pub fn get_pages_with_data_to_save(&self) -> (r: Vec<i64>)
        ensures
            r@ =~= dirty_ids(self.pages@),
    {
        let mut result: Vec<i64> = Vec::new();
        let mut i: usize = 0;
        while i < self.pages.len()
            invariant
                i <= self.pages.len(),
                result@ =~= dirty_ids(self.pages@.take(i as int)),
            decreases self.pages.len() - i,
        {
            proof {
                assert(self.pages@.take(i as int + 1).drop_last() =~= self.pages@.take(i as int));
                assert(self.pages@.take(i as int + 1).last() == self.pages@[i as int]);
            }
            if self.pages[i].has_messages_to_save() {
                let pid = self.pages[i].get_page_id();
                result.push(pid);
            }
            i = i + 1;
        }
        proof {
            assert(self.pages@.take(self.pages@.len() as int) =~= self.pages@);
        }
        result
    }

    pub fn get_metrics(&self) -> (r: PageWriterMetrics)
        ensures
            r == self.metrics,
    {
        self.metrics
    }

    /// Total buffered messages awaiting flush over all pages.
    pub fn get_queue_size(&self) -> (r: u64)
        requires
            queue_size_of(self.pages@) <= u64::MAX,
        ensures
            r == queue_size_of(self.pages@),
    {
        let mut total: u64 = 0;
        let mut i: usize = 0;
        proof {
            assert(self.pages@.skip(0) =~= self.pages@);
            lemma_queue_split(self.pages@, 0);
        }
        while i < self.pages.len()
            invariant
                i <= self.pages.len(),
                queue_size_of(self.pages@) <= u64::MAX,
                total == queue_size_of(self.pages@) - queue_size_of(self.pages@.skip(i as int)),
                queue_size_of(self.pages@.skip(i as int)) >= 0,
            decreases self.pages.len() - i,
        {
            proof {
                assert(self.pages@.skip(i as int).first() == self.pages@[i as int]);
                assert(self.pages@.skip(i as int).drop_first() =~= self.pages@.skip(i as int + 1));
                lemma_queue_nonneg(self.pages@.skip(i as int + 1));
            }
            let n = self.pages[i].get_messages_amount_to_save();
            total = total + n as u64;
            i = i + 1;
        }
        proof {
            assert(self.pages@.skip(self.pages@.len() as int).len() == 0);
        }
        total
    }

    /// Every page of the registry, borrowed for iteration.
    pub fn get_all(&self) -> (r: &Vec<MessagesPage>)
        ensures
            r == &self.pages,
    {
        &self.pages
    }
}

/// A registry none of whose pages carries `page_id` finds none.
pub proof fn lemma_find_page_none(s: Seq<MessagesPage>, page_id: int)
    requires
        forall|i: int| 0 <= i < s.len() ==> (#[trigger] s[i]).spec_page_id() != page_id,
    ensures
        find_page(s, page_id) is None,
    decreases s.len(),
{
    if s.len() > 0 {
        assert(forall|i: int|
            0 <= i < s.drop_first().len() ==> (#[trigger] s.drop_first()[i]).spec_page_id()
                != page_id);
        lemma_find_page_none(s.drop_first(), page_id);
    }
}

/// When the search finds nothing, no page carries the id.
pub proof fn lemma_find_none_distinct(s: Seq<MessagesPage>, page_id: int)
    requires
        find_page(s, page_id) is None,
    ensures
        forall|i: int| 0 <= i < s.len() ==> (#[trigger] s[i]).spec_page_id() != page_id,
    decreases s.len(),
{
    if s.len() > 0 {
        lemma_find_none_distinct(s.drop_first(), page_id);
        assert forall|i: int| 0 <= i < s.len() implies (#[trigger] s[i]).spec_page_id()
            != page_id by {
            if i > 0 {
                assert(s.drop_first()[i - 1] == s[i]);
            }
        }
    }
}

/// Queue totals are never negative.
pub proof fn lemma_queue_nonneg(s: Seq<MessagesPage>)
    ensures
        queue_size_of(s) >= 0,
    decreases s.len(),
{
    if s.len() > 0 {
        lemma_queue_nonneg(s.drop_first());
    }
}

/// The total splits at any prefix boundary.
pub proof fn lemma_queue_split(s: Seq<MessagesPage>, i: int)
    requires
        0 <= i <= s.len(),
    ensures
        queue_size_of(s.skip(i)) >= 0,
        queue_size_of(s) - queue_size_of(s.skip(i)) >= 0,
    decreases i,
{
    lemma_queue_nonneg(s.skip(i));
    if i == 0 {
        assert(s.skip(0) =~= s);
    } else {
        lemma_queue_split(s, i - 1);
        assert(s.skip(i - 1).len() > 0);
        assert(s.skip(i - 1).first() == s[i - 1]);
        assert(s.skip(i - 1).drop_first() =~= s.skip(i));
        assert(queue_size_of(s.skip(i - 1)) == queue_size_of(s.skip(i)) + (if s[i - 1]
            is Uncompressed {
            s[i - 1]->Uncompressed_0.pending@.len() as int
        } else {
            0
        }));
    }
}

} // verus!
