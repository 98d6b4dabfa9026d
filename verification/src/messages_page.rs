//! A topic's page as the registry holds it: either an uncompressed page
//! with its blob and buffer, or a blank placeholder for a page that has
//! no uncompressed blob.

use vstd::prelude::*;
use crate::blob::PageBlob;
use crate::page::UncompressedPage;
use crate::page::find_buffered;
use crate::msg::MessageToPersist;
use crate::msg::MessageModel;
use crate::msg::wf_message;
use crate::msg::page_id_of;
use crate::msg::slot_in_page;
use crate::toc::entry_present;

verus! {

/// A page that exists only in the registry, with no blob behind it.
pub struct BlankPage {
    pub page_id: i64,
}

impl BlankPage {
    pub fn new(page_id: i64) -> (r: BlankPage)
        ensures
            r.page_id == page_id,
    {
        BlankPage { page_id }
    }
}

pub enum MessagesPage {
    Uncompressed(UncompressedPage),
    Empty(BlankPage),
}

impl MessagesPage {
    pub open spec fn wf(&self) -> bool {
        match self {
            MessagesPage::Uncompressed(p) => p.wf(),
            MessagesPage::Empty(b) => 0 <= b.page_id,
        }
    }

    pub open spec fn spec_page_id(&self) -> int {
        match self {
            MessagesPage::Uncompressed(p) => p.page_id as int,
            MessagesPage::Empty(b) => b.page_id as int,
        }
    }

    /// What a read of `id` yields on this page: a blank page holds
    /// nothing.
    pub open spec fn lookup(&self, id: int) -> Option<MessageModel> {
        match self {
            MessagesPage::Uncompressed(p) => p.page_lookup(id),
            MessagesPage::Empty(_) => None,
        }
    }

    pub fn create_as_empty(page_id: i64) -> (r: MessagesPage)
        requires
            0 <= page_id,
        ensures
            r.wf(),
            r is Empty,
            r.spec_page_id() == page_id,
            forall|id: int| r.lookup(id) is None,
    {
        MessagesPage::Empty(BlankPage::new(page_id))
    }

    pub fn create_uncompressed(page_id: i64, page_blob: PageBlob) -> (r: MessagesPage)
        requires
            0 <= page_id,
            page_blob.wf(),
        ensures
            r.wf(),
            r is Uncompressed,
            r.spec_page_id() == page_id,
            r->Uncompressed_0.page_blob == page_blob,
            r->Uncompressed_0.pending@.len() == 0,
    {
        MessagesPage::Uncompressed(UncompressedPage::new(page_id, page_blob))
    }

    pub fn has_messages_to_save(&self) -> (r: bool)
        ensures
            r == (self is Uncompressed && self->Uncompressed_0.pending@.len() > 0),
    {
        match self {
            MessagesPage::Uncompressed(page) => page.has_messages_to_save(),
            MessagesPage::Empty(_) => false,
        }
    }

    pub fn get_messages_amount_to_save(&self) -> (r: usize)
        ensures
            r == if self is Uncompressed {
                self->Uncompressed_0.pending@.len() as int
            } else {
                0
            },
    {
        match self {
            MessagesPage::Uncompressed(page) => page.get_messages_amount_to_save(),
            MessagesPage::Empty(_) => 0,
        }
    }

    pub fn is_uncompressed(&self) -> (r: bool)
        ensures
            r == (self is Uncompressed),
    {
        match self {
            MessagesPage::Uncompressed(_) => true,
            _ => false,
        }
    }

    /// Buffers new messages; the page must be the uncompressed variant,
    /// which callers check rather than hit a panic.
    pub fn new_messages(&mut self, messages: Vec<MessageToPersist>)
        requires
            old(self).wf(),
            *old(self) is Uncompressed,
            forall|i: int| 0 <= i < messages.len() ==> wf_message(#[trigger] messages@[i]@),
            forall|i: int|
                0 <= i < messages.len() ==> page_id_of(#[trigger] messages@[i].message_id as int)
                    == old(self).spec_page_id(),
            forall|i: int|
                0 <= i < messages.len() ==> !entry_present(
                    (*old(self))->Uncompressed_0.toc.entries@[slot_in_page(
                        #[trigger] messages@[i].message_id as int,
                    )],
                ),
            forall|i: int|
                0 <= i < messages.len() ==> find_buffered(
                    (*old(self))->Uncompressed_0.pending@,
                    #[trigger] messages@[i].message_id as int,
                ) is None,
            forall|i: int, j: int|
                0 <= i < messages.len() && 0 <= j < messages.len() && i != j
                    ==> messages@[i].message_id != messages@[j].message_id,
        ensures
            final(self).wf(),
            *final(self) is Uncompressed,
            final(self).spec_page_id() == old(self).spec_page_id(),
            (*final(self))->Uncompressed_0.pending@ =~= (*old(self))->Uncompressed_0.pending@
                + messages@,
            (*final(self))->Uncompressed_0.toc == (*old(self))->Uncompressed_0.toc,
            (*final(self))->Uncompressed_0.page_blob == (*old(self))->Uncompressed_0.page_blob,
            forall|i: int|
                0 <= i < messages.len() ==> final(self).lookup(
                    #[trigger] messages@[i].message_id as int,
                ) == Some(messages@[i]@),
            forall|id: int|
                (forall|i: int| 0 <= i < messages.len() ==> (#[trigger] messages@[i].message_id)
                    != id) ==> final(self).lookup(id) == old(self).lookup(id),
    {
        match self {
            MessagesPage::Uncompressed(page) => page.new_messages(messages),
            MessagesPage::Empty(_) => {
                proof {
                    assert(false);
                }
            },
        }
    }

    /// The uncompressed page behind this variant; callers establish the
    /// variant first, where the bus would have panicked.
    pub fn unwrap_as_uncompressed_page(&self) -> (r: &UncompressedPage)
        requires
            self is Uncompressed,
        ensures
            *r == self->Uncompressed_0,
    {
        match self {
            MessagesPage::Uncompressed(result) => result,
            MessagesPage::Empty(_) => vstd::pervasive::unreached(),
        }
    }

    pub fn get_page_id(&self) -> (r: i64)
        ensures
            r == self.spec_page_id(),
    {
        match self {
            MessagesPage::Uncompressed(page) => page.page_id,
            MessagesPage::Empty(page) => page.page_id,
        }
    }

    /// The message stored under `message_id`, absent on a blank page.
    pub fn get_message(&self, message_id: i64) -> (r: Option<MessageToPersist>)
        requires
            self.wf(),
            0 <= message_id,
        ensures
            match r {
                Some(m) => self.lookup(message_id as int) == Some(m@),
                None => self.lookup(message_id as int) is None,
            },
    {
        match self {
            MessagesPage::Uncompressed(page) => page.get_message(message_id),
            MessagesPage::Empty(_) => None,
        }
    }
}

} // verus!
