use bus_persistence::blob::PageBlob;
use bus_persistence::messages_page::MessagesPage;
use bus_persistence::msg::MessageToPersist;
use bus_persistence::ops::get_page_to_read;
use bus_persistence::topic::TopicData;

fn msg(id: i64, data: &[u8]) -> MessageToPersist {
    MessageToPersist { message_id: id, created: id, data: data.to_vec(), headers: Vec::new() }
}

#[test]
fn blank_page_holds_nothing() {
    let page = MessagesPage::create_as_empty(4);
    assert!(!page.is_uncompressed());
    assert!(!page.has_messages_to_save());
    assert_eq!(page.get_messages_amount_to_save(), 0);
    assert_eq!(page.get_page_id(), 4);
    assert!(page.get_message(400_000).is_none());
}

#[test]
fn uncompressed_variant_buffers() {
    let mut page = MessagesPage::create_uncompressed(0, PageBlob::create_new());
    assert!(page.is_uncompressed());
    page.new_messages(vec![msg(1, b"a"), msg(2, b"b")]);
    assert!(page.has_messages_to_save());
    assert_eq!(page.get_messages_amount_to_save(), 2);
    assert_eq!(page.get_message(2).unwrap().data, b"b".to_vec());
    let inner = page.unwrap_as_uncompressed_page();
    assert_eq!(inner.page_id, 0);
}

#[test]
fn registry_tracks_pages() {
    let mut topic = TopicData::new("orders".to_string());
    let i = topic.try_get_or_create_uninitialized(3);
    assert_eq!(topic.pages[i].get_page_id(), 3);
    assert!(!topic.pages[i].is_uncompressed());
    // A second request finds the same entry.
    let j = topic.try_get_or_create_uninitialized(3);
    assert_eq!(i, j);
    assert_eq!(topic.pages.len(), 1);
    assert!(topic.get(3).is_some());
    assert!(topic.get(9).is_none());
    let removed = topic.remove_page(3).unwrap();
    assert_eq!(removed.get_page_id(), 3);
    assert!(topic.get(3).is_none());
}

#[test]
fn registry_reports_dirty_pages() {
    let mut topic = TopicData::new("orders".to_string());
    let i = topic.try_get_or_create_uninitialized(7);
    assert!(!topic.has_messages_to_save());
    topic.pages.remove(i);
    let mut page = MessagesPage::create_uncompressed(0, PageBlob::create_new());
    page.new_messages(vec![msg(5, b"x"), msg(6, b"y")]);
    topic.pages.push(page);
    topic.pages.push(MessagesPage::create_as_empty(1));
    assert!(topic.has_messages_to_save());
    assert_eq!(topic.get_pages_with_data_to_save(), vec![0]);
    assert_eq!(topic.get_queue_size(), 2);
    assert_eq!(topic.get_all().len(), 2);
    let metrics = topic.get_metrics();
    assert_eq!(metrics.saved_messages, 0);
}

#[test]
fn restore_prefers_existing_blob() {
    // A blob already carrying a flushed page restores as uncompressed.
    let mut seeded = bus_persistence::page::UncompressedPage::new(0, PageBlob::create_new());
    seeded.new_messages(vec![msg(8, b"kept")]);
    seeded.flush().unwrap();
    let blob = PageBlob { data: seeded.page_blob.data.clone() };
    let mut topic = TopicData::new("t".to_string());
    let page = get_page_to_read(&mut topic, 0, Some(blob));
    assert!(page.is_uncompressed());
    assert_eq!(page.get_message(8).unwrap().data, b"kept".to_vec());
    // A page with no blob behind it restores blank.
    let page = get_page_to_read(&mut topic, 2, None);
    assert!(!page.is_uncompressed());
}

#[test]
fn blob_reads_zero_extend() {
    let mut blob = PageBlob::create_new();
    blob.write_at_position(5, &vec![7u8, 8, 9]);
    assert_eq!(blob.len_in_bytes(), 512);
    assert_eq!(blob.read_from_position(4, 6), vec![0, 7, 8, 9, 0, 0]);
    assert_eq!(blob.read_from_position(510, 4), vec![0, 0, 0, 0]);
    blob.save_pages(2, &vec![1u8; 512]);
    assert_eq!(blob.len_in_bytes(), 1536);
    assert_eq!(blob.byte_at(1024), 1);
    assert_eq!(blob.byte_at(700), 0);
}

#[test]
fn write_rounds_respect_page_cap() {
    // 3 MiB per round trip at 512-byte pages: 6144 pages.
    let rounds = bus_persistence::blob::plan_write_rounds(512, 7_000_000, 6144);
    let cap = 6144 * 512;
    assert_eq!(rounds.len(), 3);
    assert_eq!(rounds[0], (512, cap));
    assert_eq!(rounds[1], (512 + cap, cap));
    assert_eq!(rounds[2], (512 + 2 * cap, 7_000_000 - 2 * cap));
    assert_eq!(rounds.iter().map(|r| r.1).sum::<usize>(), 7_000_000);
    // A write that fits goes out in one round.
    let rounds = bus_persistence::blob::plan_write_rounds(0, 100, 6144);
    assert_eq!(rounds, vec![(0, 100)]);
}
