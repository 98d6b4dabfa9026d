use bus_persistence::blob::PageBlob;
use bus_persistence::cluster::CompressedCluster;
use bus_persistence::cluster::ClusterReadError;
use bus_persistence::msg::MessageToPersist;
use bus_persistence::ops::get_message_by_id;
use bus_persistence::page::UncompressedPage;
use bus_persistence::toc::FileToc;
use bus_persistence::topic::TopicData;

fn msg(id: i64, created: i64, data: &[u8]) -> MessageToPersist {
    MessageToPersist { message_id: id, created, data: data.to_vec(), headers: Vec::new() }
}

fn msg_for(id: i64) -> MessageToPersist {
    msg(id, id, &(id as u64).to_le_bytes())
}

#[test]
fn s1_single_message() {
    let mut topic = TopicData::new("t".to_string());
    let i = bus_persistence::ops::get_or_restore(&mut topic, 0, Some(PageBlob::create_new()));
    topic.pages[i].new_messages(vec![msg(0, 0, b"hi")]);
    let got = get_message_by_id(&topic, None, 0).unwrap();
    assert_eq!(got.data, b"hi".to_vec());
    assert!(get_message_by_id(&topic, None, 1).is_none());
}

#[test]
fn s2_cross_page_flush() {
    let mut page0 = UncompressedPage::new(0, PageBlob::create_new());
    for id in 0..100_000i64 {
        page0.new_messages(vec![msg_for(id)]);
    }
    let mut page1 = UncompressedPage::new(1, PageBlob::create_new());
    page1.new_messages(vec![msg_for(100_000)]);
    page0.flush().unwrap();
    page1.flush().unwrap();
    // A restart reopens the pages over the same blob bytes.
    let blob0 = PageBlob { data: page0.page_blob.data.clone() };
    let blob1 = PageBlob { data: page1.page_blob.data.clone() };
    drop(page0);
    drop(page1);
    let reopened0 = UncompressedPage::new(0, blob0);
    let reopened1 = UncompressedPage::new(1, blob1);
    let m = reopened0.get_message(99_999).unwrap();
    assert_eq!(m.data, (99_999u64).to_le_bytes().to_vec());
    let m = reopened1.get_message(100_000).unwrap();
    assert_eq!(m.data, (100_000u64).to_le_bytes().to_vec());
    assert!(reopened0.get_message(77).is_some());
}

#[test]
fn s3_compression_promotion() {
    let mut messages = Vec::new();
    for id in 0..100_000i64 {
        messages.push(msg_for(id));
    }
    let mut cluster =
        CompressedCluster::new("t".to_string(), 0, PageBlob::create_new(), 0x50_0000);
    cluster.save_cluser_page(&messages).unwrap();
    assert!(cluster.has_compressed_page(0));
    let restored = cluster.get_compressed_page_messages(0).unwrap();
    assert_eq!(restored.len(), 100_000);
    assert_eq!(restored[42].message_id, 42);
    assert_eq!(restored[42].data, (42u64).to_le_bytes().to_vec());
    // The uncompressed page is gone; the resolver falls back to the cluster.
    let topic = TopicData::new("t".to_string());
    let got = get_message_by_id(&topic, Some(&cluster), 42).unwrap();
    assert_eq!(got.data, (42u64).to_le_bytes().to_vec());
}

#[test]
fn s5_corrupted_slot_tolerance() {
    let mut cluster =
        CompressedCluster::new("t".to_string(), 0, PageBlob::create_new(), 0x50_0000);
    // Pages 3 and 4 of cluster 0, one message each.
    cluster.save_cluser_page(&vec![msg_for(3 * 100_000)]).unwrap();
    cluster.save_cluser_page(&vec![msg_for(4 * 100_000)]).unwrap();
    // Overwrite slot 3's table entry on the blob: a large bogus extent.
    let mut data = cluster.data.page_blob.data.clone();
    let bogus_offset: u32 = 0x10_0000;
    let bogus_size: u32 = 10 * 0x50_0000;
    data[24..28].copy_from_slice(&bogus_offset.to_le_bytes());
    data[28..32].copy_from_slice(&bogus_size.to_le_bytes());
    let reopened = CompressedCluster::new("t".to_string(), 0, PageBlob { data }, 0x50_0000);
    // The corrupted slot reads as absent; the checked read tells the
    // corruption apart so the caller can log it; slot 4 is untouched.
    assert!(reopened.get_compressed_page_messages(3).is_none());
    assert!(matches!(
        reopened.read_cluster_page(3),
        Err(ClusterReadError::FrameUnreadable)
    ));
    assert!(get_message_by_id(&TopicData::new("t".to_string()), Some(&reopened), 3 * 100_000)
        .is_none());
    let r4 = reopened.get_compressed_page_messages(4).unwrap();
    assert_eq!(r4[0].message_id, 400_000);
    let got = get_message_by_id(&TopicData::new("t".to_string()), Some(&reopened), 4 * 100_000)
        .unwrap();
    assert_eq!(got.message_id, 400_000);
}

#[test]
fn p3_idempotent_slot_writes() {
    let mut cluster =
        CompressedCluster::new("t".to_string(), 0, PageBlob::create_new(), 0x50_0000);
    let first = vec![msg(0, 0, b"original")];
    cluster.save_cluser_page(&first).unwrap();
    let snapshot = cluster.data.page_blob.data.clone();
    // The same write again: byte-for-byte identical.
    cluster.save_cluser_page(&first).unwrap();
    assert_eq!(cluster.data.page_blob.data, snapshot);
    // A write with different content for the same page: a no-op.
    let different = vec![msg(1, 9, b"changed")];
    cluster.save_cluser_page(&different).unwrap();
    assert_eq!(cluster.data.page_blob.data, snapshot);
    let read = cluster.get_compressed_page_messages(0).unwrap();
    assert_eq!(read[0].data, b"original".to_vec());
}

#[test]
fn p4_toc_monotonic_cursor() {
    let mut toc = FileToc::create_new(1000);
    assert_eq!(toc.get_write_position(), 8192);
    toc.register_slot(5, 100);
    assert_eq!(toc.get_write_position(), 8192 + 512);
    toc.register_slot(7, 1000);
    assert_eq!(toc.get_write_position(), 8192 + 512 + 1024);
    let e5 = toc.get_position(5);
    let e7 = toc.get_position(7);
    assert_eq!((e5.offset, e5.size), (8192, 100));
    assert_eq!((e7.offset, e7.size), (8704, 1000));
    // No two extents overlap.
    assert!(e5.offset + e5.size <= e7.offset);
    assert!(toc.has_content(5) && toc.has_content(7) && !toc.has_content(6));
}

#[test]
fn toc_survives_reopen() {
    let mut toc = FileToc::create_new(1000);
    let mut blob = PageBlob::create_new();
    let payload: Vec<u8> = vec![9u8; 700];
    bus_persistence::toc::store_slot(&mut toc, &mut blob, 123, &payload);
    let reread = FileToc::read_toc(&blob, 1000);
    let e = reread.get_position(123);
    assert_eq!((e.offset, e.size), (8192, 700));
    // The reopened cursor restarts past the stored extent, page-aligned.
    assert_eq!(reread.get_write_position(), toc.get_write_position());
    assert_eq!(reread.get_write_position(), 8192 + 1024);
    assert_eq!(blob.read_from_position(8192, 700), payload);
}

#[test]
fn page_read_before_and_after_flush() {
    let mut page = UncompressedPage::new(9, PageBlob::create_new());
    let id = 9 * 100_000 + 17;
    page.new_messages(vec![msg(id, 5, b"payload")]);
    assert_eq!(page.get_message(id).unwrap().data, b"payload".to_vec());
    page.flush().unwrap();
    assert_eq!(page.get_message(id).unwrap().data, b"payload".to_vec());
    assert!(page.get_message(id + 1).is_none());
    assert!(!page.has_messages_to_save());
}
