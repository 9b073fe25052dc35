use amazon_rose_forest::holochain::transparency::{recent_audit_links, tag_timestamp, timestamp_tag_at};

#[test]
fn timestamp_tag_is_big_endian() {
    let tag = timestamp_tag_at(0x0102_0304_0506_0708);
    assert_eq!(tag, vec![1, 2, 3, 4, 5, 6, 7, 8]);
    assert_eq!(timestamp_tag_at(0), vec![0; 8]);
    assert_eq!(timestamp_tag_at(u64::MAX), vec![255; 8]);
}

#[test]
fn timestamp_tag_reads_back() {
    for t in [0u64, 1, 255, 256, 1_700_000_000_000_000, u64::MAX] {
        assert_eq!(tag_timestamp(&timestamp_tag_at(t)), t);
    }
}

#[test]
fn tag_timestamp_reads_first_eight_bytes() {
    let tag = vec![0, 0, 0, 0, 0, 0, 1, 0, 99, 98];
    assert_eq!(tag_timestamp(&tag), 256);
}

#[test]
fn recent_audits_come_newest_first_and_are_cut() {
    let links = vec![
        (timestamp_tag_at(10), "a"),
        (timestamp_tag_at(30), "b"),
        (timestamp_tag_at(20), "c"),
        (timestamp_tag_at(30), "d"),
        (timestamp_tag_at(u64::MAX), "e"),
    ];
    assert_eq!(recent_audit_links(links.clone(), 10), vec!["e", "b", "d", "c", "a"]);
    assert_eq!(recent_audit_links(links.clone(), 2), vec!["e", "b"]);
    assert_eq!(recent_audit_links(links, 0), Vec::<&str>::new());
    assert_eq!(recent_audit_links(Vec::<(Vec<u8>, u32)>::new(), 3), Vec::<u32>::new());
}
