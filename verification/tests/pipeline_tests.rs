use disk_scan::{
    is_network_volume_name, mount_display_name, mount_entry_location, positive_space, EventBatcher,
    LocationType, NodeStats, PermitPool, StreamingScanEvent,
};

fn progress_event(n: u64) -> StreamingScanEvent {
    StreamingScanEvent::Progress {
        files_scanned: n,
        total_size: n * 10,
        current_path: format!("/p{}", n),
    }
}

fn event_number(e: &StreamingScanEvent) -> u64 {
    match e {
        StreamingScanEvent::Progress { files_scanned, .. } => *files_scanned,
        _ => panic!("unexpected event kind"),
    }
}

#[test]
fn batcher_flushes_at_watermark_in_order() {
    let mut b = EventBatcher::new(3, 1000, 0);
    assert!(b.push(progress_event(1), 1).is_none());
    assert!(b.push(progress_event(2), 2).is_none());
    let batch = b.push(progress_event(3), 3).expect("watermark flush");
    assert_eq!(batch.len(), 3);
    for (i, e) in batch.iter().enumerate() {
        assert_eq!(event_number(e), i as u64 + 1);
    }
    assert_eq!(b.buffered(), 0);
}

#[test]
fn batcher_flushes_on_interval() {
    let mut b = EventBatcher::new(100, 50, 0);
    assert!(b.push(progress_event(1), 10).is_none());
    let batch = b.push(progress_event(2), 60).expect("interval flush");
    assert_eq!(batch.len(), 2);
}

#[test]
fn batcher_flushes_exactly_at_watermarks() {
    // Strictly below both watermarks: no release.
    let mut b = EventBatcher::new(3, 100, 0);
    assert!(b.push(progress_event(1), 99).is_none());
    // At the interval boundary: release.
    assert!(b.push(progress_event(2), 100).is_some());
    // A fresh count builds toward the size watermark again.
    assert!(b.push(progress_event(3), 101).is_none());
    assert!(b.push(progress_event(4), 102).is_none());
    assert!(b.push(progress_event(5), 103).is_some());
}

#[test]
fn batcher_trailing_flush_drops_nothing() {
    let mut b = EventBatcher::new(4, 1000, 0);
    let mut seen: Vec<u64> = Vec::new();
    for i in 1..=10u64 {
        if let Some(batch) = b.push(progress_event(i), i) {
            for e in &batch {
                seen.push(event_number(e));
            }
        }
    }
    let tail = b.close();
    for e in &tail {
        seen.push(event_number(e));
    }
    // Every pushed event came out exactly once, in push order.
    assert_eq!(seen, (1..=10u64).collect::<Vec<u64>>());
}

#[test]
fn permit_pool_bounds_concurrency() {
    let mut p = PermitPool::new(2);
    assert_eq!(p.available(), 2);
    assert!(p.try_acquire());
    assert!(p.try_acquire());
    assert!(!p.try_acquire());
    p.release();
    assert_eq!(p.available(), 1);
    assert!(p.try_acquire());
}

#[test]
fn node_stats_merge_accumulates() {
    let mut s = NodeStats::new();
    assert_eq!(s.file_count, 0);
    assert_eq!(s.total_size, 0);
    let f = NodeStats::from_file(123);
    assert_eq!(f.file_count, 1);
    assert_eq!(f.total_size, 123);
    s.merge(&f);
    s.merge(&NodeStats::from_file(7));
    assert_eq!(s.file_count, 2);
    assert_eq!(s.total_size, 130);
}

#[test]
fn mount_entries_classified() {
    assert_eq!(
        mount_entry_location("/dev/sda1", "/mnt/disk", "ext4"),
        Some(LocationType::Storage)
    );
    assert_eq!(
        mount_entry_location("/dev/nvme0n1p2", "/", "ext4"),
        Some(LocationType::Storage)
    );
    assert_eq!(
        mount_entry_location("server:/share", "/mnt/share", "nfs"),
        Some(LocationType::Network)
    );
    assert_eq!(
        mount_entry_location("rootfs", "/", "tmpfs"),
        Some(LocationType::Storage)
    );
    assert_eq!(mount_entry_location("tmpfs", "/tmp", "tmpfs"), None);
}

#[test]
fn network_volume_names() {
    assert!(is_network_volume_name("smb://server/share"));
    assert!(is_network_volume_name("afp://server/share"));
    assert!(!is_network_volume_name("Backup Disk"));
}

#[test]
fn spaces_reported_only_when_positive() {
    assert_eq!(positive_space(0), None);
    assert_eq!(positive_space(512), Some(512));
}

#[test]
fn mount_names() {
    assert_eq!(mount_display_name("/"), "Root");
    assert_eq!(mount_display_name("/mnt/data"), "data");
    assert_eq!(mount_display_name("/media/usb0"), "usb0");
}
