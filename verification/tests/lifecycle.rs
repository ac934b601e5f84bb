use shared_memory::{EventType, LockType, SharedMemConf, SharedMemError};

fn read_le64(bytes: &[u8], off: usize) -> u64 {
    let mut v: u64 = 0;
    let mut i = 8;
    while i > 0 {
        i -= 1;
        v = (v << 8) | bytes[off + i] as u64;
    }
    v
}

#[test]
fn minimal_create_open() {
    // 64 user bytes, no locks, no events.
    let sm = SharedMemConf::default().set_size(64).create().unwrap();
    assert_eq!(sm.get_conf().get_metadata_size(), 32);
    assert_eq!(sm.get_user_offset(), 32);
    assert_eq!(sm.get_map_data().len(), 32 + 64);
    assert!(sm.get_conf().is_owner() == false); // no link file requested

    let sm2 = SharedMemConf::default()
        .open("/reopened", sm.into_map_data())
        .unwrap();
    assert_eq!(sm2.get_conf().num_locks(), 0);
    assert_eq!(sm2.get_conf().num_events(), 0);
    assert_eq!(sm2.get_conf().get_size(), 64);
    assert_eq!(sm2.get_conf().get_metadata_size(), 32);
    assert!(!sm2.get_conf().is_owner());
}

#[test]
fn single_mutex_whole_region() {
    // One mutex over all 1024 user bytes.
    let sm = SharedMemConf::default()
        .set_size(1024)
        .add_lock(LockType::Mutex, 0, 1024)
        .unwrap()
        .create()
        .unwrap();
    // 32 (header) + 24 (lock header) + 40 (mutex body), already aligned
    assert_eq!(sm.get_conf().get_metadata_size(), 96);
    let bytes = sm.get_map_data();
    assert_eq!(read_le64(bytes, 0), 96); // meta_size
    assert_eq!(read_le64(bytes, 8), 1024); // user_size
    assert_eq!(read_le64(bytes, 16), 1); // num_locks
    assert_eq!(read_le64(bytes, 24), 0); // num_events
    assert_eq!(bytes[32], 0); // mutex kind code
    assert_eq!(read_le64(bytes, 40), 0); // lock offset
    assert_eq!(read_le64(bytes, 48), 1024); // lock length

    let sm2 = SharedMemConf::default()
        .open("/reopened", sm.into_map_data())
        .unwrap();
    assert_eq!(sm2.get_conf().num_locks(), 1);
    let lock = sm2.get_conf().get_lock(0);
    assert_eq!(lock.lock_type, LockType::Mutex);
    assert_eq!(lock.offset, 0);
    assert_eq!(lock.length, 1024);
    assert_eq!(lock.body_offset, 56);
    assert_eq!(lock.data_offset, 96);
}

#[test]
fn synthesized_name_shape() {
    // Without a requested OS name the creator synthesizes `/shmem_`
    // followed by sixteen uppercase hexadecimal digits.
    let sm = SharedMemConf::default().set_size(64).create().unwrap();
    let name = sm.get_os_path();
    assert_eq!(name.len(), 23);
    assert!(name.starts_with("/shmem_"));
    for c in name[7..].chars() {
        assert!(c.is_ascii_hexdigit() && !c.is_ascii_lowercase());
    }
}

#[test]
fn requested_name_kept() {
    let sm = SharedMemConf::default()
        .set_size(64)
        .set_os_path("/custom_name")
        .create()
        .unwrap();
    assert_eq!(sm.get_os_path(), "/custom_name");
    assert_eq!(sm.get_conf().get_os_path().unwrap(), "/custom_name");
}

#[test]
fn owner_follows_link_path() {
    let sm = SharedMemConf::default()
        .set_size(64)
        .set_link_path("/tmp/some.link")
        .create()
        .unwrap();
    assert!(sm.get_conf().is_owner());
}

#[test]
fn truncated_mapping_rejected() {
    // A backend that returns a 16-byte mapping.
    let err = SharedMemConf::default()
        .open("/short", vec![0u8; 16])
        .unwrap_err();
    assert_eq!(err, SharedMemError::InvalidHeader);
}

#[test]
fn undersized_header_rejected() {
    let err = SharedMemConf::default()
        .open("/short", vec![0u8; 31])
        .unwrap_err();
    assert_eq!(err, SharedMemError::InvalidHeader);
}

#[test]
fn layout_round_trip() {
    // Locks and events of every kind survive create followed by open.
    let sm = SharedMemConf::default()
        .set_size(4096)
        .add_lock(LockType::Mutex, 0, 100)
        .unwrap()
        .add_lock(LockType::RwLock, 200, 50)
        .unwrap()
        .add_event(EventType::Auto)
        .unwrap()
        .add_event(EventType::AutoBusy)
        .unwrap()
        .create()
        .unwrap();
    // 32 +24+40 (mutex) +24+56 (rwlock) +1+pad+128 (auto) +1+pad+0 (busy)
    assert_eq!(sm.get_conf().get_metadata_size(), 320);
    assert_eq!(sm.get_user_offset(), 320);
    assert_eq!(sm.get_map_data().len(), 320 + 4096);

    let created = sm.get_conf();
    let created_locks: Vec<_> = (0..created.num_locks())
        .map(|i| *created.get_lock(i))
        .collect();
    let created_events: Vec<_> = (0..created.num_events())
        .map(|i| *created.get_event(i))
        .collect();

    let sm2 = SharedMemConf::default()
        .open("/reopened", sm.get_map_data().clone())
        .unwrap();
    let opened = sm2.get_conf();
    assert_eq!(opened.get_size(), 4096);
    assert_eq!(opened.get_metadata_size(), 320);
    assert_eq!(opened.num_locks(), 2);
    assert_eq!(opened.num_events(), 2);
    for (i, lock) in created_locks.iter().enumerate() {
        assert_eq!(opened.get_lock(i), lock);
    }
    for (j, event) in created_events.iter().enumerate() {
        assert_eq!(opened.get_event(j), event);
    }
    assert_eq!(created_locks[0].body_offset, 56);
    assert_eq!(created_locks[1].body_offset, 120);
    assert_eq!(created_events[0].body_offset, 184);
    assert_eq!(created_events[1].body_offset, 320);
}

#[test]
fn alignment_invariants() {
    // Every body offset, the metadata size and the user region are aligned.
    let sm = SharedMemConf::default()
        .set_size(512)
        .add_lock(LockType::RwLock, 3, 17)
        .unwrap()
        .add_event(EventType::Manual)
        .unwrap()
        .add_event(EventType::ManualBusy)
        .unwrap()
        .create()
        .unwrap();
    let conf = sm.get_conf();
    assert_eq!(conf.get_metadata_size() % 8, 0);
    assert_eq!(sm.get_user_offset() % 8, 0);
    for i in 0..conf.num_locks() {
        assert_eq!(conf.get_lock(i).body_offset % 8, 0);
    }
    for j in 0..conf.num_events() {
        assert_eq!(conf.get_event(j).body_offset % 8, 0);
    }
}

#[test]
fn parse_is_idempotent() {
    // Parsing the same well-formed region twice gives equal configurations.
    let sm = SharedMemConf::default()
        .set_size(1024)
        .add_lock(LockType::Mutex, 16, 64)
        .unwrap()
        .add_event(EventType::Manual)
        .unwrap()
        .create()
        .unwrap();
    let bytes = sm.into_map_data();
    let a = SharedMemConf::default().open("/a", bytes.clone()).unwrap();
    let b = SharedMemConf::default().open("/b", bytes).unwrap();
    assert_eq!(a.get_conf().get_size(), b.get_conf().get_size());
    assert_eq!(
        a.get_conf().get_metadata_size(),
        b.get_conf().get_metadata_size()
    );
    assert_eq!(a.get_conf().num_locks(), b.get_conf().num_locks());
    assert_eq!(a.get_conf().num_events(), b.get_conf().num_events());
    assert_eq!(a.get_conf().get_lock(0), b.get_conf().get_lock(0));
    assert_eq!(a.get_conf().get_event(0), b.get_conf().get_event(0));
}

#[test]
fn meta_size_field_mismatch_rejected() {
    // A meta_size field that disagrees with the byte-by-byte walk fails.
    let sm = SharedMemConf::default()
        .set_size(64)
        .add_lock(LockType::Mutex, 0, 64)
        .unwrap()
        .create()
        .unwrap();
    let mut bytes = sm.into_map_data();
    bytes[0] = bytes[0].wrapping_add(8); // meta_size := meta_size + 8
    bytes.extend(std::iter::repeat(0u8).take(16)); // keep meta+user <= len
    let err = SharedMemConf::default().open("/bad", bytes).unwrap_err();
    assert_eq!(err, SharedMemError::InvalidHeader);
}

#[test]
fn unknown_lock_kind_rejected() {
    let sm = SharedMemConf::default()
        .set_size(64)
        .add_lock(LockType::Mutex, 0, 64)
        .unwrap()
        .create()
        .unwrap();
    let mut bytes = sm.into_map_data();
    bytes[32] = 0xee; // lock kind code
    let err = SharedMemConf::default().open("/bad", bytes).unwrap_err();
    assert_eq!(err, SharedMemError::InvalidHeader);
}

#[test]
fn unknown_event_kind_rejected() {
    let sm = SharedMemConf::default()
        .set_size(64)
        .add_event(EventType::Auto)
        .unwrap()
        .create()
        .unwrap();
    let mut bytes = sm.into_map_data();
    bytes[32] = 0xee; // event kind code
    let err = SharedMemConf::default().open("/bad", bytes).unwrap_err();
    assert_eq!(err, SharedMemError::InvalidHeader);
}

#[test]
fn reopened_overlap_reported() {
    // A foreign region whose headers declare overlapping ranges is refused
    // with the overlap diagnostic, as the builder would refuse it.
    let sm = SharedMemConf::default()
        .set_size(256)
        .add_lock(LockType::Mutex, 0, 128)
        .unwrap()
        .add_lock(LockType::Mutex, 128, 128)
        .unwrap()
        .create()
        .unwrap();
    let mut bytes = sm.into_map_data();
    // second lock header sits at 96; move its offset into the first range
    bytes[96 + 8] = 64;
    let err = SharedMemConf::default().open("/bad", bytes).unwrap_err();
    assert_eq!(err, SharedMemError::RangeOverlapsExisting(64, 128, 0));
}

#[test]
fn reopened_range_does_not_fit_reported() {
    let sm = SharedMemConf::default()
        .set_size(256)
        .add_lock(LockType::Mutex, 0, 128)
        .unwrap()
        .create()
        .unwrap();
    let mut bytes = sm.into_map_data();
    // user_size := 64 (it was 256 = 0x100), so the 128-byte lock no longer fits
    bytes[8] = 64;
    bytes[9] = 0;
    bytes.extend(std::iter::repeat(0u8).take(256)); // keep meta+user <= len
    let err = SharedMemConf::default().open("/bad", bytes).unwrap_err();
    assert_eq!(err, SharedMemError::RangeDoesNotFit(128, 64));
}

#[test]
fn user_region_zeroed() {
    let sm = SharedMemConf::default().set_size(128).create().unwrap();
    let off = sm.get_user_offset();
    let bytes = sm.get_map_data();
    for k in off..bytes.len() {
        assert_eq!(bytes[k], 0);
    }
}
