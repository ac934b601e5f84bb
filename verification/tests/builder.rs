use shared_memory::conf::OpenTarget;
use shared_memory::{LockType, SharedMemConf, SharedMemError};

#[test]
fn default_is_empty() {
    let conf = SharedMemConf::default();
    assert_eq!(conf.get_size(), 0);
    assert_eq!(conf.get_metadata_size(), 32);
    assert_eq!(conf.num_locks(), 0);
    assert_eq!(conf.num_events(), 0);
    assert!(!conf.is_owner());
    assert!(conf.get_link_path().is_none());
    assert!(conf.get_os_path().is_none());
}

#[test]
fn setters_record_values() {
    let conf = SharedMemConf::default()
        .set_size(4096)
        .set_link_path("/tmp/ex.shm")
        .set_os_path("/my_region");
    assert_eq!(conf.get_size(), 4096);
    assert_eq!(conf.get_link_path().unwrap(), "/tmp/ex.shm");
    assert_eq!(conf.get_os_path().unwrap(), "/my_region");
}

#[test]
fn add_lock_tracks_tally() {
    let conf = SharedMemConf::default()
        .set_size(1024)
        .add_lock(LockType::Mutex, 0, 128)
        .unwrap();
    assert_eq!(conf.num_locks(), 1);
    // header (32) + lock header (24) + mutex body (40), no padding counted
    assert_eq!(conf.get_metadata_size(), 96);
    let lock = conf.get_lock(0);
    assert_eq!(lock.lock_type, LockType::Mutex);
    assert_eq!(lock.offset, 0);
    assert_eq!(lock.length, 128);
}

#[test]
fn overlap_rejected() {
    // Two locks over intersecting ranges; the second reports the first.
    let conf = SharedMemConf::default()
        .set_size(256)
        .add_lock(LockType::Mutex, 0, 128)
        .unwrap();
    let err = conf.add_lock(LockType::Mutex, 64, 64).unwrap_err();
    assert_eq!(err, SharedMemError::RangeOverlapsExisting(64, 64, 0));
}

#[test]
fn adjacent_ranges_accepted() {
    let conf = SharedMemConf::default()
        .set_size(256)
        .add_lock(LockType::Mutex, 0, 128)
        .unwrap()
        .add_lock(LockType::RwLock, 128, 128)
        .unwrap();
    assert_eq!(conf.num_locks(), 2);
}

#[test]
fn out_of_range_rejected() {
    // The range pokes past the user region.
    let conf = SharedMemConf::default().set_size(100);
    let err = conf.add_lock(LockType::Mutex, 80, 40).unwrap_err();
    assert_eq!(err, SharedMemError::RangeDoesNotFit(40, 100));
}

#[test]
fn zero_length_lock_needs_offset_zero() {
    let conf = SharedMemConf::default().set_size(64);
    let conf = conf.add_lock(LockType::Mutex, 0, 0).unwrap();
    let err = conf.add_lock(LockType::Mutex, 1, 0).unwrap_err();
    assert_eq!(err, SharedMemError::RangeDoesNotFit(0, 64));
}

#[test]
fn zero_user_size_rejected() {
    // Creating a region with no user bytes fails.
    let err = SharedMemConf::default().create().unwrap_err();
    assert_eq!(err, SharedMemError::MapSizeZero);
}

#[test]
fn open_target_prefers_os_path() {
    let conf = SharedMemConf::default()
        .set_os_path("/named")
        .set_link_path("/tmp/lnk");
    match conf.open_target().unwrap() {
        OpenTarget::OsPath(p) => assert_eq!(p, "/named"),
        OpenTarget::LinkFile(_) => panic!("expected the OS name to win"),
    }
}

#[test]
fn open_target_falls_back_to_link() {
    let conf = SharedMemConf::default().set_link_path("/tmp/lnk");
    match conf.open_target().unwrap() {
        OpenTarget::LinkFile(p) => assert_eq!(p, "/tmp/lnk"),
        OpenTarget::OsPath(_) => panic!("no OS name was set"),
    }
}

#[test]
fn open_target_without_sources_fails() {
    let err = SharedMemConf::default().open_target().unwrap_err();
    assert_eq!(err, SharedMemError::LinkDoesNotExist);
}
