use veritysetup::lock::{
    ContentionPolicy, LockError, LockGrant, LockIdentity, LockManager, LockMode, LockRelease,
    LockType,
};

#[test]
fn reentrant_acquire_counts_and_third_party_is_busy() {
    let mut m = LockManager::new();
    let id = LockIdentity::ByBlockDevice(0x0805);
    let g1 = m
        .acquire(1, &id, LockType::ExclusiveWrite, ContentionPolicy::ReportBusy)
        .unwrap();
    assert_eq!(g1, LockGrant { refcnt: 1, os_lock_needed: true });
    let g2 = m
        .acquire(1, &id, LockType::ExclusiveWrite, ContentionPolicy::ReportBusy)
        .unwrap();
    assert_eq!(g2, LockGrant { refcnt: 2, os_lock_needed: false });
    // a third party asking for shared-read on the same identity is busy
    let r = m.acquire(2, &id, LockType::SharedRead, ContentionPolicy::ReportBusy);
    assert_eq!(r, Err(LockError::Busy));
    // releasing twice releases the OS lock exactly once, at the end
    let rel1 = m.release(1, &id);
    assert_eq!(rel1, LockRelease { refcnt: 1, os_unlock_needed: false });
    let rel2 = m.release(1, &id);
    assert_eq!(rel2, LockRelease { refcnt: 0, os_unlock_needed: true });
}

#[test]
fn exclusive_blocks_others_until_released() {
    let mut m = LockManager::new();
    let id = LockIdentity::ByBlockDevice(7);
    m.acquire(1, &id, LockType::ExclusiveWrite, ContentionPolicy::ReportBusy)
        .unwrap();
    assert_eq!(
        m.acquire(2, &id, LockType::ExclusiveWrite, ContentionPolicy::ReportBusy),
        Err(LockError::Busy)
    );
    assert_eq!(
        m.acquire(2, &id, LockType::SharedRead, ContentionPolicy::ReportBusy),
        Err(LockError::Busy)
    );
    let rel = m.release(1, &id);
    assert_eq!(rel, LockRelease { refcnt: 0, os_unlock_needed: true });
    let g = m
        .acquire(2, &id, LockType::SharedRead, ContentionPolicy::ReportBusy)
        .unwrap();
    assert_eq!(g, LockGrant { refcnt: 1, os_lock_needed: true });
}

#[test]
fn readers_share_and_block_writers() {
    let mut m = LockManager::new();
    let id = LockIdentity::ByName("mapped-volume".to_string());
    let g1 = m
        .acquire(1, &id, LockType::SharedRead, ContentionPolicy::ReportBusy)
        .unwrap();
    let g2 = m
        .acquire(2, &id, LockType::SharedRead, ContentionPolicy::ReportBusy)
        .unwrap();
    assert!(g1.os_lock_needed && g2.os_lock_needed);
    assert_eq!(
        m.acquire(3, &id, LockType::ExclusiveWrite, ContentionPolicy::ReportBusy),
        Err(LockError::Busy)
    );
}

#[test]
fn no_silent_upgrade_or_downgrade() {
    let mut m = LockManager::new();
    let id = LockIdentity::ByFile(4);
    m.acquire(1, &id, LockType::SharedRead, ContentionPolicy::ReportBusy)
        .unwrap();
    assert_eq!(
        m.acquire(1, &id, LockType::ExclusiveWrite, ContentionPolicy::ReportBusy),
        Err(LockError::Busy)
    );
}

#[test]
fn would_block_signal_for_async_callers() {
    let mut m = LockManager::new();
    let id = LockIdentity::ByBlockDevice(1);
    m.acquire(1, &id, LockType::ExclusiveWrite, ContentionPolicy::ReportBusy)
        .unwrap();
    assert_eq!(
        m.acquire(2, &id, LockType::SharedRead, ContentionPolicy::ReportWouldBlock),
        Err(LockError::WouldBlock)
    );
}

#[test]
fn distinct_identities_never_contend() {
    let mut m = LockManager::new();
    m.acquire(
        1,
        &LockIdentity::ByName("a".to_string()),
        LockType::ExclusiveWrite,
        ContentionPolicy::ReportBusy,
    )
    .unwrap();
    // a different name, a different domain, a different device: all free
    m.acquire(
        2,
        &LockIdentity::ByName("b".to_string()),
        LockType::ExclusiveWrite,
        ContentionPolicy::ReportBusy,
    )
    .unwrap();
    m.acquire(
        3,
        &LockIdentity::ByBlockDevice(1),
        LockType::ExclusiveWrite,
        ContentionPolicy::ReportBusy,
    )
    .unwrap();
    m.acquire(
        4,
        &LockIdentity::ByFile(1),
        LockType::ExclusiveWrite,
        ContentionPolicy::ReportBusy,
    )
    .unwrap();
    // but the same name from another owner contends
    assert_eq!(
        m.acquire(
            5,
            &LockIdentity::ByName("a".to_string()),
            LockType::SharedRead,
            ContentionPolicy::ReportBusy,
        ),
        Err(LockError::Busy)
    );
}

#[test]
fn identity_modes() {
    assert_eq!(LockIdentity::ByFile(3).mode(), LockMode::ByFile);
    assert_eq!(LockIdentity::ByBlockDevice(9).mode(), LockMode::ByBlockDevice);
    assert_eq!(LockIdentity::ByName("x".to_string()).mode(), LockMode::ByName);
}
