//! File systems, pages and locks.
use sqlite_rs::vfs::inode_registry::{
    claim, next_rung, Claim, ExclusiveGate, SharedInodeLock, StepError,
};
use sqlite_rs::vfs::lock::{
    predecessor, successor, LockLevel, PENDING_BYTE, RESERVED_BYTE, SHARED_FIRST, SHARED_SIZE,
};
use sqlite_rs::vfs::shm::{
    claim_step, read_mark_offset, shm_len_is_valid, wal_read_lock_byte, ClaimEvent, ClaimOutcome,
    ClaimState,
};
use sqlite_rs::vfs::{
    companion_path, AnyVfs, MemoryFiles, MemoryVfs, PageError, PageSource, Vfs, VfsError, VfsFile,
    VfsPageSource, WritablePageSource,
};

/// The contract every file system must satisfy.
fn run_contract(vfs: &MemoryVfs, files: &MemoryFiles, present: &str, absent: &str, contents: &[u8]) {
    assert!(vfs.file_exists(present).unwrap());
    assert!(!vfs.file_exists(absent).unwrap());
    assert!(vfs.open_read(absent).is_err());

    let file = vfs.open_read(present).unwrap();
    assert_eq!(file.size(files).unwrap(), contents.len() as u64);

    let mut buf = vec![0u8; contents.len()];
    let n = file.read_at(files, &mut buf, 0).unwrap();
    assert_eq!(n, contents.len());
    assert_eq!(buf, contents);

    let mut mid = vec![0u8; 4];
    let n = file.read_at(files, &mut mid, 2).unwrap();
    assert_eq!(n, 4);
    assert_eq!(mid, contents[2..6]);

    let mut past_eof = vec![0u8; 4];
    let n = file
        .read_at(files, &mut past_eof, contents.len() as u64 + 10)
        .unwrap();
    assert_eq!(n, 0);

    drop(file.lock_shared(files).unwrap());
}

/// What is written is visible to a fresh handle on the same path.
fn run_write_contract(vfs: &MemoryVfs, files: &mut MemoryFiles, path: &str) {
    let write_file = vfs.open_write(path).unwrap();
    write_file.write_at(files, &b"WXYZ".to_vec(), 2).unwrap();
    write_file.sync(files).unwrap();

    let read_file = vfs.open_read(path).unwrap();
    let mut buf = vec![0u8; 6];
    read_file.read_at(files, &mut buf, 0).unwrap();
    assert_eq!(&buf, b"heWXYZ");
}

#[test]
fn vfs_memory_vfs_contract() {
    let mut vfs = MemoryVfs::new();
    let mut files = MemoryFiles::new();
    let contents = b"hello sqlite-rs vfs contract".to_vec();
    vfs.insert(&mut files, "/present.db", contents.clone());
    vfs.insert(&mut files, "/writable.db", contents.clone());
    run_write_contract(&vfs, &mut files, "/writable.db");
    run_contract(&vfs, &files, "/present.db", "/absent.db", &contents);
}

#[test]
fn mod_memory_vfs_contract() {
    let mut vfs = MemoryVfs::new();
    let mut files = MemoryFiles::new();
    let contents = b"hello sqlite-rs vfs contract".to_vec();
    vfs.insert(&mut files, "/present.db", contents.clone());
    run_contract(&vfs, &files, "/present.db", "/absent.db", &contents);
}

#[test]
fn companion_file_detection() {
    let mut vfs = MemoryVfs::new();
    let mut files = MemoryFiles::new();
    vfs.insert(&mut files, "/test.db", b"main file".to_vec());
    vfs.insert(&mut files, "/test.db-wal", b"wal file".to_vec());
    vfs.insert(&mut files, "/test.db-journal", b"journal file".to_vec());

    assert!(vfs
        .file_exists(&companion_path("/test.db", "-wal"))
        .unwrap());
    assert!(vfs
        .file_exists(&companion_path("/test.db", "-journal"))
        .unwrap());
    assert!(!vfs
        .file_exists(&companion_path("/other.db", "-wal"))
        .unwrap());
}

#[test]
fn page_zero_is_rejected() {
    let mut vfs = MemoryVfs::new();
    let mut files = MemoryFiles::new();
    vfs.insert(&mut files, "/db", vec![0u8; 16]);
    let source = VfsPageSource::open(&vfs, "/db", 16).unwrap();
    assert!(matches!(
        source.read_page(&files, 0),
        Err(PageError::InvalidPageNumber)
    ));
}

#[test]
fn short_file_reports_short_read() {
    let mut vfs = MemoryVfs::new();
    let mut files = MemoryFiles::new();
    vfs.insert(&mut files, "/db", vec![0u8; 8]);
    let source = VfsPageSource::open(&vfs, "/db", 16).unwrap();
    match source.read_page(&files, 1) {
        Err(PageError::ShortRead {
            page_num,
            expected,
            got,
        }) => {
            assert_eq!(page_num, 1);
            assert_eq!(expected, 16);
            assert_eq!(got, 8);
        }
        other => panic!("expected ShortRead, got {other:?}"),
    }
}

#[test]
fn pages_read_back_and_leave_each_other_alone() {
    let mut vfs = MemoryVfs::new();
    let mut files = MemoryFiles::new();
    vfs.insert(&mut files, "/db", vec![7u8; 12]);
    let source = WritablePageSource::open(&vfs, "/db", 4).unwrap();
    source.write_page(&mut files, 2, &vec![1, 2, 3, 4]).unwrap();
    assert_eq!(source.read_page(&files, 1).unwrap(), vec![7; 4]);
    assert_eq!(source.read_page(&files, 2).unwrap(), vec![1, 2, 3, 4]);
    assert_eq!(source.read_page(&files, 3).unwrap(), vec![7; 4]);
    source.write_page(&mut files, 5, &vec![9; 4]).unwrap();
    assert_eq!(source.read_page(&files, 4).unwrap(), vec![0; 4]);
    source.sync(&mut files).unwrap();
    drop(source.lock_shared(&files).unwrap());

    let err = source.write_page(&mut files, 1, &vec![0; 5]).unwrap_err();
    assert_eq!(
        err.describe(),
        "wrong buffer length writing page 1: expected 4 bytes, got 5"
    );
    let err = source.write_page(&mut files, 0, &vec![0; 4]).unwrap_err();
    assert_eq!(err.describe(), "invalid page number 0");
    let err = source.read_page(&files, 9).unwrap_err();
    assert_eq!(
        err.describe(),
        "short read on page 9: expected 4 bytes, got 0"
    );
}

#[test]
fn files_are_created_truncated_and_deleted() {
    let mut vfs = AnyVfs::new(MemoryVfs::new());
    assert!(!vfs.file_exists("/j").unwrap());
    let mut files = MemoryFiles::new();
    let mut other = MemoryVfs::new();
    other.insert(&mut files, "/j", vec![1, 2, 3]);
    let file = other.create_or_open_write(&mut files, "/j").unwrap();
    file.truncate(&mut files, 2).unwrap();
    file.write_at(&mut files, &vec![9], 4).unwrap();
    let mut buf = vec![0; 9];
    assert_eq!(file.read_at(&files, &mut buf, 0).unwrap(), 5);
    assert_eq!(&buf[..5], &[1, 2, 0, 0, 9]);
    file.truncate(&mut files, 7).unwrap();
    assert_eq!(file.size(&files).unwrap(), 7);

    let created = vfs.create_or_open_write(&mut files, "/j").unwrap();
    assert!(vfs.file_exists("/j").unwrap());
    assert!(vfs.open_read("/j").is_ok());
    assert!(vfs.open_write("/j").is_ok());
    let _ = WritablePageSource::from_file(created, 4);
    vfs.delete("/j").unwrap();
    vfs.delete("/j").unwrap();
    let Err(e) = vfs.open_read("/j") else {
        panic!("expected an error");
    };
    assert_eq!(
        e,
        VfsError::NotFound {
            path: "/j".to_string()
        }
    );
    assert_eq!(e.describe(), "file not found: /j");
}

#[test]
fn a_replaced_file_keeps_its_contents_for_open_handles() {
    let mut vfs = MemoryVfs::new();
    let mut files = MemoryFiles::new();
    vfs.insert(&mut files, "/db", vec![1]);
    let old = vfs.open_read("/db").unwrap();
    vfs.insert(&mut files, "/db", vec![2, 2]);
    let new = vfs.open_read("/db").unwrap();
    assert_eq!(old.size(&files).unwrap(), 1);
    assert_eq!(new.size(&files).unwrap(), 2);
    let other = MemoryFiles::new();
    assert!(matches!(new.size(&other), Err(VfsError::Io { .. })));
    assert!(vfs.claim_wal_read_lock("/db").unwrap().is_none());
}

#[test]
fn failures_are_told_apart() {
    assert_eq!(
        VfsError::from_lock("/db", true, false, "busy").describe(),
        "database is locked: /db"
    );
    assert_eq!(
        VfsError::from_lock("/db", false, false, "disk on fire").describe(),
        "I/O error on /db: disk on fire"
    );
    assert_eq!(
        VfsError::from_io("/db", true, "gone"),
        VfsError::NotFound {
            path: "/db".to_string()
        }
    );
}

/// Takes a handle to a level, rung by rung, with a real lock that never fails.
fn set_level(
    lock: &mut SharedInodeLock,
    level: &mut LockLevel,
    target: LockLevel,
) -> Result<(), StepError> {
    while let Some(next) = next_rung(*level, target) {
        let set = lock.begin_step(*level, next)?;
        lock.end_step(*level, next, set);
        *level = next;
    }
    Ok(())
}

#[test]
fn two_handles_never_both_write() {
    let mut lock = SharedInodeLock::new(true);
    let mut a = LockLevel::Unlocked;
    let mut b = LockLevel::Unlocked;
    set_level(&mut lock, &mut a, LockLevel::Reserved).unwrap();
    assert_eq!(
        set_level(&mut lock, &mut b, LockLevel::Reserved),
        Err(StepError::WouldBlock)
    );
    assert_eq!(b, LockLevel::Shared);
    assert_eq!(lock.shared_holders, 2);
    assert_eq!(
        set_level(&mut lock, &mut a, LockLevel::Exclusive),
        Err(StepError::WouldBlock)
    );
    assert_eq!(a, LockLevel::Pending);
    set_level(&mut lock, &mut b, LockLevel::Unlocked).unwrap();
    assert_eq!(
        set_level(&mut lock, &mut b, LockLevel::Shared),
        Err(StepError::WouldBlock)
    );
    set_level(&mut lock, &mut a, LockLevel::Exclusive).unwrap();
    assert_eq!(lock.level, LockLevel::Exclusive);
    set_level(&mut lock, &mut a, LockLevel::Unlocked).unwrap();
    assert_eq!(lock, SharedInodeLock::new(true));
}

#[test]
fn steps_span_one_rung() {
    let mut lock = SharedInodeLock::new(true);
    assert_eq!(
        lock.begin_step(LockLevel::Unlocked, LockLevel::Exclusive),
        Err(StepError::NotAdjacent {
            from: LockLevel::Unlocked,
            to: LockLevel::Exclusive
        })
    );
    assert_eq!(
        lock.begin_step(LockLevel::Shared, LockLevel::Shared),
        Ok(None)
    );
    assert_eq!(successor(LockLevel::Exclusive), LockLevel::Exclusive);
    assert_eq!(predecessor(LockLevel::Unlocked), LockLevel::Unlocked);
    assert_eq!(predecessor(successor(LockLevel::Shared)), LockLevel::Shared);
}

#[test]
fn reserved_locks_are_seen_by_others_only() {
    let mut lock = SharedInodeLock::new(true);
    assert_eq!(lock.check_reserved(false), None);
    let mut a = LockLevel::Unlocked;
    set_level(&mut lock, &mut a, LockLevel::Reserved).unwrap();
    assert_eq!(lock.check_reserved(false), Some(true));
    assert_eq!(lock.check_reserved(true), Some(false));
}

#[test]
fn a_file_is_opened_once_for_all_handles() {
    assert_eq!(claim(None, false), Claim::Open);
    let mut lock = SharedInodeLock::new(false);
    assert_eq!(claim(Some(&lock), false), Claim::Share);
    assert_eq!(claim(Some(&lock), true), Claim::Upgrade);
    lock.upgrade_to_writable();
    assert_eq!(claim(Some(&lock), true), Claim::Share);
}

#[test]
fn a_gate_lets_one_holder_through() {
    let mut gate = ExclusiveGate::new();
    assert!(gate.acquire(7u64));
    assert!(!gate.acquire(7));
    assert!(gate.acquire(8));
    gate.release(&7);
    assert!(gate.acquire(7));
}

#[test]
fn lock_bytes_stand_where_sqlite_puts_them() {
    assert_eq!(PENDING_BYTE, 0x40000000);
    assert_eq!(RESERVED_BYTE, PENDING_BYTE + 1);
    assert_eq!(SHARED_FIRST, PENDING_BYTE + 2);
    assert_eq!(SHARED_SIZE, 510);
    assert_eq!(wal_read_lock_byte(1), 124);
    assert_eq!(wal_read_lock_byte(4), 127);
    assert_eq!(read_mark_offset(1), 104);
    assert_eq!(read_mark_offset(4), 116);
    assert!(!shm_len_is_valid(119));
    assert!(shm_len_is_valid(120));
}

fn claim_with(events: &[ClaimEvent]) -> ClaimState {
    events
        .iter()
        .fold(ClaimState::Open, |state, event| claim_step(state, *event))
}

#[test]
fn a_reader_claims_the_first_free_slot() {
    let state = claim_with(&[
        ClaimEvent::Done,
        ClaimEvent::Length(32768),
        ClaimEvent::Contended,
        ClaimEvent::Done,
        ClaimEvent::Frame(42),
    ]);
    assert_eq!(state, ClaimState::Publish { slot: 2, frame: 42 });
    let state = claim_step(claim_step(state, ClaimEvent::Done), ClaimEvent::Done);
    assert_eq!(
        state,
        ClaimState::Finished(ClaimOutcome::Claimed { slot: 2 })
    );
}

#[test]
fn a_claim_ends_for_a_reason() {
    let finished = |o| ClaimState::Finished(o);
    assert_eq!(
        claim_with(&[ClaimEvent::Missing]),
        finished(ClaimOutcome::NoFile)
    );
    assert_eq!(
        claim_with(&[ClaimEvent::Done, ClaimEvent::Length(32)]),
        finished(ClaimOutcome::TooShort)
    );
    let mut events = vec![ClaimEvent::Done, ClaimEvent::Length(120)];
    events.extend([ClaimEvent::Contended; 3]);
    assert_eq!(claim_with(&events), ClaimState::Lock { slot: 4 });
    events.push(ClaimEvent::Contended);
    assert_eq!(claim_with(&events), finished(ClaimOutcome::Contended));
    assert_eq!(
        claim_with(&[ClaimEvent::Done, ClaimEvent::Length(120), ClaimEvent::Failed]),
        finished(ClaimOutcome::Failed)
    );
}

#[test]
fn paths_are_compared_by_their_components() {
    let mut vfs = MemoryVfs::new();
    let mut files = MemoryFiles::new();
    vfs.insert(&mut files, "/a//b", vec![1, 2]);
    for path in ["/a/b", "//a/b", "/a/./b", "/a/b/", "/a/b/.", "/./a/b"] {
        assert!(vfs.file_exists(path).unwrap(), "{path}");
        let file = vfs.open_read(path).unwrap();
        assert_eq!(file.size(&files).unwrap(), 2, "{path}");
    }
    for path in ["a/b", "/a/../a/b", "/a", "/ab", "/a/b/c", ""] {
        assert!(!vfs.file_exists(path).unwrap(), "{path}");
    }
    vfs.insert(&mut files, "/a/b/", vec![3]);
    assert_eq!(vfs.open_read("/a//b").unwrap().size(&files).unwrap(), 1);
    vfs.delete("/a/.//b").unwrap();
    assert!(!vfs.file_exists("/a//b").unwrap());

    vfs.insert(&mut files, "./x", vec![]);
    assert!(vfs.file_exists("./x").unwrap());
    assert!(vfs.file_exists("././x/.").unwrap());
    assert!(!vfs.file_exists("x").unwrap());
    vfs.insert(&mut files, "y/./z", vec![]);
    assert!(vfs.file_exists("y/z").unwrap());
    let Err(e) = vfs.open_read("q//r") else {
        panic!("expected an error");
    };
    assert_eq!(e.describe(), "file not found: q//r");
}

#[test]
fn one_path_is_changed_at_a_time() {
    let mut vfs = MemoryVfs::new();
    let mut files = MemoryFiles::new();
    vfs.insert(&mut files, "/one", vec![1]);
    vfs.insert(&mut files, "/two", vec![2, 2]);
    vfs.insert(&mut files, "/one", vec![3, 3, 3]);
    assert_eq!(vfs.open_read("/one").unwrap().size(&files).unwrap(), 3);
    assert_eq!(vfs.open_read("/two").unwrap().size(&files).unwrap(), 2);
    vfs.delete("/one").unwrap();
    vfs.delete("/one").unwrap();
    assert!(!vfs.file_exists("/one").unwrap());
    let two = vfs.open_write("/two").unwrap();
    two.truncate(&mut files, 4).unwrap();
    let mut buf = vec![9; 5];
    assert_eq!(two.read_at(&files, &mut buf, 0).unwrap(), 4);
    assert_eq!(buf, [2, 2, 0, 0, 9]);
}

#[test]
fn clones_share_the_files_they_were_cloned_with() {
    let mut vfs = MemoryVfs::new();
    let mut files = MemoryFiles::new();
    vfs.insert(&mut files, "/db", vec![1, 2]);
    let mut copy = vfs.clone();
    let file = vfs.open_write("/db").unwrap();
    file.write_at(&mut files, &vec![7, 8, 9], 0).unwrap();
    let mut buf = vec![0; 3];
    let seen = copy.open_read("/db").unwrap();
    assert_eq!(seen.read_at(&files, &mut buf, 0).unwrap(), 3);
    assert_eq!(buf, [7, 8, 9]);
    vfs.insert(&mut files, "/new", vec![]);
    assert!(!copy.file_exists("/new").unwrap());
    copy.insert(&mut files, "/db", vec![5]);
    assert_eq!(copy.open_read("/db").unwrap().size(&files).unwrap(), 1);
    assert_eq!(vfs.open_read("/db").unwrap().size(&files).unwrap(), 3);
    copy.delete("/db").unwrap();
    assert!(vfs.file_exists("/db").unwrap());
}

#[test]
fn nobody_starts_to_read_behind_a_pending_writer() {
    let mut lock = SharedInodeLock::new(true);
    let mut writer = LockLevel::Unlocked;
    set_level(&mut lock, &mut writer, LockLevel::Pending).unwrap();
    for target in [LockLevel::Shared, LockLevel::Reserved, LockLevel::Exclusive] {
        let mut reader = LockLevel::Unlocked;
        assert_eq!(
            set_level(&mut lock, &mut reader, target),
            Err(StepError::WouldBlock)
        );
        assert_eq!(reader, LockLevel::Unlocked);
    }
    assert_eq!(
        lock.begin_step(LockLevel::Unlocked, LockLevel::Exclusive),
        Err(StepError::NotAdjacent {
            from: LockLevel::Unlocked,
            to: LockLevel::Exclusive
        })
    );
}

#[test]
fn a_climb_ends_at_the_target_or_at_the_last_rung() {
    let mut lock = SharedInodeLock::new(true);
    let mut level = LockLevel::Unlocked;
    set_level(&mut lock, &mut level, LockLevel::Exclusive).unwrap();
    assert_eq!(level, LockLevel::Exclusive);
    set_level(&mut lock, &mut level, LockLevel::Shared).unwrap();
    assert_eq!(level, LockLevel::Shared);
    let mut other = LockLevel::Unlocked;
    set_level(&mut lock, &mut other, LockLevel::Shared).unwrap();
    assert_eq!(
        set_level(&mut lock, &mut level, LockLevel::Exclusive),
        Err(StepError::WouldBlock)
    );
    assert_eq!(level, LockLevel::Pending);
}

#[test]
fn any_sequence_of_level_changes_is_safe() {
    let targets = [
        LockLevel::Shared,
        LockLevel::Exclusive,
        LockLevel::Reserved,
        LockLevel::Unlocked,
        LockLevel::Pending,
        LockLevel::Exclusive,
    ];
    let mut lock = SharedInodeLock::new(true);
    let mut levels = [LockLevel::Unlocked; 3];
    for round in 0..200usize {
        let i = (round * 7 + round / 5) % 3;
        let target = targets[(round * round + round / 3) % targets.len()];
        let before = levels;
        let r = set_level(&mut lock, &mut levels[i], target);
        assert_eq!(r.is_ok(), levels[i] == target);
        let writers = levels.iter().filter(|l| l.at_least(LockLevel::Reserved)).count();
        assert!(writers <= 1);
        let holders = levels.iter().filter(|l| l.at_least(LockLevel::Shared)).count();
        assert_eq!(lock.shared_holders as usize, holders);
        if levels.contains(&LockLevel::Exclusive) {
            assert_eq!(holders, 1);
        }
        let blocked = (0..3).any(|j| j != i && before[j].at_least(LockLevel::Pending));
        if blocked && before[i] == LockLevel::Unlocked {
            assert_eq!(levels, before);
        }
    }
}
