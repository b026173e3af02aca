use fd_tracking::commands::DupCommands;
use fd_tracking::descriptor_table::DescriptorTable;
use fd_tracking::identity::FileId;
use fd_tracking::ref_counts::{CountFault, RefCountTable};
use fd_tracking::tracker::Tracker;

fn file(n: u64) -> FileId {
    FileId::from_stat(2049, n)
}

#[test]
fn dup_chain_leaves_last_descriptor_with_count_one() {
    let a = file(10);
    let mut t = Tracker::new();
    assert_eq!(t.after_dup_into(3, 4, 4, Some(a)), None);
    assert_eq!(t.after_dup_into(4, 5, 5, None), None);
    assert_eq!(t.after_close(3, 0), None);
    assert_eq!(t.after_close(4, 0), None);
    assert_eq!(t.identity_of(5), Some(a));
    assert_eq!(t.ref_count(a), 1);
    assert_eq!(t.identity_of(3), None);
    assert_eq!(t.identity_of(4), None);
}

#[test]
fn count_follows_every_step() {
    let a = file(11);
    let mut t = Tracker::new();
    assert_eq!(t.ref_count(a), 0);
    t.after_dup(3, 7, Some(a));
    assert_eq!(t.ref_count(a), 2);
    t.after_dup(7, 8, None);
    assert_eq!(t.ref_count(a), 3);
    t.after_dup_into(3, 9, 9, None);
    assert_eq!(t.ref_count(a), 4);
    t.after_close(8, 0);
    assert_eq!(t.ref_count(a), 3);
    t.after_close(3, 0);
    assert_eq!(t.ref_count(a), 2);
    t.after_close(7, 0);
    assert_eq!(t.ref_count(a), 1);
    assert_eq!(t.after_close(9, 0), Some(a));
    assert_eq!(t.ref_count(a), 0);
}

#[test]
fn release_fires_once_at_zero() {
    let a = file(12);
    let mut t = Tracker::new();
    t.after_dup(3, 4, Some(a));
    assert_eq!(t.after_close(3, 0), None);
    assert_eq!(t.after_close(4, 0), Some(a));
    assert_eq!(t.after_close(4, 0), None);
    assert_eq!(t.after_close(3, 0), None);
}

#[test]
fn closing_untracked_descriptor_is_silent() {
    let a = file(13);
    let mut t = Tracker::new();
    t.after_dup(3, 4, Some(a));
    assert_eq!(t.after_close(42, 0), None);
    assert_eq!(t.ref_count(a), 2);
    assert_eq!(t.identity_of(42), None);
    let mut empty = Tracker::new();
    assert_eq!(empty.record_close(0), None);
}

#[test]
fn failed_operations_change_nothing() {
    let a = file(14);
    let mut t = Tracker::new();
    t.after_dup(3, 4, Some(a));
    assert_eq!(t.after_close(4, -1), None);
    assert_eq!(t.identity_of(4), Some(a));
    assert_eq!(t.after_dup(3, -1, Some(a)), None);
    assert_eq!(t.after_dup_into(3, 6, -1, Some(a)), None);
    assert_eq!(t.identity_of(6), None);
    assert_eq!(t.ref_count(a), 2);
}

#[test]
fn fcntl_duplication_matches_dup() {
    let a = file(15);
    let commands = DupCommands::platform();
    let mut by_fcntl = Tracker::new();
    let mut by_dup = Tracker::new();
    let dup = commands.duplicates(commands.dupfd);
    assert!(dup);
    by_fcntl.after_fcntl(3, dup, 10, Some(a));
    by_dup.after_dup(3, 10, Some(a));
    for fd in [3, 10] {
        assert_eq!(by_fcntl.identity_of(fd), by_dup.identity_of(fd));
    }
    assert_eq!(by_fcntl.ref_count(a), 2);
    assert_eq!(by_dup.ref_count(a), 2);
    assert!(commands.duplicates(commands.dupfd_cloexec));
}

#[test]
fn other_fcntl_commands_are_transparent() {
    let a = file(16);
    let commands = DupCommands::platform();
    let mut t = Tracker::new();
    let cmd = libc::F_GETFL;
    let dup = commands.duplicates(cmd);
    assert!(!dup);
    assert_eq!(t.after_fcntl(3, dup, 2, Some(a)), None);
    assert_eq!(t.identity_of(3), None);
    assert_eq!(t.identity_of(2), None);
}

#[test]
fn platform_codes_are_libc_codes() {
    let commands = DupCommands::platform();
    assert_eq!(commands.dupfd, libc::F_DUPFD);
    assert_eq!(commands.dupfd_cloexec, libc::F_DUPFD_CLOEXEC);
    assert_ne!(commands.dupfd, commands.dupfd_cloexec);
}

#[test]
fn independent_files_keep_their_own_counts() {
    let a = file(17);
    let b = file(18);
    let mut t = Tracker::new();
    t.after_dup(3, 5, Some(a));
    t.after_dup(4, 6, Some(b));
    t.after_dup(5, 7, None);
    assert_eq!(t.after_close(6, 0), None);
    t.after_dup(4, 8, None);
    assert_eq!(t.after_close(3, 0), None);
    assert_eq!(t.ref_count(a), 2);
    assert_eq!(t.ref_count(b), 2);
    assert_eq!(t.after_close(4, 0), None);
    assert_eq!(t.after_close(8, 0), Some(b));
    assert_eq!(t.ref_count(a), 2);
    assert_eq!(t.identity_of(7), Some(a));
}

#[test]
fn resolution_miss_leaves_new_descriptor_untracked() {
    let mut t = Tracker::new();
    assert!(t.needs_resolution(3));
    assert_eq!(t.after_dup(3, 4, None), None);
    assert_eq!(t.identity_of(3), None);
    assert_eq!(t.identity_of(4), None);
}

#[test]
fn tracked_source_needs_no_resolution() {
    let a = file(19);
    let b = file(20);
    let mut t = Tracker::new();
    t.after_dup(3, 4, Some(a));
    assert!(!t.needs_resolution(3));
    t.after_dup(4, 5, Some(b));
    assert_eq!(t.identity_of(5), Some(a));
    assert_eq!(t.ref_count(b), 0);
}

#[test]
fn dup_onto_descriptor_of_other_file_releases_it() {
    let a = file(21);
    let b = file(22);
    let mut t = Tracker::new();
    t.after_dup(3, 4, Some(a));
    t.after_dup(5, 6, Some(b));
    assert_eq!(t.after_close(5, 0), None);
    assert_eq!(t.after_dup_into(3, 6, 6, None), Some(b));
    assert_eq!(t.identity_of(6), Some(a));
    assert_eq!(t.ref_count(a), 3);
    assert_eq!(t.ref_count(b), 0);
}

#[test]
fn dup_onto_itself_changes_nothing() {
    let a = file(23);
    let mut t = Tracker::new();
    t.after_dup(3, 4, Some(a));
    assert_eq!(t.after_dup_into(4, 4, 4, None), None);
    assert_eq!(t.ref_count(a), 2);
    let mut fresh = Tracker::new();
    assert_eq!(fresh.after_dup_into(3, 3, 3, Some(a)), None);
    assert_eq!(fresh.ref_count(a), 1);
    assert_eq!(fresh.after_close(3, 0), Some(a));
}

#[test]
fn miss_on_overwrite_releases_old_file() {
    let a = file(24);
    let mut t = Tracker::new();
    t.after_dup(3, 4, Some(a));
    assert_eq!(t.after_close(3, 0), None);
    assert_eq!(t.after_dup_into(9, 4, 4, None), Some(a));
    assert_eq!(t.identity_of(4), None);
}

#[test]
fn file_id_keys() {
    let id = FileId::from_stat(1, 2);
    assert_eq!(id.dev, 1);
    assert_eq!(id.ino, 2);
    assert_eq!(id.key(), (1u128 << 64) + 2);
    assert_ne!(FileId::from_stat(1, 0).key(), FileId::from_stat(0, u64::MAX).key());
    assert_eq!(FileId::from_stat(u64::MAX, u64::MAX).key(), u128::MAX);
}

#[test]
fn count_table_increments_and_decrements() {
    let a = file(30);
    let mut counts = RefCountTable::new();
    assert_eq!(counts.count(a), 0);
    assert_eq!(counts.decrement(a), Err(CountFault::NoReferences));
    assert_eq!(counts.increment(a), 1);
    assert_eq!(counts.increment(a), 2);
    assert_eq!(counts.decrement(a), Ok(1));
    assert_eq!(counts.decrement(a), Ok(0));
    assert_eq!(counts.count(a), 0);
    assert_eq!(counts.decrement(a), Err(CountFault::NoReferences));
}

#[test]
fn descriptor_table_binds_and_unbinds() {
    let a = file(31);
    let b = file(32);
    let mut fds = DescriptorTable::new();
    assert_eq!(fds.lookup(3), None);
    assert_eq!(fds.bind(3, a), None);
    assert_eq!(fds.bind(3, b), Some(a));
    assert_eq!(fds.lookup(3), Some(b));
    assert_eq!(fds.len(), 1);
    assert_eq!(fds.unbind(3), Some(b));
    assert_eq!(fds.unbind(3), None);
    assert_eq!(fds.len(), 0);
}

#[test]
fn interleaved_operations_on_two_files_stay_separate() {
    let a = file(40);
    let b = file(41);
    let mut t = Tracker::new();
    // File a lives on descriptors 10..20, file b on 20..30.
    let mut open_a: Vec<i32> = vec![10];
    let mut open_b: Vec<i32> = vec![20];
    let mut seed: u64 = 0x2545_f491_4f6c_dd1d;
    let mut released: Vec<FileId> = Vec::new();
    for _ in 0..2000 {
        seed = seed.wrapping_mul(6364136223846793005).wrapping_add(1442695040888963407);
        let roll = (seed >> 33) as usize;
        let (id, base, open) = if roll % 2 == 0 {
            (a, 10, &mut open_a)
        } else {
            (b, 20, &mut open_b)
        };
        if roll % 5 < 3 && open.len() < 10 {
            let src = open[(roll / 7) % open.len()];
            let new = (base..base + 10).find(|fd| !open.contains(fd)).unwrap();
            let resolved = if t.needs_resolution(src) { Some(id) } else { None };
            if let Some(gone) = t.after_dup(src, new, resolved) {
                released.push(gone);
            }
            open.push(new);
        } else if !open.is_empty() {
            let fd = open.remove((roll / 7) % open.len());
            if let Some(gone) = t.after_close(fd, 0) {
                released.push(gone);
            }
            if open.is_empty() {
                open.push(base);
            }
        }
        for (file_id, fds) in [(a, &open_a), (b, &open_b)] {
            let bound = fds.iter().filter(|fd| t.identity_of(**fd) == Some(file_id)).count();
            assert_eq!(t.ref_count(file_id), bound as u64);
            for fd in fds.iter() {
                let seen = t.identity_of(*fd);
                assert!(seen.is_none() || seen == Some(file_id));
            }
        }
    }
    assert!(!released.is_empty());
}
